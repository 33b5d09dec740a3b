use pobox::proxy::{Proxy, ProxyError, ProxyRef};
use pobox::ActorRef;

#[test]
fn proxy_succeeds_once_then_already_proxied() {
    let first = ActorRef::new(3);
    let handler = ActorRef::new(9);
    let mut p = Proxy::new(handler);
    let mut target = ProxyRef::Pure(first);
    assert_eq!(target.target(), first);
    assert_eq!(p.proxy(&mut target), Ok(()));
    assert_eq!(target, ProxyRef::Proxy(0, handler));
    assert_eq!(target.target(), handler);
    assert_eq!(p.replaced_at(0), Some(first));
    assert_eq!(p.proxy(&mut target), Err(ProxyError::AlreadyProxied));
    assert_eq!(target, ProxyRef::Proxy(0, handler));
    assert_eq!(p.replaced_at(1), None);
}

#[test]
fn proxy_slots_count_up() {
    let handler = ActorRef::new(100);
    let mut p = Proxy::new(handler);
    let mut a = ProxyRef::Pure(ActorRef::new(1));
    let mut b = ProxyRef::Pure(ActorRef::new(2));
    assert_eq!(p.proxy(&mut a), Ok(()));
    assert_eq!(p.proxy(&mut b), Ok(()));
    assert_eq!(b, ProxyRef::Proxy(1, handler));
    assert_eq!(p.replaced_at(1), Some(ActorRef::new(2)));
    assert_eq!(p.handler(), handler);
}
