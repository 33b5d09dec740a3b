//! Proxy handles: a reference whose target can be swapped, once, for a
//! privileged handler.
use vstd::prelude::*;

use crate::ActorRef;

verus! {

/// A proxy request that cannot be honoured.
#[derive(Debug, Clone, Copy, PartialEq, Eq, Structural)]
pub enum ProxyError {
    /// The reference was proxied already.
    AlreadyProxied,
}

/// A reference that is either the handle it was made with or a proxy's handler,
/// with the slot under which the proxy keeps the handle it replaced.
#[derive(Debug, Clone, Copy, PartialEq, Eq, Structural)]
pub enum ProxyRef {
    /// Not proxied: traffic goes to the handle it was made with.
    Pure(ActorRef),
    /// Proxied: traffic goes to the handler.
    Proxy(usize, ActorRef),
}

/// Where traffic through `p` goes.
pub open spec fn target_of(p: ProxyRef) -> ActorRef {
    match p {
        ProxyRef::Pure(a) => a,
        ProxyRef::Proxy(_, h) => h,
    }
}

/// The result of proxying `p` by a proxy whose next slot is `slot` and
/// whose handler is `handler`, with the reference afterwards.
pub open spec fn proxied(p: ProxyRef, slot: usize, handler: ActorRef) -> (Result<(), ProxyError>, ProxyRef) {
    match p {
        ProxyRef::Pure(_) => (Ok(()), ProxyRef::Proxy(slot, handler)),
        ProxyRef::Proxy(_, _) => (Err(ProxyError::AlreadyProxied), p),
    }
}

impl ProxyRef {
    /// The handle that traffic goes to.
    pub fn target(&self) -> (r: ActorRef)
        ensures
            r == target_of(*self),
    {
        match self {
            ProxyRef::Pure(a) => *a,
            ProxyRef::Proxy(_, h) => *h,
        }
    }
}

/// Something that can take over references.
pub trait Proxyable {
    /// Replaces a reference that was not proxied yet with this proxy's
    /// handler.
    fn proxy(&mut self, target: &mut ProxyRef) -> Result<(), ProxyError>;
}

/// A proxy that diverts references to one handler and keeps the handles it
/// replaced, each under its own slot.
pub struct Proxy {
    inner: Vec<ActorRef>,
    handler: ActorRef,
}

impl Proxy {
    /// The handles replaced so far, by slot.
    pub closed spec fn replaced(&self) -> Seq<ActorRef> {
        self.inner@
    }

    pub closed spec fn spec_handler(&self) -> ActorRef {
        self.handler
    }

    /// A proxy that has replaced nothing yet.
    pub fn new(handler: ActorRef) -> (r: Self)
        ensures
            r.replaced() == Seq::<ActorRef>::empty(),
            r.spec_handler() == handler,
    {
        Proxy { inner: Vec::new(), handler }
    }

    pub fn handler(&self) -> (r: ActorRef)
        ensures
            r == self.spec_handler(),
    {
        self.handler
    }

    /// The handle replaced under `slot`.
    pub fn replaced_at(&self, slot: usize) -> (r: Option<ActorRef>)
        ensures
            slot < self.replaced().len() ==> r == Some(self.replaced()[slot as int]),
            slot >= self.replaced().len() ==> r is None,
    {
        if slot < self.inner.len() {
            Some(self.inner[slot])
        } else {
            None
        }
    }

    /// Takes over `target` if it is pure: its handle is kept under the
    /// next slot and `target` now leads to the handler. A proxied `target`
    /// is refused and nothing changes.
    pub fn proxy(&mut self, target: &mut ProxyRef) -> (r: Result<(), ProxyError>)
        ensures
            (r, *final(target)) == proxied(
                *old(target),
                old(self).replaced().len() as usize,
                old(self).spec_handler(),
            ),
            final(self).spec_handler() == old(self).spec_handler(),
            match *old(target) {
                ProxyRef::Pure(a) => final(self).replaced() == old(self).replaced().push(a),
                ProxyRef::Proxy(_, _) => final(self).replaced() == old(self).replaced(),
            },
    {
        match *target {
            ProxyRef::Proxy(_, _) => Err(ProxyError::AlreadyProxied),
            ProxyRef::Pure(a) => {
                let id = self.inner.len();
                self.inner.push(a);
                *target = ProxyRef::Proxy(id, self.handler);
                Ok(())
            },
        }
    }
}

impl Proxyable for Proxy {
    fn proxy(&mut self, target: &mut ProxyRef) -> Result<(), ProxyError> {
        Proxy::proxy(self, target)
    }
}

/// Proxying a pure reference succeeds and leads it to the handler;
/// proxying the result again fails with `AlreadyProxied` and leaves it as
/// it is.
pub proof fn lemma_proxy_once(a: ActorRef, slot: usize, handler: ActorRef, slot2: usize, handler2: ActorRef)
    ensures
        proxied(ProxyRef::Pure(a), slot, handler) == (Ok::<(), ProxyError>(()), ProxyRef::Proxy(slot, handler)),
        target_of(proxied(ProxyRef::Pure(a), slot, handler).1) == handler,
        proxied(proxied(ProxyRef::Pure(a), slot, handler).1, slot2, handler2) == (
            Err::<(), ProxyError>(ProxyError::AlreadyProxied),
            ProxyRef::Proxy(slot, handler),
        ),
{
}

} // verus!
