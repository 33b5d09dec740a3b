use pobox::contract::Contracts;
use pobox::runner::MessageDropping;
use pobox::service::{plan_batches, Batch};
use pobox::ActorRef;

#[test]
fn plan_groups_queries_between_mutations() {
    let plan = plan_batches(&vec![false, false, true, false, true, true]);
    assert_eq!(
        plan,
        vec![
            Batch::Queries(0, 2),
            Batch::Mutation(2),
            Batch::Queries(3, 4),
            Batch::Mutation(4),
            Batch::Mutation(5)
        ]
    );
    assert!(plan_batches(&vec![]).is_empty());
    assert_eq!(plan_batches(&vec![false, false]), vec![Batch::Queries(0, 2)]);
    assert_eq!(plan_batches(&vec![true]), vec![Batch::Mutation(0)]);
}

#[test]
fn drop_policies() {
    assert!(!MessageDropping::Forbidden.drops(10, 10, 5, 0));
    assert!(MessageDropping::Always.drops(10, 10, 5, 3));
    assert!(!MessageDropping::Always.drops(9, 10, 5, 3));
    assert!(MessageDropping::Optimized.drops(5, 10, 5, 0));
    assert!(!MessageDropping::Optimized.drops(5, 10, 5, 1));
    assert!(!MessageDropping::Optimized.drops(4, 10, 5, 0));
}

#[test]
fn contracts_find_and_revoke_oldest() {
    let mut c: Contracts<u32> = Contracts::new();
    c.grant(10, ActorRef::new(1));
    c.grant(20, ActorRef::new(2));
    c.grant(30, ActorRef::new(1));
    assert_eq!(c.find(1), Some(0));
    assert_eq!(c.find(2), Some(1));
    assert_eq!(c.find(3), None);
    let p = c.revoke(1).unwrap();
    assert_eq!(p.state, 10);
    assert_eq!(c.len(), 2);
    assert_eq!(c.find(1), Some(1));
    assert!(c.revoke(7).is_none());
}
