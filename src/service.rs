//! Services: an actor's message set split into queries, which only read
//! the state, and mutations, which change it. Consecutive queries may run
//! together; each mutation runs alone, in order.
use vstd::prelude::*;

verus! {

/// A value that answers a message.
pub trait Reply {}

impl Reply for () {}

/// The reply type that handling a `T` yields.
pub trait HasReply<T> {
    type Reply: Reply;
}

/// A type whose values are an actor's state.
pub trait Actor: Sized {}

/// An actor state that answers the query `T` without changing.
pub trait Query<T>: HasReply<T> {
    fn handle(&self, query: T) -> Self::Reply;
}

/// An actor state that changes on the mutation `T`.
pub trait Mutation<T>: HasReply<T> {
    fn handle(&mut self, msg: T) -> Self::Reply;
}

/// A reply channel that answers queries to an actor of type `T`.
pub trait ReplyForQuery<T> {}

impl<T> ReplyForQuery<T> for () {}

/// A reply channel that answers mutations of an actor of type `T`.
pub trait ReplyForMutation<T> {}

impl<T> ReplyForMutation<T> for () {}

/// One message type among those that make up the service `S`.
pub trait ServiceMember<S> {
    fn into_service(self) -> S;
}

/// The message set of an actor whose state is a `T`.
pub trait Service<T>: Sized {
    /// Whether the message changes the state.
    spec fn mutates(&self) -> bool;

    /// The state after the message was handled.
    spec fn effect(&self, actor: T) -> T;

    fn is_mutation(&self) -> (r: bool)
        ensures
            r == self.mutates(),
    ;

    /// Handles a query against the state, answering on `reply`.
    fn handle_query<R: ReplyForQuery<T>>(self, actor: &T, reply: R)
        requires
            !self.mutates(),
    ;

    /// Handles a mutation against the state, answering on `reply`.
    fn handle_mutation<R: ReplyForMutation<T>>(self, actor: &mut T, reply: R)
        ensures
            *final(actor) == self.effect(*old(actor)),
    ;
}

/// A query as a member of a service.
pub struct ServiceQuery<Q> {
    pub query: Q,
}

/// A mutation as a member of a service.
pub struct ServiceMutation<M> {
    pub mutation: M,
}

/// One step of a plan over a run of messages.
#[derive(Debug, Clone, Copy, PartialEq, Eq, Structural)]
pub enum Batch {
    /// The queries at positions `start..end`, which may run together.
    Queries(usize, usize),
    /// The mutation at the position, alone.
    Mutation(usize),
}

pub open spec fn batch_start(b: Batch) -> int {
    match b {
        Batch::Queries(s, _) => s as int,
        Batch::Mutation(i) => i as int,
    }
}

pub open spec fn batch_end(b: Batch) -> int {
    match b {
        Batch::Queries(_, e) => e as int,
        Batch::Mutation(i) => i + 1,
    }
}

/// `b` is a step over `mutations`: a nonempty run of queries, or one
/// mutation.
pub open spec fn batch_fits(b: Batch, mutations: Seq<bool>) -> bool {
    match b {
        Batch::Queries(s, e) => s < e <= mutations.len() && forall|i: int|
            s <= i < e ==> !#[trigger] mutations[i],
        Batch::Mutation(i) => i < mutations.len() && mutations[i as int],
    }
}

/// The steps of `plan` fit `mutations`, start at 0, follow one another
/// without gap, and no two query steps are adjacent.
pub open spec fn steps_chain(plan: Seq<Batch>, mutations: Seq<bool>) -> bool {
    &&& plan.len() > 0 ==> batch_start(plan[0]) == 0
    &&& forall|k: int| 0 <= k < plan.len() ==> batch_fits(#[trigger] plan[k], mutations)
    &&& forall|k: int|
        0 <= k < plan.len() - 1 ==> batch_end(#[trigger] plan[k]) == batch_start(plan[k + 1])
    &&& forall|k: int|
        0 <= k < plan.len() - 1 ==> !(#[trigger] plan[k] is Queries && plan[k + 1] is Queries)
}

/// `plan` covers the messages in order, each step where the last ended,
/// with maximal runs of queries: no two query steps are adjacent.
pub open spec fn is_plan(plan: Seq<Batch>, mutations: Seq<bool>) -> bool {
    &&& (plan.len() == 0 <==> mutations.len() == 0)
    &&& plan.len() > 0 ==> batch_end(plan.last()) == mutations.len()
    &&& steps_chain(plan, mutations)
}

proof fn lemma_chain_push(plan: Seq<Batch>, b: Batch, mutations: Seq<bool>)
    requires
        steps_chain(plan, mutations),
        batch_fits(b, mutations),
        batch_start(b) == if plan.len() == 0 {
            0
        } else {
            batch_end(plan.last())
        },
        plan.len() > 0 ==> !(plan.last() is Queries && b is Queries),
    ensures
        steps_chain(plan.push(b), mutations),
{
    let p = plan.push(b);
    assert forall|k: int| 0 <= k < p.len() implies batch_fits(#[trigger] p[k], mutations) by {
        if k < plan.len() {
            assert(p[k] == plan[k]);
        }
    }
    assert forall|k: int| 0 <= k < p.len() - 1 implies batch_end(#[trigger] p[k]) == batch_start(
        p[k + 1],
    ) by {
        assert(p[k] == plan[k]);
        if k + 1 < plan.len() {
            assert(p[k + 1] == plan[k + 1]);
        }
    }
    assert forall|k: int| 0 <= k < p.len() - 1 implies !(#[trigger] p[k] is Queries && p[k
        + 1] is Queries) by {
        assert(p[k] == plan[k]);
        if k + 1 < plan.len() {
            assert(p[k + 1] == plan[k + 1]);
        }
    }
    if plan.len() > 0 {
        assert(p[0] == plan[0]);
    }
}

/// Plans a run of messages, given which are mutations: consecutive queries
/// form one step, and each mutation is a step of its own.
pub fn plan_batches(mutations: &Vec<bool>) -> (r: Vec<Batch>)
    ensures
        is_plan(r@, mutations@),
{
    let n = mutations.len();
    let mut plan: Vec<Batch> = Vec::new();
    let mut open = false;
    let mut qs: usize = 0;
    let mut i: usize = 0;
    while i < n
        invariant
            n == mutations@.len(),
            i <= n,
            open ==> qs < i && forall|j: int| qs <= j < i ==> !#[trigger] mutations@[j],
            plan@.len() == 0 || !(plan@.last() is Queries),
            (if open {
                qs as int
            } else {
                i as int
            }) == if plan@.len() == 0 {
                0
            } else {
                batch_end(plan@.last())
            },
            steps_chain(plan@, mutations@),
        decreases n - i,
    {
        if mutations[i] {
            if open {
                proof {
                    lemma_chain_push(plan@, Batch::Queries(qs, i), mutations@);
                }
                plan.push(Batch::Queries(qs, i));
                open = false;
            }
            proof {
                lemma_chain_push(plan@, Batch::Mutation(i), mutations@);
            }
            plan.push(Batch::Mutation(i));
        } else if !open {
            open = true;
            qs = i;
        }
        i += 1;
    }
    if open {
        proof {
            lemma_chain_push(plan@, Batch::Queries(qs, n), mutations@);
        }
        plan.push(Batch::Queries(qs, n));
    }
    plan
}

proof fn lemma_steps_ordered(plan: Seq<Batch>, mutations: Seq<bool>, k: int, l: int)
    requires
        steps_chain(plan, mutations),
        0 <= k < l < plan.len(),
    ensures
        batch_end(plan[k]) <= batch_start(plan[l]),
    decreases l - k,
{
    assert(batch_end(plan[l - 1]) == batch_start(plan[l]));
    if k < l - 1 {
        lemma_steps_ordered(plan, mutations, k, l - 1);
        assert(batch_fits(plan[l - 1], mutations));
    }
}

/// Position `i` lies in one of the first `k + 1` steps of `plan`.
pub open spec fn covered_by(plan: Seq<Batch>, k: int, i: int) -> bool {
    exists|j: int| 0 <= j <= k && batch_start(#[trigger] plan[j]) <= i < batch_end(plan[j])
}

proof fn lemma_steps_cover(plan: Seq<Batch>, mutations: Seq<bool>, k: int)
    requires
        steps_chain(plan, mutations),
        0 <= k < plan.len(),
    ensures
        forall|i: int| 0 <= i < batch_end(plan[k]) ==> #[trigger] covered_by(plan, k, i),
    decreases k,
{
    assert(batch_fits(plan[k], mutations));
    if k > 0 {
        lemma_steps_cover(plan, mutations, k - 1);
        assert(batch_end(plan[k - 1]) == batch_start(plan[k]));
    }
    assert forall|i: int| 0 <= i < batch_end(plan[k]) implies #[trigger] covered_by(plan, k, i) by {
        if i >= batch_start(plan[k]) {
            assert(batch_start(plan[k]) <= i < batch_end(plan[k]));
        } else {
            assert(covered_by(plan, k - 1, i));
            let j = choose|j: int|
                0 <= j <= k - 1 && batch_start(#[trigger] plan[j]) <= i < batch_end(plan[j]);
            assert(0 <= j <= k);
        }
    }
}

/// A plan keeps the messages' order: its steps run one after another over
/// increasing positions, every message is in a step, and a step of queries
/// holds no mutation. So mutations apply in the order they came, and each
/// query runs after every mutation that came before it and before every
/// one that came after it.
pub proof fn lemma_plan_keeps_order(plan: Seq<Batch>, mutations: Seq<bool>)
    requires
        is_plan(plan, mutations),
    ensures
        forall|k: int, l: int|
            0 <= k < l < plan.len() ==> batch_end(#[trigger] plan[k]) <= batch_start(
                #[trigger] plan[l],
            ),
        forall|i: int|
            0 <= i < mutations.len() ==> #[trigger] covered_by(plan, plan.len() - 1, i),
        forall|k: int, i: int|
            0 <= k < plan.len() && #[trigger] plan[k] is Queries && batch_start(plan[k]) <= i
                < batch_end(plan[k]) ==> !#[trigger] mutations[i],
{
    assert forall|k: int, l: int| 0 <= k < l < plan.len() implies batch_end(
        #[trigger] plan[k],
    ) <= batch_start(#[trigger] plan[l]) by {
        lemma_steps_ordered(plan, mutations, k, l);
    }
    if plan.len() > 0 {
        lemma_steps_cover(plan, mutations, plan.len() - 1);
    }
    assert forall|k: int, i: int|
        0 <= k < plan.len() && #[trigger] plan[k] is Queries && batch_start(plan[k]) <= i
            < batch_end(plan[k]) implies !#[trigger] mutations[i] by {
        assert(batch_fits(plan[k], mutations));
    }
}

} // verus!
