//! Borrows of an actor's state: requests built field by field, and the
//! tickets that a granted request leaves with its holder.
use vstd::prelude::*;

use crate::borrow::{conflicts, BitfieldState};
use crate::disjoint::{Borrowed, Disjointness};

verus! {

/// A state type that declares how many fields it has.
pub trait ActorBorrowable {
    spec fn spec_field_count() -> nat;

    fn field_count() -> (r: usize)
        ensures
            r == Self::spec_field_count(),
    ;
}

/// Nothing held on a state of type `S`.
pub fn bitfield_state_for<S: ActorBorrowable>() -> (r: BitfieldState)
    ensures
        r.wf(),
        r.field_count() == S::spec_field_count(),
        r.held_exclusive() == Set::<int>::empty(),
        r.held_shared() == Set::<int>::empty(),
{
    BitfieldState::new(S::field_count())
}

/// Builds a request field by field.
pub struct BorrowBuilder {
    request: Disjointness,
}

impl BorrowBuilder {
    pub closed spec fn spec_request(&self) -> Disjointness {
        self.request
    }

    /// A request for no field of a state of `fields` fields.
    pub fn new(fields: usize) -> (r: Self)
        ensures
            r.spec_request().wf(),
            r.spec_request().field_count() == fields,
            r.spec_request().exclusive_fields() == Set::<int>::empty(),
            r.spec_request().shared_fields() == Set::<int>::empty(),
    {
        BorrowBuilder { request: Disjointness::new(fields) }
    }

    /// Adds `field`, shared.
    pub fn read(self, field: usize) -> (r: Self)
        requires
            self.spec_request().wf(),
            field < self.spec_request().field_count(),
        ensures
            r.spec_request().wf(),
            r.spec_request().field_count() == self.spec_request().field_count(),
            r.spec_request().shared_fields() == self.spec_request().shared_fields().insert(
                field as int,
            ),
            r.spec_request().exclusive_fields() == self.spec_request().exclusive_fields(),
    {
        let mut request = self.request;
        request.read(field);
        BorrowBuilder { request }
    }

    /// Adds `field`, exclusively.
    pub fn write(self, field: usize) -> (r: Self)
        requires
            self.spec_request().wf(),
            field < self.spec_request().field_count(),
        ensures
            r.spec_request().wf(),
            r.spec_request().field_count() == self.spec_request().field_count(),
            r.spec_request().exclusive_fields() == self.spec_request().exclusive_fields().insert(
                field as int,
            ),
            r.spec_request().shared_fields() == self.spec_request().shared_fields(),
    {
        let mut request = self.request;
        request.write(field);
        BorrowBuilder { request }
    }

    pub fn build(self) -> (r: Disjointness)
        ensures
            r == self.spec_request(),
    {
        self.request
    }
}

/// A granted request, held until it is released.
pub struct ActorBorrow {
    request: Disjointness,
}

/// A granted request for the whole state, exclusively, held until it is
/// released.
pub struct ActorBorrowMut {
    request: Disjointness,
}

impl ActorBorrow {
    pub closed spec fn spec_request(&self) -> Disjointness {
        self.request
    }
}

impl ActorBorrowMut {
    pub closed spec fn spec_request(&self) -> Disjointness {
        self.request
    }
}

/// Grants `req` on `held`, with a ticket for it; refused, with `req` handed
/// back and nothing changed, where it conflicts.
pub fn borrow_fields(held: &mut BitfieldState, req: Disjointness) -> (r: Result<
    ActorBorrow,
    (Borrowed, Disjointness),
>)
    requires
        old(held).wf(),
        req.wf(),
        req.field_count() == old(held).field_count(),
    ensures
        final(held).wf(),
        final(held).field_count() == old(held).field_count(),
        r is Ok <==> !conflicts(
            old(held).held_exclusive(),
            old(held).held_shared(),
            req.exclusive_fields(),
            req.shared_fields(),
        ),
        match r {
            Ok(b) => b.spec_request() == req && final(held).held_exclusive() == old(
                held,
            ).held_exclusive().union(req.exclusive_fields()) && final(held).held_shared() == old(
                held,
            ).held_shared().union(req.shared_fields()),
            Err((_, back)) => back == req && *final(held) == *old(held),
        },
{
    match held.try_borrow(&req) {
        Ok(()) => Ok(ActorBorrow { request: req }),
        Err(e) => Err((e, req)),
    }
}

/// Grants every field exclusively on `held`, with a ticket for it; refused
/// while anything is held.
pub fn borrow_whole(held: &mut BitfieldState) -> (r: Result<ActorBorrowMut, Borrowed>)
    requires
        old(held).wf(),
    ensures
        final(held).wf(),
        final(held).field_count() == old(held).field_count(),
        r is Ok <==> !conflicts(
            old(held).held_exclusive(),
            old(held).held_shared(),
            Set::new(|f: int| 0 <= f < old(held).field_count()),
            Set::<int>::empty(),
        ),
        match r {
            Ok(b) => b.spec_request().exclusive_fields() == Set::new(
                |f: int| 0 <= f < old(held).field_count(),
            ) && final(held).held_exclusive() == old(held).held_exclusive().union(
                b.spec_request().exclusive_fields(),
            ) && final(held).held_shared() == old(held).held_shared(),
            Err(_) => *final(held) == *old(held),
        },
{
    let req = Disjointness::whole_state(held.fields());
    let r = held.try_borrow(&req);
    proof {
        assert(old(held).held_shared().union(Set::<int>::empty()) =~= old(held).held_shared());
    }
    match r {
        Ok(()) => Ok(ActorBorrowMut { request: req }),
        Err(e) => Err(e),
    }
}

/// Releases a ticket: its fields are no longer held.
pub fn release_fields(held: &mut BitfieldState, b: ActorBorrow)
    requires
        old(held).wf(),
        b.spec_request().wf(),
        b.spec_request().field_count() == old(held).field_count(),
    ensures
        final(held).wf(),
        final(held).field_count() == old(held).field_count(),
        final(held).held_exclusive() == old(held).held_exclusive().difference(
            b.spec_request().exclusive_fields(),
        ),
        final(held).held_shared() == old(held).held_shared().difference(
            b.spec_request().shared_fields(),
        ),
{
    held.unborrow(&b.request);
}

/// Releases a whole-state ticket: nothing is held exclusively any more.
pub fn release_whole(held: &mut BitfieldState, b: ActorBorrowMut)
    requires
        old(held).wf(),
        b.spec_request().wf(),
        b.spec_request().field_count() == old(held).field_count(),
    ensures
        final(held).wf(),
        final(held).field_count() == old(held).field_count(),
        final(held).held_exclusive() == old(held).held_exclusive().difference(
            b.spec_request().exclusive_fields(),
        ),
        final(held).held_shared() == old(held).held_shared().difference(
            b.spec_request().shared_fields(),
        ),
{
    held.unborrow(&b.request);
}

} // verus!
