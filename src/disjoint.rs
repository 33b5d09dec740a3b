//! Requests for access to the fields of an actor's state.
use vstd::prelude::*;

use crate::borrow::{bitfield, bitfield_len, fields_of, set_field, words_for};

verus! {

/// A request was refused: it conflicts with an access in flight. Try again
/// later.
#[derive(Debug, Clone, Copy, PartialEq, Eq)]
pub struct Borrowed;

/// The fields that one operation wants: exclusively and shared.
pub struct Disjointness {
    fields: usize,
    exclusive: Vec<u64>,
    shared: Vec<u64>,
}

impl Disjointness {
    /// Both masks cover the state's fields.
    pub closed spec fn wf(&self) -> bool {
        self.exclusive@.len() == words_for(self.fields as nat) && self.shared@.len() == words_for(
            self.fields as nat,
        )
    }

    pub closed spec fn field_count(&self) -> nat {
        self.fields as nat
    }

    /// Fields wanted exclusively.
    pub closed spec fn exclusive_fields(&self) -> Set<int> {
        fields_of(self.exclusive@)
    }

    /// Fields wanted shared.
    pub closed spec fn shared_fields(&self) -> Set<int> {
        fields_of(self.shared@)
    }

    /// A request for no field of a state of `fields` fields.
    pub fn new(fields: usize) -> (r: Self)
        ensures
            r.wf(),
            r.field_count() == fields,
            r.exclusive_fields() == Set::<int>::empty(),
            r.shared_fields() == Set::<int>::empty(),
    {
        let len = bitfield_len(fields);
        Disjointness { fields, exclusive: bitfield(len), shared: bitfield(len) }
    }

    /// The request of an operation that mutates the whole state: every field,
    /// exclusively.
    pub fn whole_state(fields: usize) -> (r: Self)
        ensures
            r.wf(),
            r.field_count() == fields,
            r.exclusive_fields() == Set::new(|f: int| 0 <= f < fields),
            r.shared_fields() == Set::<int>::empty(),
    {
        let mut r = Disjointness::new(fields);
        let mut i: usize = 0;
        while i < fields
            invariant
                i <= fields,
                r.wf(),
                r.field_count() == fields,
                r.exclusive_fields() == Set::new(|f: int| 0 <= f < i),
                r.shared_fields() == Set::<int>::empty(),
            decreases fields - i,
        {
            r.write(i);
            proof {
                assert(Set::new(|f: int| 0 <= f < i).insert(i as int) =~= Set::new(
                    |f: int| 0 <= f < i + 1,
                ));
            }
            i += 1;
        }
        proof {
            assert(Set::new(|f: int| 0 <= f < 0).is_empty());
        }
        r
    }

    /// Adds `field` to the fields wanted shared.
    pub fn read(&mut self, field: usize)
        requires
            old(self).wf(),
            field < old(self).field_count(),
        ensures
            final(self).wf(),
            final(self).field_count() == old(self).field_count(),
            final(self).shared_fields() == old(self).shared_fields().insert(field as int),
            final(self).exclusive_fields() == old(self).exclusive_fields(),
    {
        proof {
            lemma_words_cover(self.fields as nat, field as nat);
        }
        set_field(&mut self.shared, field);
    }

    /// Adds `field` to the fields wanted exclusively.
    pub fn write(&mut self, field: usize)
        requires
            old(self).wf(),
            field < old(self).field_count(),
        ensures
            final(self).wf(),
            final(self).field_count() == old(self).field_count(),
            final(self).exclusive_fields() == old(self).exclusive_fields().insert(field as int),
            final(self).shared_fields() == old(self).shared_fields(),
    {
        proof {
            lemma_words_cover(self.fields as nat, field as nat);
        }
        set_field(&mut self.exclusive, field);
    }

    pub fn exclusive_mask(&self) -> (r: &Vec<u64>)
        ensures
            self.wf() ==> r@.len() == words_for(self.field_count()),
            fields_of(r@) == self.exclusive_fields(),
    {
        &self.exclusive
    }

    pub fn shared_mask(&self) -> (r: &Vec<u64>)
        ensures
            self.wf() ==> r@.len() == words_for(self.field_count()),
            fields_of(r@) == self.shared_fields(),
    {
        &self.shared
    }
}

proof fn lemma_words_cover(fields: nat, f: nat)
    requires
        f < fields,
    ensures
        f < words_for(fields) * 64,
{
    assert(f < ((fields + 63) / 64) * 64) by (nonlinear_arith)
        requires
            f < fields,
    ;
}

/// An operation that declares which fields of its state it touches.
pub trait Disjoint {
    /// How many fields the state has.
    spec fn spec_fields() -> nat;

    /// The fields this operation wants, exclusively and shared.
    fn disjointness(&self) -> (r: Disjointness)
        ensures
            r.wf(),
            r.field_count() == Self::spec_fields(),
    ;
}

} // verus!
