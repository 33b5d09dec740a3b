//! Bitmask conflict detection for concurrent access to the fields of an
//! actor's state.
//!
//! Field `f` of a state type is bit `f % 64` of word `f / 64` of a mask.
//! The held state keeps two masks: fields granted exclusively and fields
//! granted shared. A request is also a pair of masks.
use vstd::prelude::*;

use crate::disjoint::{Borrowed, Disjointness};

verus! {

/// Number of fields that one mask word covers.
pub const WORD_BITS: usize = 64;

/// Bit `k` of word `w` is set.
pub open spec fn bit_at(w: u64, k: u64) -> bool {
    (w >> k) & 1u64 == 1u64
}

/// Field `f` is named by the mask `m`.
pub open spec fn mask_has(m: Seq<u64>, f: int) -> bool {
    0 <= f < m.len() * 64 && bit_at(m[f / 64], (f % 64) as u64)
}

/// The set of fields that a mask names.
pub open spec fn fields_of(m: Seq<u64>) -> Set<int> {
    Set::new(|f: int| mask_has(m, f))
}

/// A request for exclusive fields `want_ex` and shared fields `want_sh`
/// conflicts with what is held: it wants exclusively a field that is held in
/// any way, or wants shared a field that is held exclusively.
pub open spec fn conflicts(
    held_ex: Set<int>,
    held_sh: Set<int>,
    want_ex: Set<int>,
    want_sh: Set<int>,
) -> bool {
    !want_ex.disjoint(held_ex.union(held_sh)) || !want_sh.disjoint(held_ex)
}

proof fn lemma_bit_and(a: u64, b: u64, k: u64)
    requires
        k < 64,
    ensures
        bit_at(a & b, k) == (bit_at(a, k) && bit_at(b, k)),
{
    assert(((a & b) >> k) & 1u64 == 1u64 <==> ((a >> k) & 1u64 == 1u64 && (b >> k) & 1u64
        == 1u64)) by (bit_vector)
        requires
            k < 64,
    ;
}

proof fn lemma_bit_or(a: u64, b: u64, k: u64)
    requires
        k < 64,
    ensures
        bit_at(a | b, k) == (bit_at(a, k) || bit_at(b, k)),
{
    assert(((a | b) >> k) & 1u64 == 1u64 <==> ((a >> k) & 1u64 == 1u64 || (b >> k) & 1u64
        == 1u64)) by (bit_vector)
        requires
            k < 64,
    ;
}

proof fn lemma_bit_clear(a: u64, b: u64, k: u64)
    requires
        k < 64,
    ensures
        bit_at(a & !b, k) == (bit_at(a, k) && !bit_at(b, k)),
{
    assert(((a & !b) >> k) & 1u64 == 1u64 <==> ((a >> k) & 1u64 == 1u64 && (b >> k) & 1u64
        != 1u64)) by (bit_vector)
        requires
            k < 64,
    ;
}

proof fn lemma_bit_single(a: u64, j: u64, k: u64)
    requires
        j < 64,
        k < 64,
    ensures
        bit_at(a | (1u64 << j), k) == (bit_at(a, k) || j == k),
{
    assert(((a | (1u64 << j)) >> k) & 1u64 == 1u64 <==> ((a >> k) & 1u64 == 1u64 || j == k))
        by (bit_vector)
        requires
            j < 64,
            k < 64,
    ;
}

proof fn lemma_zero_no_bits(k: u64)
    requires
        k < 64,
    ensures
        !bit_at(0u64, k),
{
    assert((0u64 >> k) & 1u64 != 1u64) by (bit_vector)
        requires
            k < 64,
    ;
}

/// A nonzero word has a set bit at or above `j` once its bits below `j` are
/// dropped.
proof fn lemma_nonzero_has_bit(a: u64, j: u64)
    requires
        j < 64,
        a >> j != 0,
    ensures
        exists|k: u64| j <= k < 64 && #[trigger] bit_at(a, k),
    decreases 64 - j,
{
    if (a >> j) & 1u64 == 1u64 {
        assert(bit_at(a, j));
    } else {
        if j == 63 {
            assert((a >> j) != 0 && j == 63 ==> (a >> j) & 1u64 == 1u64) by (bit_vector);
        } else {
            assert((a >> j) != 0 && (a >> j) & 1u64 != 1u64 && j < 63 ==> (a >> ((j + 1) as u64))
                != 0) by (bit_vector);
            lemma_nonzero_has_bit(a, (j + 1) as u64);
        }
    }
}

proof fn lemma_field_split(i: int, k: int)
    requires
        0 <= k < 64,
        0 <= i,
    ensures
        (64 * i + k) / 64 == i,
        (64 * i + k) % 64 == k,
{
    assert((64 * i + k) / 64 == i && (64 * i + k) % 64 == k) by (nonlinear_arith)
        requires
            0 <= k < 64,
            0 <= i,
    ;
}

proof fn lemma_field_bounds(f: int, len: int)
    requires
        0 <= f < len * 64,
    ensures
        0 <= f / 64 < len,
        0 <= f % 64 < 64,
{
    assert(0 <= f / 64 < len) by (nonlinear_arith)
        requires
            0 <= f < len * 64,
    ;
}

/// Word `i` of the four masks shows no conflict.
pub open spec fn word_clear(
    he: Seq<u64>,
    hs: Seq<u64>,
    we: Seq<u64>,
    ws: Seq<u64>,
    i: int,
) -> bool {
    (he[i] | hs[i]) & we[i] == 0 && he[i] & ws[i] == 0
}

/// No conflict in any of the first `n` words means no conflict on a field
/// of those words.
proof fn lemma_clear_words_no_conflict(
    he: Seq<u64>,
    hs: Seq<u64>,
    we: Seq<u64>,
    ws: Seq<u64>,
)
    requires
        he.len() == hs.len() == we.len() == ws.len(),
        forall|i: int| 0 <= i < he.len() ==> #[trigger] word_clear(he, hs, we, ws, i),
    ensures
        !conflicts(fields_of(he), fields_of(hs), fields_of(we), fields_of(ws)),
{
    let len = he.len() as int;
    assert forall|f: int| !(fields_of(we).contains(f) && fields_of(he).union(fields_of(hs)).contains(f))
        by {
        if fields_of(we).contains(f) {
            lemma_field_bounds(f, len);
            let i = f / 64;
            let k = (f % 64) as u64;
            assert(word_clear(he, hs, we, ws, i));
            lemma_bit_and(he[i] | hs[i], we[i], k);
            lemma_bit_or(he[i], hs[i], k);
            lemma_zero_no_bits(k);
        }
    }
    assert forall|f: int| !(fields_of(ws).contains(f) && fields_of(he).contains(f)) by {
        if fields_of(ws).contains(f) {
            lemma_field_bounds(f, len);
            let i = f / 64;
            let k = (f % 64) as u64;
            assert(word_clear(he, hs, we, ws, i));
            lemma_bit_and(he[i], ws[i], k);
            lemma_zero_no_bits(k);
        }
    }
}

/// A conflict in word `i` is a conflict on some field of that word.
proof fn lemma_dirty_word_conflicts(
    he: Seq<u64>,
    hs: Seq<u64>,
    we: Seq<u64>,
    ws: Seq<u64>,
    i: int,
)
    requires
        he.len() == hs.len() == we.len() == ws.len(),
        0 <= i < he.len(),
        !word_clear(he, hs, we, ws, i),
    ensures
        conflicts(fields_of(he), fields_of(hs), fields_of(we), fields_of(ws)),
{
    let len = he.len() as int;
    if (he[i] | hs[i]) & we[i] != 0 {
        let w = (he[i] | hs[i]) & we[i];
        assert(w >> 0u64 == w) by (bit_vector);
        lemma_nonzero_has_bit(w, 0);
        let k = choose|k: u64| 0 <= k < 64 && #[trigger] bit_at(w, k);
        lemma_bit_and(he[i] | hs[i], we[i], k);
        lemma_bit_or(he[i], hs[i], k);
        let f = 64 * i + k;
        lemma_field_split(i, k as int);
        assert(f < len * 64) by (nonlinear_arith)
            requires
                f == 64 * i + k,
                i < len,
                k < 64,
        ;
        assert(fields_of(we).contains(f));
        assert(fields_of(he).union(fields_of(hs)).contains(f));
    } else {
        let w = he[i] & ws[i];
        assert(w >> 0u64 == w) by (bit_vector);
        lemma_nonzero_has_bit(w, 0);
        let k = choose|k: u64| 0 <= k < 64 && #[trigger] bit_at(w, k);
        lemma_bit_and(he[i], ws[i], k);
        let f = 64 * i + k;
        lemma_field_split(i, k as int);
        assert(f < len * 64) by (nonlinear_arith)
            requires
                f == 64 * i + k,
                i < len,
                k < 64,
        ;
        assert(fields_of(ws).contains(f));
        assert(fields_of(he).contains(f));
    }
}

/// Whether a request for `want_ex` exclusively and `want_sh` shared can be
/// granted beside what `held_ex` and `held_sh` already grant.
pub fn can_borrow(held_ex: &Vec<u64>, held_sh: &Vec<u64>, want_ex: &Vec<u64>, want_sh: &Vec<u64>) -> (r:
    bool)
    requires
        held_ex@.len() == held_sh@.len() == want_ex@.len() == want_sh@.len(),
    ensures
        r == !conflicts(fields_of(held_ex@), fields_of(held_sh@), fields_of(want_ex@), fields_of(want_sh@)),
{
    let n = held_ex.len();
    let mut i: usize = 0;
    while i < n
        invariant
            n == held_ex@.len() == held_sh@.len() == want_ex@.len() == want_sh@.len(),
            i <= n,
            forall|j: int| 0 <= j < i ==> #[trigger] word_clear(held_ex@, held_sh@, want_ex@, want_sh@, j),
        decreases n - i,
    {
        if (held_ex[i] | held_sh[i]) & want_ex[i] != 0 || held_ex[i] & want_sh[i] != 0 {
            proof {
                lemma_dirty_word_conflicts(held_ex@, held_sh@, want_ex@, want_sh@, i as int);
            }
            return false;
        }
        i += 1;
    }
    proof {
        lemma_clear_words_no_conflict(held_ex@, held_sh@, want_ex@, want_sh@);
    }
    true
}

/// Word by word, `c` is `a | b`.
pub open spec fn words_or(c: Seq<u64>, a: Seq<u64>, b: Seq<u64>) -> bool {
    c.len() == a.len() == b.len() && forall|j: int| 0 <= j < c.len() ==> #[trigger] c[j] == a[j] | b[j]
}

/// Word by word, `c` is `a & !b`.
pub open spec fn words_clear(c: Seq<u64>, a: Seq<u64>, b: Seq<u64>) -> bool {
    c.len() == a.len() == b.len() && forall|j: int| 0 <= j < c.len() ==> #[trigger] c[j] == a[j] & !b[j]
}

proof fn lemma_words_or(c: Seq<u64>, a: Seq<u64>, b: Seq<u64>)
    requires
        words_or(c, a, b),
    ensures
        fields_of(c) == fields_of(a).union(fields_of(b)),
{
    assert forall|f: int| fields_of(c).contains(f) == fields_of(a).union(fields_of(b)).contains(f) by {
        if 0 <= f < c.len() * 64 {
            lemma_field_bounds(f, c.len() as int);
            let i = f / 64;
            assert(c[i] == a[i] | b[i]);
            lemma_bit_or(a[i], b[i], (f % 64) as u64);
        }
    }
    assert(fields_of(c) =~= fields_of(a).union(fields_of(b)));
}

proof fn lemma_words_clear(c: Seq<u64>, a: Seq<u64>, b: Seq<u64>)
    requires
        words_clear(c, a, b),
    ensures
        fields_of(c) == fields_of(a).difference(fields_of(b)),
{
    assert forall|f: int| fields_of(c).contains(f) == fields_of(a).difference(fields_of(b)).contains(f) by {
        if 0 <= f < c.len() * 64 {
            lemma_field_bounds(f, c.len() as int);
            let i = f / 64;
            assert(c[i] == a[i] & !b[i]);
            lemma_bit_clear(a[i], b[i], (f % 64) as u64);
        }
    }
    assert(fields_of(c) =~= fields_of(a).difference(fields_of(b)));
}

/// Sets every word of `dst` to `dst | src`.
fn or_into(dst: &mut Vec<u64>, src: &Vec<u64>)
    requires
        old(dst)@.len() == src@.len(),
    ensures
        words_or(final(dst)@, old(dst)@, src@),
        fields_of(final(dst)@) == fields_of(old(dst)@).union(fields_of(src@)),
{
    let n = dst.len();
    let mut i: usize = 0;
    while i < n
        invariant
            n == dst@.len() == src@.len() == old(dst)@.len(),
            i <= n,
            forall|j: int| 0 <= j < i ==> #[trigger] dst@[j] == old(dst)@[j] | src@[j],
            forall|j: int| i <= j < n ==> #[trigger] dst@[j] == old(dst)@[j],
        decreases n - i,
    {
        let w = dst[i] | src[i];
        dst[i] = w;
        i += 1;
    }
    proof {
        lemma_words_or(dst@, old(dst)@, src@);
    }
}

/// Sets every word of `dst` to `dst & !src`.
fn clear_from(dst: &mut Vec<u64>, src: &Vec<u64>)
    requires
        old(dst)@.len() == src@.len(),
    ensures
        words_clear(final(dst)@, old(dst)@, src@),
        fields_of(final(dst)@) == fields_of(old(dst)@).difference(fields_of(src@)),
{
    let n = dst.len();
    let mut i: usize = 0;
    while i < n
        invariant
            n == dst@.len() == src@.len() == old(dst)@.len(),
            i <= n,
            forall|j: int| 0 <= j < i ==> #[trigger] dst@[j] == old(dst)@[j] & !src@[j],
            forall|j: int| i <= j < n ==> #[trigger] dst@[j] == old(dst)@[j],
        decreases n - i,
    {
        let w = dst[i] & !src[i];
        dst[i] = w;
        i += 1;
    }
    proof {
        lemma_words_clear(dst@, old(dst)@, src@);
    }
}

/// Number of mask words needed for `fields` fields: `ceil(fields / 64)`.
pub open spec fn words_for(fields: nat) -> nat {
    ((fields + 63) / 64) as nat
}

/// Number of mask words that a state of `fields` fields needs.
pub fn bitfield_len(fields: usize) -> (r: usize)
    ensures
        r == words_for(fields as nat),
{
    if fields % WORD_BITS == 0 {
        fields / WORD_BITS
    } else {
        fields / WORD_BITS + 1
    }
}

/// A mask of `len` words that names no field.
pub fn bitfield(len: usize) -> (r: Vec<u64>)
    ensures
        r@.len() == len,
        forall|j: int| 0 <= j < len ==> r@[j] == 0,
        fields_of(r@) == Set::<int>::empty(),
{
    let mut r: Vec<u64> = Vec::new();
    let mut i: usize = 0;
    while i < len
        invariant
            i <= len,
            r@.len() == i,
            forall|j: int| 0 <= j < i ==> r@[j] == 0,
        decreases len - i,
    {
        r.push(0u64);
        i += 1;
    }
    proof {
        assert forall|f: int| !fields_of(r@).contains(f) by {
            if 0 <= f < r@.len() * 64 {
                lemma_field_bounds(f, r@.len() as int);
                lemma_zero_no_bits((f % 64) as u64);
            }
        }
        assert(fields_of(r@) =~= Set::<int>::empty());
    }
    r
}

/// Adds field `f` to the mask `m`.
pub(crate) fn set_field(m: &mut Vec<u64>, f: usize)
    requires
        f < old(m)@.len() * 64,
    ensures
        final(m)@.len() == old(m)@.len(),
        fields_of(final(m)@) == fields_of(old(m)@).insert(f as int),
{
    proof {
        lemma_field_bounds(f as int, old(m)@.len() as int);
    }
    let i = f / WORD_BITS;
    let k = (f % WORD_BITS) as u64;
    let w = m[i] | (1u64 << k);
    m[i] = w;
    proof {
        let a = old(m)@;
        let c = m@;
        assert forall|g: int| fields_of(c).contains(g) == fields_of(a).insert(f as int).contains(g) by {
            if 0 <= g < c.len() * 64 {
                lemma_field_bounds(g, c.len() as int);
                if g / 64 == i as int {
                    lemma_bit_single(a[i as int], k, (g % 64) as u64);
                    if g % 64 == k as int {
                        assert(g == f as int) by (nonlinear_arith)
                            requires
                                g / 64 == f / 64,
                                g % 64 == f % 64,
                                g >= 0,
                                f >= 0,
                        ;
                    }
                } else {
                    assert(c[g / 64] == a[g / 64]);
                }
            }
        }
        assert(fields_of(c) =~= fields_of(a).insert(f as int));
    }
}

/// Access over the fields of one state type: what a borrow mask tracks.
pub trait BorrowMaskBitField {
    /// The masks of fields held exclusively and held shared.
    fn bitfield(&self) -> (&Vec<u64>, &Vec<u64>);
}

/// What is currently granted on one actor's state: the fields held
/// exclusively and the fields held shared.
pub struct BitfieldState {
    fields: usize,
    exclusive: Vec<u64>,
    shared: Vec<u64>,
}

impl BitfieldState {
    /// Both masks cover the state's fields.
    pub closed spec fn wf(&self) -> bool {
        self.exclusive@.len() == words_for(self.fields as nat) && self.shared@.len() == words_for(
            self.fields as nat,
        )
    }

    pub closed spec fn field_count(&self) -> nat {
        self.fields as nat
    }

    /// Fields held exclusively.
    pub closed spec fn held_exclusive(&self) -> Set<int> {
        fields_of(self.exclusive@)
    }

    /// Fields held shared.
    pub closed spec fn held_shared(&self) -> Set<int> {
        fields_of(self.shared@)
    }

    /// Nothing held on a state of `fields` fields.
    pub fn new(fields: usize) -> (r: Self)
        ensures
            r.wf(),
            r.field_count() == fields,
            r.held_exclusive() == Set::<int>::empty(),
            r.held_shared() == Set::<int>::empty(),
    {
        let len = bitfield_len(fields);
        BitfieldState { fields, exclusive: bitfield(len), shared: bitfield(len) }
    }

    pub fn fields(&self) -> (r: usize)
        ensures
            r == self.field_count(),
    {
        self.fields
    }

    /// Whether `req` could be granted now.
    pub fn can_grant(&self, req: &Disjointness) -> (r: bool)
        requires
            self.wf(),
            req.wf(),
            req.field_count() == self.field_count(),
        ensures
            r == !conflicts(
                self.held_exclusive(),
                self.held_shared(),
                req.exclusive_fields(),
                req.shared_fields(),
            ),
    {
        can_borrow(&self.exclusive, &self.shared, req.exclusive_mask(), req.shared_mask())
    }

    /// Grants `req` unless it conflicts with what is held, in which case
    /// nothing changes and `Borrowed` is returned.
    pub fn try_borrow(&mut self, req: &Disjointness) -> (r: Result<(), Borrowed>)
        requires
            old(self).wf(),
            req.wf(),
            req.field_count() == old(self).field_count(),
        ensures
            final(self).wf(),
            final(self).field_count() == old(self).field_count(),
            r is Ok == !conflicts(
                old(self).held_exclusive(),
                old(self).held_shared(),
                req.exclusive_fields(),
                req.shared_fields(),
            ),
            r is Ok ==> final(self).held_exclusive() == old(self).held_exclusive().union(
                req.exclusive_fields(),
            ) && final(self).held_shared() == old(self).held_shared().union(req.shared_fields()),
            r is Err ==> *final(self) == *old(self),
    {
        if !self.can_grant(req) {
            return Err(Borrowed);
        }
        or_into(&mut self.exclusive, req.exclusive_mask());
        or_into(&mut self.shared, req.shared_mask());
        Ok(())
    }

    /// Releases a grant made for `req`: its fields are no longer held. A
    /// field released already stays released.
    pub fn unborrow(&mut self, req: &Disjointness)
        requires
            old(self).wf(),
            req.wf(),
            req.field_count() == old(self).field_count(),
        ensures
            final(self).wf(),
            final(self).field_count() == old(self).field_count(),
            final(self).held_exclusive() == old(self).held_exclusive().difference(req.exclusive_fields()),
            final(self).held_shared() == old(self).held_shared().difference(req.shared_fields()),
    {
        clear_from(&mut self.exclusive, req.exclusive_mask());
        clear_from(&mut self.shared, req.shared_mask());
    }
}

impl BorrowMaskBitField for BitfieldState {
    fn bitfield(&self) -> (&Vec<u64>, &Vec<u64>) {
        (&self.exclusive, &self.shared)
    }
}

/// One request names exclusively a field that the other names in any way.
pub open spec fn exclusive_overlap(
    a_ex: Set<int>,
    a_sh: Set<int>,
    b_ex: Set<int>,
    b_sh: Set<int>,
) -> bool {
    conflicts(a_ex, a_sh, b_ex, b_sh) || conflicts(b_ex, b_sh, a_ex, a_sh)
}

/// Two requests with no exclusive overlap can both be granted: if each could
/// be granted against what is held, the second can still be granted after
/// the first was.
pub proof fn lemma_disjoint_requests_coexist(
    held_ex: Set<int>,
    held_sh: Set<int>,
    a_ex: Set<int>,
    a_sh: Set<int>,
    b_ex: Set<int>,
    b_sh: Set<int>,
)
    requires
        !conflicts(held_ex, held_sh, a_ex, a_sh),
        !conflicts(held_ex, held_sh, b_ex, b_sh),
        !exclusive_overlap(a_ex, a_sh, b_ex, b_sh),
    ensures
        !conflicts(held_ex.union(a_ex), held_sh.union(a_sh), b_ex, b_sh),
        !conflicts(held_ex.union(b_ex), held_sh.union(b_sh), a_ex, a_sh),
{
}

/// Two requests with an exclusive overlap never hold grants at once: while
/// the first is held, the second is refused.
pub proof fn lemma_overlapping_requests_exclude(
    held_ex: Set<int>,
    held_sh: Set<int>,
    a_ex: Set<int>,
    a_sh: Set<int>,
    b_ex: Set<int>,
    b_sh: Set<int>,
)
    requires
        a_ex.subset_of(held_ex),
        a_sh.subset_of(held_sh),
        exclusive_overlap(a_ex, a_sh, b_ex, b_sh),
    ensures
        conflicts(held_ex, held_sh, b_ex, b_sh),
{
    if conflicts(a_ex, a_sh, b_ex, b_sh) {
        if !b_ex.disjoint(a_ex.union(a_sh)) {
            let f = choose|f: int| b_ex.contains(f) && a_ex.union(a_sh).contains(f);
            assert(held_ex.union(held_sh).contains(f));
        } else {
            let f = choose|f: int| b_sh.contains(f) && a_ex.contains(f);
            assert(held_ex.contains(f));
        }
    } else {
        if !a_ex.disjoint(b_ex.union(b_sh)) {
            let f = choose|f: int| a_ex.contains(f) && b_ex.union(b_sh).contains(f);
            assert(held_ex.contains(f));
        } else {
            let f = choose|f: int| a_sh.contains(f) && b_ex.contains(f);
            assert(held_sh.contains(f));
        }
    }
}

} // verus!
