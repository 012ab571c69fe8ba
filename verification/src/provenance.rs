//! Opaque provenance label-sets.
//!
//! The pipeline **carries and unions** provenance; it never interprets a bit. What a
//! bit *means* is the policy of whoever embeds the pipeline.

use vstd::prelude::*;

verus! {

/// Opaque provenance label-set — a 128-bit bitset with SET semantics.
///
/// Union is bitwise OR ([`Provenance::union`]); the egress predicate is a mask AND
/// ([`Provenance::intersects`]).
#[derive(Debug, Clone, Copy, PartialEq, Eq, Structural)]
pub struct Provenance {
    pub bits_lo: u64,
    pub bits_hi: u64,
}

/// Whether bit `i` of `word` is set.
pub open spec fn has_bit(word: u64, i: u64) -> bool {
    i < 64 && (word & (1u64 << i)) != 0
}

/// Whether label `b` is in the set.
pub open spec fn carries(p: Provenance, b: int) -> bool {
    if 0 <= b < 64 {
        has_bit(p.bits_lo, b as u64)
    } else {
        64 <= b < 128 && has_bit(p.bits_hi, (b - 64) as u64)
    }
}

impl View for Provenance {
    type V = Set<int>;

    /// The labels in the set, each in `0..128`.
    open spec fn view(&self) -> Set<int> {
        Set::new(|b: int| carries(*self, b))
    }
}

impl Provenance {
    /// The empty set — carries nothing. NB: empty means *not cleared*, not *clean*;
    /// egress policy treats absent provenance as fail-closed.
    pub fn empty() -> (r: Provenance)
        ensures
            r@ == Set::<int>::empty(),
            r.bits_lo == 0,
            r.bits_hi == 0,
    {
        let r = Provenance { bits_lo: 0, bits_hi: 0 };
        proof {
            lemma_zero_has_no_bit();
            assert(r@ =~= Set::<int>::empty());
        }
        r
    }

    /// A set containing a single bit `0..128`.
    pub fn from_bit(bit: u8) -> (r: Provenance)
        ensures
            r@ == if bit < 128 {
                set![bit as int]
            } else {
                Set::<int>::empty()
            },
    {
        let mut p = Provenance::empty();
        p.set_bit(bit);
        assert(p@ =~= if bit < 128 {
            set![bit as int]
        } else {
            Set::<int>::empty()
        });
        p
    }

    /// Set bit `0..128` (no-op if out of range — bits ≥128 are not representable yet).
    pub fn set_bit(&mut self, bit: u8)
        ensures
            final(self)@ == if bit < 128 {
                old(self)@.insert(bit as int)
            } else {
                old(self)@
            },
    {
        let ghost before = *self;
        if bit < 64 {
            self.bits_lo = self.bits_lo | (1u64 << bit);
            proof {
                let after = *self;
                assert forall|b: int| #[trigger] carries(after, b) == (carries(before, b) || b == bit) by {
                    if 0 <= b < 64 {
                        lemma_or_bit(before.bits_lo, bit as u64, b as u64);
                    }
                }
                assert(after@ =~= before@.insert(bit as int));
            }
        } else if bit < 128 {
            self.bits_hi = self.bits_hi | (1u64 << (bit - 64));
            proof {
                let after = *self;
                assert forall|b: int| #[trigger] carries(after, b) == (carries(before, b) || b == bit) by {
                    if 64 <= b < 128 {
                        lemma_or_bit(before.bits_hi, (bit - 64) as u64, (b - 64) as u64);
                    }
                }
                assert(after@ =~= before@.insert(bit as int));
            }
        }
    }

    /// This set with `bit` added (builder style).
    pub fn with_bit(self, bit: u8) -> (r: Provenance)
        ensures
            r@ == if bit < 128 {
                self@.insert(bit as int)
            } else {
                self@
            },
    {
        let mut p = self;
        p.set_bit(bit);
        p
    }

    /// The union of two sets (bitwise OR) — over-taint rather than leak.
    pub fn union(self, other: Provenance) -> (r: Provenance)
        ensures
            r@ == self@.union(other@),
            r == union_of(self, other),
    {
        let r = Provenance {
            bits_lo: self.bits_lo | other.bits_lo,
            bits_hi: self.bits_hi | other.bits_hi,
        };
        proof {
            law_union_is_set_union(self, other);
        }
        r
    }

    /// Union `other` into this set in place.
    pub fn union_with(&mut self, other: Provenance)
        ensures
            final(self)@ == old(self)@.union(other@),
            *final(self) == union_of(*old(self), other),
    {
        let r = self.union(other);
        self.bits_lo = r.bits_lo;
        self.bits_hi = r.bits_hi;
    }

    /// Whether this set carries no labels.
    pub fn is_empty(self) -> (r: bool)
        ensures
            r == (self@ == Set::<int>::empty()),
            r == (self.bits_lo == 0 && self.bits_hi == 0),
    {
        proof {
            lemma_zero_has_no_bit();
            if self.bits_lo != 0 {
                let i = lemma_nonzero_has_bit(self.bits_lo);
                assert(self@.contains(i as int));
            } else if self.bits_hi != 0 {
                let i = lemma_nonzero_has_bit(self.bits_hi);
                assert(self@.contains(i + 64));
            } else {
                assert(self@ =~= Set::<int>::empty());
            }
        }
        self.bits_lo == 0 && self.bits_hi == 0
    }

    /// Whether `bit` is present.
    pub fn contains_bit(self, bit: u8) -> (r: bool)
        ensures
            r == self@.contains(bit as int),
    {
        if bit < 64 {
            self.bits_lo & (1u64 << bit) != 0
        } else if bit < 128 {
            self.bits_hi & (1u64 << (bit - 64)) != 0
        } else {
            false
        }
    }

    /// Whether this set shares any bit with `mask` (the egress mask-test primitive).
    pub fn intersects(self, mask: Provenance) -> (r: bool)
        ensures
            r == exists|b: int| #[trigger] self@.contains(b) && mask@.contains(b),
    {
        proof {
            lemma_common_bit(self.bits_lo, mask.bits_lo);
            lemma_common_bit(self.bits_hi, mask.bits_hi);
            if self.bits_lo & mask.bits_lo != 0 {
                let i = choose|i: u64|
                    #[trigger] has_bit(self.bits_lo, i) && has_bit(mask.bits_lo, i);
                assert(self@.contains(i as int) && mask@.contains(i as int));
            }
            if self.bits_hi & mask.bits_hi != 0 {
                let i = choose|i: u64|
                    #[trigger] has_bit(self.bits_hi, i) && has_bit(mask.bits_hi, i);
                assert(self@.contains(i + 64) && mask@.contains(i + 64));
            }
            if exists|b: int| #[trigger] self@.contains(b) && mask@.contains(b) {
                let b = choose|b: int| #[trigger] self@.contains(b) && mask@.contains(b);
                if b < 64 {
                    assert(has_bit(self.bits_lo, b as u64) && has_bit(mask.bits_lo, b as u64));
                } else {
                    assert(has_bit(self.bits_hi, (b - 64) as u64) && has_bit(
                        mask.bits_hi,
                        (b - 64) as u64,
                    ));
                }
            }
        }
        (self.bits_lo & mask.bits_lo) != 0 || (self.bits_hi & mask.bits_hi) != 0
    }
}

/// The empty set is the default.
impl Default for Provenance {
    fn default() -> (r: Self)
        ensures
            r@ == Set::<int>::empty(),
            r.bits_lo == 0,
            r.bits_hi == 0,
    {
        Provenance::empty()
    }
}

/// The union of two sets, word by word.
pub open spec fn union_of(a: Provenance, b: Provenance) -> Provenance {
    Provenance { bits_lo: a.bits_lo | b.bits_lo, bits_hi: a.bits_hi | b.bits_hi }
}

// ── Laws ─────────────────────────────────────────────────────────────

/// The word-by-word union holds exactly the labels of both sets.
pub proof fn law_union_is_set_union(a: Provenance, b: Provenance)
    ensures
        union_of(a, b)@ == a@.union(b@),
{
    let r = union_of(a, b);
    assert forall|x: int| r@.contains(x) == a@.union(b@).contains(x) by {
        if 0 <= x < 64 {
            lemma_or_has_bit(a.bits_lo, b.bits_lo, x as u64);
        } else if 64 <= x < 128 {
            lemma_or_has_bit(a.bits_hi, b.bits_hi, (x - 64) as u64);
        }
    }
    assert(r@ =~= a@.union(b@));
}

/// Union keeps every label of either set: provenance never shrinks on its way.
pub proof fn law_union_never_loses(a: Provenance, b: Provenance)
    ensures
        a@.subset_of(union_of(a, b)@),
        b@.subset_of(union_of(a, b)@),
{
    law_union_is_set_union(a, b);
}

/// Sets with the same labels are the same value.
pub proof fn law_same_labels_same_set(a: Provenance, b: Provenance)
    requires
        a@ == b@,
    ensures
        a == b,
{
    assert forall|x: int| carries(a, x) == carries(b, x) by {
        assert(a@.contains(x) == carries(a, x));
        assert(b@.contains(x) == carries(b, x));
    }
    assert forall|i: u64| i < 64 implies has_bit(a.bits_lo, i) == has_bit(b.bits_lo, i) by {
        assert(carries(a, i as int) == carries(b, i as int));
    }
    assert forall|i: u64| i < 64 implies has_bit(a.bits_hi, i) == has_bit(b.bits_hi, i) by {
        assert(carries(a, i + 64) == carries(b, i + 64));
    }
    lemma_same_bits(a.bits_lo, b.bits_lo);
    lemma_same_bits(a.bits_hi, b.bits_hi);
}

// ── Bit arithmetic ───────────────────────────────────────────────────

proof fn lemma_zero_has_no_bit()
    ensures
        forall|i: u64| !has_bit(0, i),
{
    assert forall|i: u64| !has_bit(0, i) by {
        assert(0u64 & (1u64 << i) == 0) by (bit_vector);
    }
}

proof fn lemma_or_bit(word: u64, k: u64, i: u64)
    requires
        k < 64,
        i < 64,
    ensures
        has_bit(word | (1u64 << k), i) == (has_bit(word, i) || i == k),
{
    assert(((word | (1u64 << k)) & (1u64 << i) != 0) == ((word & (1u64 << i) != 0) || i == k))
        by (bit_vector)
        requires
            i < 64,
            k < 64,
    ;
}

proof fn lemma_or_has_bit(a: u64, b: u64, i: u64)
    ensures
        has_bit(a | b, i) == (has_bit(a, i) || has_bit(b, i)),
{
    assert(((a | b) & (1u64 << i) != 0) == ((a & (1u64 << i) != 0) || (b & (1u64 << i) != 0)))
        by (bit_vector);
}

/// The lowest set bit at or above `from`, given that the bits below it are clear.
proof fn lemma_find_bit(word: u64, from: u64) -> (i: u64)
    requires
        word != 0,
        from <= 64,
        from < 64 ==> (word >> from) != 0,
        from < 64,
    ensures
        has_bit(word, i),
    decreases 64 - from,
{
    if word & (1u64 << from) != 0 {
        from
    } else {
        assert(from < 63 && (word >> ((from + 1) as u64)) != 0) by (bit_vector)
            requires
                from < 64,
                (word >> from) != 0,
                word & (1u64 << from) == 0,
        ;
        lemma_find_bit(word, (from + 1) as u64)
    }
}

proof fn lemma_nonzero_has_bit(word: u64) -> (i: u64)
    requires
        word != 0,
    ensures
        has_bit(word, i),
        i < 64,
{
    assert(word >> 0u64 == word) by (bit_vector);
    lemma_find_bit(word, 0)
}

proof fn lemma_common_bit(a: u64, b: u64)
    ensures
        (a & b != 0) == exists|i: u64| #[trigger] has_bit(a, i) && has_bit(b, i),
{
    if a & b != 0 {
        let i = lemma_nonzero_has_bit(a & b);
        assert((a & (1u64 << i)) != 0 && (b & (1u64 << i)) != 0) by (bit_vector)
            requires
                (a & b) & (1u64 << i) != 0,
        ;
        assert(has_bit(a, i) && has_bit(b, i));
    }
    if exists|i: u64| #[trigger] has_bit(a, i) && has_bit(b, i) {
        let i = choose|i: u64| #[trigger] has_bit(a, i) && has_bit(b, i);
        assert(a & b != 0) by (bit_vector)
            requires
                i < 64,
                a & (1u64 << i) != 0,
                b & (1u64 << i) != 0,
        ;
    }
}

proof fn lemma_same_bits(a: u64, b: u64)
    requires
        forall|i: u64| i < 64 ==> has_bit(a, i) == has_bit(b, i),
    ensures
        a == b,
{
    if a != b {
        assert(a ^ b != 0) by (bit_vector)
            requires
                a != b,
        ;
        let i = lemma_nonzero_has_bit(a ^ b);
        assert((a & (1u64 << i) != 0) != (b & (1u64 << i) != 0)) by (bit_vector)
            requires
                i < 64,
                (a ^ b) & (1u64 << i) != 0,
        ;
        assert(has_bit(a, i) == has_bit(b, i));
    }
}

} // verus!
