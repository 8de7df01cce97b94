use vstd::prelude::*;
use crate::board::bit_array::{bit, lemma_bit_and, lemma_bit_not, lemma_bit_or, lemma_bit_xor};

verus! {

/// A counter per square, from 0 to 7, kept as three bit planes: the count of square `t` is
/// `bit0(t) + 2 * bit1(t) + 4 * bit2(t)`.
#[derive(Clone, PartialEq, Eq)]
pub struct FieldCounter {
    bits: [u64; 3],
}

pub open spec fn plane_value(b: u64, t: int, weight: int) -> int {
    if bit(b, t) {
        weight
    } else {
        0
    }
}

impl FieldCounter {
    /// The count of square `t`.
    pub closed spec fn value_at(&self, t: int) -> int {
        plane_value(self.bits[0], t, 1) + plane_value(self.bits[1], t, 2) + plane_value(self.bits[2], t, 4)
    }

    pub proof fn lemma_value_range(&self, t: int)
        ensures
            0 <= self.value_at(t) <= 7,
    {
    }

    pub fn empty() -> (r: FieldCounter)
        ensures
            forall|t: int| #[trigger] r.value_at(t) == 0,
    {
        let r = FieldCounter { bits: [0; 3] };
        proof {
            assert forall|t: int| #[trigger] r.value_at(t) == 0 by {
                crate::board::bit_array::lemma_bit_zero(t);
            }
        }
        r
    }

    /// The squares whose count is not zero.
    pub fn attacked(&self) -> (r: u64)
        ensures
            forall|t: int| 0 <= t < 64 ==> (#[trigger] bit(r, t) == (self.value_at(t) > 0)),
    {
        let r = self.bits[0] | self.bits[1] | self.bits[2];
        proof {
            assert forall|t: int| 0 <= t < 64 implies (#[trigger] bit(r, t) == (self.value_at(t) > 0)) by {
                lemma_bit_or(self.bits[0] | self.bits[1], self.bits[2], t);
                lemma_bit_or(self.bits[0], self.bits[1], t);
            }
        }
        r
    }

    /// Adds one to the count of every square set in `v`; a count of 7 wraps to 0.
    pub fn increment(&mut self, v: u64)
        ensures
            forall|t: int| 0 <= t < 64 ==> #[trigger] final(self).value_at(t) == (old(self).value_at(t) + plane_value(v, t, 1)) % 8,
    {
        let b0 = self.bits[0];
        let b1 = self.bits[1];
        let b2 = self.bits[2];
        let carry = v & b0;
        let n0 = b0 ^ v;
        let carry2 = carry & b1;
        let n1 = b1 ^ carry;
        let n2 = b2 ^ carry2;
        self.bits = [n0, n1, n2];
        proof {
            assert forall|t: int| 0 <= t < 64 implies #[trigger] self.value_at(t) == (old(self).value_at(t) + plane_value(v, t, 1)) % 8 by {
                lemma_bit_and(v, b0, t);
                lemma_bit_xor(b0, v, t);
                lemma_bit_and(carry, b1, t);
                lemma_bit_xor(b1, carry, t);
                lemma_bit_xor(b2, carry2, t);
            }
        }
    }

    /// Takes one from the count of every square set in `v`; a count of 0 wraps to 7.
    pub fn decrement(&mut self, v: u64)
        ensures
            forall|t: int| 0 <= t < 64 ==> #[trigger] final(self).value_at(t) == (old(self).value_at(t) + 8 - plane_value(v, t, 1)) % 8,
    {
        let b0 = self.bits[0];
        let b1 = self.bits[1];
        let b2 = self.bits[2];
        let borrow = v & !b0;
        let n0 = b0 ^ v;
        let borrow2 = borrow & !b1;
        let n1 = b1 ^ borrow;
        let n2 = b2 ^ borrow2;
        self.bits = [n0, n1, n2];
        proof {
            assert forall|t: int| 0 <= t < 64 implies #[trigger] self.value_at(t) == (old(self).value_at(t) + 8 - plane_value(v, t, 1)) % 8 by {
                lemma_bit_not(b0, t);
                lemma_bit_and(v, !b0, t);
                lemma_bit_xor(b0, v, t);
                lemma_bit_not(b1, t);
                lemma_bit_and(borrow, !b1, t);
                lemma_bit_xor(b1, borrow, t);
                lemma_bit_xor(b2, borrow2, t);
            }
        }
    }

    /// The count of square `index`.
    pub fn count(&self, index: i8) -> (r: u64)
        requires
            0 <= index < 64,
        ensures
            r == self.value_at(index as int),
    {
        let i = index as u64;
        let b0 = self.bits[0];
        let b1 = self.bits[1];
        let b2 = self.bits[2];
        let mut value = (b0 >> i) & 1;
        value = value | (((b1 >> i) & 1) << 1u64);
        value = value | (((b2 >> i) & 1) << 2u64);
        proof {
            assert(i < 64 ==> ((b0 >> i) & 1u64) | ((((b1 >> i) & 1u64) << 1u64)) | ((((b2 >> i) & 1u64) << 2u64))
                == ((b0 >> i) & 1u64) + 2 * ((b1 >> i) & 1u64) + 4 * ((b2 >> i) & 1u64)
                && (((b0 >> i) & 1u64) == 1u64 || ((b0 >> i) & 1u64) == 0u64)
                && (((b1 >> i) & 1u64) == 1u64 || ((b1 >> i) & 1u64) == 0u64)
                && (((b2 >> i) & 1u64) == 1u64 || ((b2 >> i) & 1u64) == 0u64)) by (bit_vector);
        }
        value
    }
}

/// Adding a bitboard to a counter and taking it away again leaves every count as it was.
pub proof fn law_increment_decrement(before: FieldCounter, mid: FieldCounter, after: FieldCounter, v: u64)
    requires
        forall|t: int| 0 <= t < 64 ==> #[trigger] mid.value_at(t) == (before.value_at(t) + plane_value(v, t, 1)) % 8,
        forall|t: int| 0 <= t < 64 ==> #[trigger] after.value_at(t) == (mid.value_at(t) + 8 - plane_value(v, t, 1)) % 8,
    ensures
        forall|t: int| 0 <= t < 64 ==> #[trigger] after.value_at(t) == before.value_at(t),
{
    assert forall|t: int| 0 <= t < 64 implies #[trigger] after.value_at(t) == before.value_at(t) by {
        before.lemma_value_range(t);
        assert(mid.value_at(t) == (before.value_at(t) + plane_value(v, t, 1)) % 8);
    }
}

} // verus!
