use vstd::prelude::*;
use crate::text::push_char;
use crate::board::bit_array_lookup::{accum_columns, lemma_file_a, FILE_A};
use crate::board::square::file_of;

verus! {

/// Whether square `s` (0 = a1 .. 63 = h8) is set in the bitboard `b`.
pub open spec fn bit(b: u64, s: int) -> bool {
    0 <= s < 64 && (b >> (s as u64)) & 1u64 == 1u64
}

pub broadcast proof fn lemma_bit_or(a: u64, b: u64, t: int)
    requires
        0 <= t < 64,
    ensures
        #[trigger] bit(a | b, t) == (bit(a, t) || bit(b, t)),
{
    let u = t as u64;
    assert(((a | b) >> u) & 1u64 == 1u64 <==> ((a >> u) & 1u64 == 1u64 || (b >> u) & 1u64 == 1u64))
        by (bit_vector);
}

pub broadcast proof fn lemma_bit_and(a: u64, b: u64, t: int)
    requires
        0 <= t < 64,
    ensures
        #[trigger] bit(a & b, t) == (bit(a, t) && bit(b, t)),
{
    let u = t as u64;
    assert(((a & b) >> u) & 1u64 == 1u64 <==> ((a >> u) & 1u64 == 1u64 && (b >> u) & 1u64 == 1u64))
        by (bit_vector);
}

pub broadcast proof fn lemma_bit_xor(a: u64, b: u64, t: int)
    requires
        0 <= t < 64,
    ensures
        #[trigger] bit(a ^ b, t) == (bit(a, t) != bit(b, t)),
{
    let u = t as u64;
    assert(((a ^ b) >> u) & 1u64 == 1u64 <==> ((a >> u) & 1u64 == 1u64) != ((b >> u) & 1u64 == 1u64))
        by (bit_vector);
}

pub broadcast proof fn lemma_bit_not(a: u64, t: int)
    requires
        0 <= t < 64,
    ensures
        #[trigger] bit(!a, t) == !bit(a, t),
{
    let u = t as u64;
    assert(u < 64 ==> ((!a >> u) & 1u64 == 1u64 <==> !((a >> u) & 1u64 == 1u64))) by (bit_vector);
}

pub broadcast proof fn lemma_bit_single(s: int, t: int)
    requires
        0 <= s < 64,
        0 <= t < 64,
    ensures
        #[trigger] bit(1u64 << (s as u64), t) == (s == t),
{
    let u = t as u64;
    let v = s as u64;
    assert(u < 64 && v < 64 ==> (((1u64 << v) >> u) & 1u64 == 1u64 <==> u == v)) by (bit_vector);
}

pub broadcast proof fn lemma_bit_zero(t: int)
    ensures
        #[trigger] bit(0u64, t) == false,
{
    let u = t as u64;
    assert((0u64 >> u) & 1u64 == 0u64) by (bit_vector);
}

pub broadcast proof fn lemma_bit_full(t: int)
    requires
        0 <= t < 64,
    ensures
        #[trigger] bit(0xffff_ffff_ffff_ffffu64, t),
{
    let u = t as u64;
    assert(u < 64 ==> (0xffff_ffff_ffff_ffffu64 >> u) & 1u64 == 1u64) by (bit_vector);
}

pub broadcast group group_bit_lemmas {
    lemma_bit_or,
    lemma_bit_and,
    lemma_bit_xor,
    lemma_bit_not,
    lemma_bit_single,
    lemma_bit_zero,
    lemma_bit_full,
}



proof fn lemma_bit_value(a: u64, b: u64, t: int)
    requires
        0 <= t < 64,
        bit(a, t) == bit(b, t),
    ensures
        (a >> (t as u64)) & 1u64 == (b >> (t as u64)) & 1u64,
{
    let u = t as u64;
    assert(((a >> u) & 1u64 == 1u64) == ((b >> u) & 1u64 == 1u64) ==> (a >> u) & 1u64 == (b >> u)
        & 1u64) by (bit_vector);
}


pub broadcast proof fn lemma_bit_shl(x: u64, n: u64, t: int)
    requires
        n < 64,
        0 <= t < 64,
    ensures
        #[trigger] bit(x << n, t) == (t >= n && bit(x, t - n)),
{
    let u = t as u64;
    assert(n < 64 && u < 64 ==> (((x << n) >> u) & 1u64 == 1u64 <==> (u >= n && (x >> ((u - n) as u64))
        & 1u64 == 1u64))) by (bit_vector);
}

pub broadcast proof fn lemma_bit_shr(x: u64, n: u64, t: int)
    requires
        n < 64,
        0 <= t < 64,
    ensures
        #[trigger] bit(x >> n, t) == (t + n < 64 && bit(x, t + n)),
{
    let u = t as u64;
    assert(n < 64 && u < 64 ==> (((x >> n) >> u) & 1u64 == 1u64 <==> (u + n < 64 && (x >> ((u + n) as u64)) & 1u64 == 1u64))) by (bit_vector);
}

/// Number of set squares among squares 0 .. n-1.
pub open spec fn pop_below(b: u64, n: int) -> nat
    decreases n,
{
    if n <= 0 {
        0
    } else {
        pop_below(b, n - 1) + if bit(b, n - 1) {
            1nat
        } else {
            0nat
        }
    }
}

/// Number of set squares of a bitboard.
pub open spec fn pop(b: u64) -> nat {
    pop_below(b, 64)
}

pub proof fn lemma_pop_below_bound(b: u64, n: int)
    requires
        0 <= n,
    ensures
        pop_below(b, n) <= n,
    decreases n,
{
    if n > 0 {
        lemma_pop_below_bound(b, n - 1);
    }
}

/// The number of set squares of a bitboard.
pub fn count_bits(b: u64) -> (r: u32)
    ensures
        r == pop(b),
        r <= 64,
{
    let mut count: u32 = 0;
    let mut i: u64 = 0;
    while i < 64
        invariant
            i <= 64,
            count == pop_below(b, i as int),
            count <= i,
        decreases 64 - i,
    {
        if (b >> i) & 1 == 1 {
            count = count + 1;
        }
        i = i + 1;
    }
    count
}

/// The set squares of `b` from square `i` on, in ascending order.
pub open spec fn squares_from(b: u64, i: int) -> Seq<int>
    decreases 64 - i,
{
    if i >= 64 || i < 0 {
        Seq::empty()
    } else if bit(b, i) {
        seq![i].add(squares_from(b, i + 1))
    } else {
        squares_from(b, i + 1)
    }
}

/// The set squares of `b`, in ascending order.
pub open spec fn set_squares(b: u64) -> Seq<int> {
    squares_from(b, 0)
}

proof fn lemma_squares_from_agree(a: u64, b: u64, i: int)
    requires
        0 <= i,
        forall|t: int| i <= t < 64 ==> bit(a, t) == bit(b, t),
    ensures
        squares_from(a, i) == squares_from(b, i),
    decreases 64 - i,
{
    if i < 64 {
        lemma_squares_from_agree(a, b, i + 1);
    }
}

proof fn lemma_squares_from_skip(a: u64, i: int, j: int)
    requires
        0 <= i <= j <= 64,
        forall|t: int| i <= t < j ==> !bit(a, t),
    ensures
        squares_from(a, i) == squares_from(a, j),
    decreases j - i,
{
    if i < j {
        lemma_squares_from_skip(a, i + 1, j);
    }
}

proof fn lemma_squares_from_bound(a: u64, i: int)
    requires
        0 <= i <= 64,
    ensures
        forall|k: int| 0 <= k < squares_from(a, i).len() ==> i <= #[trigger] squares_from(a, i)[k] < 64
            && bit(a, squares_from(a, i)[k]),
        squares_from(a, i).len() <= 64 - i,
    decreases 64 - i,
{
    if i < 64 {
        lemma_squares_from_bound(a, i + 1);
    }
}

/// The lowest set square of a non-empty bitboard, and the bitboard without it.
proof fn lemma_lowest_bit(x: u64)
    requires
        x != 0,
    ensures
        ({
            let z = vstd::std_specs::bits::u64_trailing_zeros(x) as int;
            &&& 0 <= z < 64
            &&& bit(x, z)
            &&& forall|t: int| 0 <= t < z ==> !bit(x, t)
            &&& forall|t: int| 0 <= t < 64 ==> bit(x & ((x - 1) as u64), t) == (bit(x, t) && t != z)
            &&& set_squares(x) == seq![z].add(set_squares(x & ((x - 1) as u64)))
        }),
{
    let zz = vstd::std_specs::bits::u64_trailing_zeros(x);
    vstd::std_specs::bits::axiom_u64_trailing_zeros(x);
    let z = zz as u64;
    assert(z < 64);
    assert forall|t: int| 0 <= t < zz implies !bit(x, t) by {
        let u = t as u64;
        assert(u < z && z < 64 && x << ((64 - z) as u64) == 0 ==> (x >> u) & 1u64 == 0u64) by (bit_vector);
    }
    assert forall|t: int| 0 <= t < 64 implies bit(x & ((x - 1) as u64), t) == (bit(x, t) && t != zz) by {
        let u = t as u64;
        assert(z < 64 && u < 64 && (x >> z) & 1u64 == 1u64 && x << ((64 - z) as u64) == 0 ==> (((x & ((x - 1) as u64)) >> u) & 1u64 == 1u64 <==> ((x >> u) & 1u64 == 1u64 && u != z))) by (bit_vector);
    }
    let y = x & ((x - 1) as u64);
    lemma_squares_from_skip(x, 0, zz as int);
    assert forall|t: int| 0 <= t < zz as int + 1 implies !bit(y, t) by {
        if t < zz {
            assert(!bit(x, t));
        }
    }
    lemma_squares_from_skip(y, 0, zz as int + 1);
    lemma_squares_from_agree(x, y, zz as int + 1);
    assert(!bit(y, zz as int));
}

/// Lowest set bit cleared: `x & (x - 1)` (the BLSR instruction).
pub fn blsr(x: u64) -> (r: u64)
    ensures
        x != 0 ==> r == x & ((x - 1) as u64),
        x == 0 ==> r == 0,
{
    if x == 0 {
        0
    } else {
        x & (x - 1)
    }
}


/// Whether square `t` of the bitboard `b` moved by `dx` files and `dy` ranks is set:
/// the square it came from is on the board, the move keeps it on the board, and it was set.
pub open spec fn translated_bit(b: u64, dx: int, dy: int, t: int) -> bool {
    let s = t - dx - 8 * dy;
    &&& 0 <= t < 64
    &&& 0 <= s < 64
    &&& 0 <= file_of(s) + dx < 8
    &&& bit(b, s)
}

/// The square of a bitboard that has exactly one set square.
pub open spec fn lowest_of(v: u64) -> int {
    set_squares(v)[0]
}

proof fn lemma_lowest_of_single(v: u64, i: int)
    requires
        0 <= i < 64,
        forall|t: int| #[trigger] bit(v, t) == (t == i),
    ensures
        lowest_of(v) == i,
{
    lemma_squares_from_skip(v, 0, i);
}

proof fn lemma_squares_from_zero(i: int)
    requires
        0 <= i <= 64,
    ensures
        squares_from(0u64, i).len() == 0,
    decreases 64 - i,
{
    lemma_bit_zero(i);
    if i < 64 {
        lemma_squares_from_zero(i + 1);
    }
}

pub trait BitArray: Sized {
    spec fn bits(&self) -> u64;

    fn set_bit(&mut self, square: i8)
        requires
            0 <= square < 64,
        ensures
            forall|t: int| #[trigger] bit(final(self).bits(), t) == (bit(old(self).bits(), t) || t == square),
    ;

    fn clear_bit(&mut self, square: i8)
        requires
            0 <= square < 64,
        ensures
            forall|t: int| #[trigger] bit(final(self).bits(), t) == (bit(old(self).bits(), t) && t != square),
    ;

    fn get_bit(self, square: i8) -> (r: bool)
        requires
            0 <= square < 64,
        ensures
            r == bit(self.bits(), square as int),
    ;

    fn flip_bit(&mut self, square: i8)
        requires
            0 <= square < 64,
        ensures
            forall|t: int| #[trigger] bit(final(self).bits(), t) == (bit(old(self).bits(), t) != (t == square)),
    ;

    fn translate(self, dx: i8, dy: i8) -> (r: Self)
        requires
            -7 <= dx <= 7,
            -7 <= dy <= 7,
        ensures
            forall|t: int| #[trigger] bit(r.bits(), t) == translated_bit(self.bits(), dx as int, dy as int, t),
    ;

    fn translate_vertical(self, dy: i8) -> (r: Self)
        requires
            -7 <= dy <= 7,
        ensures
            forall|t: int| #[trigger] bit(r.bits(), t) == translated_bit(self.bits(), 0, dy as int, t),
    ;

    fn left(self) -> (r: Self)
        ensures
            forall|t: int| #[trigger] bit(r.bits(), t) == translated_bit(self.bits(), -1, 0, t),
    ;

    fn right(self) -> (r: Self)
        ensures
            forall|t: int| #[trigger] bit(r.bits(), t) == translated_bit(self.bits(), 1, 0, t),
    ;

    fn up(self) -> (r: Self)
        ensures
            forall|t: int| #[trigger] bit(r.bits(), t) == translated_bit(self.bits(), 0, 1, t),
    ;

    fn down(self) -> (r: Self)
        ensures
            forall|t: int| #[trigger] bit(r.bits(), t) == translated_bit(self.bits(), 0, -1, t),
    ;

    fn iterate_set_bit_fields(self) -> (r: Vec<u64>)
        ensures
            r@.len() == set_squares(self.bits()).len(),
            forall|k: int, t: int| 0 <= k < r@.len() ==> #[trigger] bit(r@[k], t) == (t == set_squares(self.bits())[k]),
    ;

    fn iterate_set_bits_indices(self) -> (r: Vec<u32>)
        ensures
            r@.len() == set_squares(self.bits()).len(),
            forall|k: int| 0 <= k < r@.len() ==> r@[k] == set_squares(self.bits())[k],
    ;

    fn iterate_squares(self) -> (r: Vec<i8>)
        ensures
            r@.len() == set_squares(self.bits()).len(),
            forall|k: int| 0 <= k < r@.len() ==> r@[k] == set_squares(self.bits())[k],
    ;

    fn lowest_square_index(self) -> (r: u32)
        requires
            self.bits() != 0,
        ensures
            r < 64,
            bit(self.bits(), r as int),
            forall|t: int| 0 <= t < r ==> !bit(self.bits(), t),
            r == set_squares(self.bits())[0],
    ;
}


impl BitArray for u64 {
    open spec fn bits(&self) -> u64 {
        *self
    }

    fn set_bit(&mut self, square: i8)
        ensures
            forall|t: int| #[trigger] bit(*final(self), t) == (bit(*old(self), t) || t == square),
    {
        let ghost old_v = *self;
        *self = *self | (1u64 << (square as u64));
        proof {
            broadcast use group_bit_lemmas;
            assert forall|t: int| #[trigger] bit(*self, t) == (bit(old_v, t) || t == square) by {
                if 0 <= t < 64 {
                    lemma_bit_single(square as int, t);
                }
            }
        }
    }

    fn clear_bit(&mut self, square: i8)
        ensures
            forall|t: int| #[trigger] bit(*final(self), t) == (bit(*old(self), t) && t != square),
    {
        let ghost old_v = *self;
        *self = *self & !(1u64 << (square as u64));
        proof {
            broadcast use group_bit_lemmas;
            assert forall|t: int| #[trigger] bit(*self, t) == (bit(old_v, t) && t != square) by {
                if 0 <= t < 64 {
                    lemma_bit_single(square as int, t);
                }
            }
        }
    }

    fn flip_bit(&mut self, square: i8)
        ensures
            forall|t: int| #[trigger] bit(*final(self), t) == (bit(*old(self), t) != (t == square)),
    {
        let ghost old_v = *self;
        *self = *self ^ (1u64 << (square as u64));
        proof {
            broadcast use group_bit_lemmas;
            assert forall|t: int| #[trigger] bit(*self, t) == (bit(old_v, t) != (t == square)) by {
                if 0 <= t < 64 {
                    lemma_bit_single(square as int, t);
                }
            }
        }
    }


    fn translate(self, dx: i8, dy: i8) -> (r: u64)
        ensures
            forall|t: int| #[trigger] bit(r, t) == translated_bit(self, dx as int, dy as int, t),
    {
        let last_file = if dx >= 0 {
            7 - dx
        } else {
            -dx - 1
        };
        let acc = accum_columns(last_file);
        let mask = if dx >= 0 {
            acc
        } else {
            !acc
        };
        let shift_sum = dx + dy * 8;
        let r = if shift_sum > 0 {
            (self & mask) << (shift_sum as u64)
        } else {
            (self & mask) >> ((-shift_sum) as u64)
        };
        proof {
            assert forall|t: int| #[trigger] bit(r, t) == translated_bit(self, dx as int, dy as int, t) by {
                if 0 <= t < 64 {
                    if shift_sum > 0 {
                        lemma_bit_shl(self & mask, shift_sum as u64, t);
                    } else {
                        lemma_bit_shr(self & mask, (-shift_sum) as u64, t);
                    }
                    let s = t - dx - 8 * dy;
                    if 0 <= s < 64 {
                        lemma_bit_and(self, mask, s);
                        if dx < 0 {
                            lemma_bit_not(acc, s);
                        }
                    }
                }
            }
        }
        r
    }

    fn translate_vertical(self, dy: i8) -> (r: u64)
        ensures
            forall|t: int| #[trigger] bit(r, t) == translated_bit(self, 0, dy as int, t),
    {
        let shift_sum = dy * 8;
        let r = if shift_sum > 0 {
            self << (shift_sum as u64)
        } else {
            self >> ((-shift_sum) as u64)
        };
        proof {
            assert forall|t: int| #[trigger] bit(r, t) == translated_bit(self, 0, dy as int, t) by {
                if 0 <= t < 64 {
                    if shift_sum > 0 {
                        lemma_bit_shl(self, shift_sum as u64, t);
                    } else {
                        lemma_bit_shr(self, (-shift_sum) as u64, t);
                    }
                }
            }
        }
        r
    }

    fn left(self) -> (r: u64)
        ensures
            forall|t: int| #[trigger] bit(r, t) == translated_bit(self, -1, 0, t),
    {
        let r = (self & !FILE_A) >> 1u64;
        proof {
            assert forall|t: int| #[trigger] bit(r, t) == translated_bit(self, -1, 0, t) by {
                if 0 <= t < 64 {
                    lemma_bit_shr(self & !FILE_A, 1, t);
                    if t + 1 < 64 {
                        lemma_file_a(t + 1);
                        lemma_bit_and(self, !FILE_A, t + 1);
                        lemma_bit_not(FILE_A, t + 1);
                    }
                }
            }
        }
        r
    }

    fn right(self) -> (r: u64)
        ensures
            forall|t: int| #[trigger] bit(r, t) == translated_bit(self, 1, 0, t),
    {
        let r = (self << 1u64) & !FILE_A;
        proof {
            assert forall|t: int| #[trigger] bit(r, t) == translated_bit(self, 1, 0, t) by {
                if 0 <= t < 64 {
                    lemma_bit_shl(self, 1, t);
                    lemma_file_a(t);
                    lemma_bit_and(self << 1u64, !FILE_A, t);
                    lemma_bit_not(FILE_A, t);
                }
            }
        }
        r
    }

    fn up(self) -> (r: u64)
        ensures
            forall|t: int| #[trigger] bit(r, t) == translated_bit(self, 0, 1, t),
    {
        let r = self << 8u64;
        proof {
            assert forall|t: int| #[trigger] bit(r, t) == translated_bit(self, 0, 1, t) by {
                if 0 <= t < 64 {
                    lemma_bit_shl(self, 8, t);
                }
            }
        }
        r
    }

    fn down(self) -> (r: u64)
        ensures
            forall|t: int| #[trigger] bit(r, t) == translated_bit(self, 0, -1, t),
    {
        let r = self >> 8u64;
        proof {
            assert forall|t: int| #[trigger] bit(r, t) == translated_bit(self, 0, -1, t) by {
                if 0 <= t < 64 {
                    lemma_bit_shr(self, 8, t);
                }
            }
        }
        r
    }

    fn iterate_set_bit_fields(self) -> (r: Vec<u64>)
        ensures
            r@.len() == set_squares(self).len(),
            forall|k: int, t: int| 0 <= k < r@.len() ==> #[trigger] bit(r@[k], t) == (t == set_squares(self)[k]),
    {
        let mut res: Vec<u64> = Vec::new();
        let mut cur = self;
        proof {
            lemma_squares_from_bound(self, 0);
        }
        while cur != 0
            invariant
                set_squares(self) == res@.map_values(|v: u64| lowest_of(v)).add(set_squares(cur)),
                forall|k: int, t: int| 0 <= k < res@.len() ==> #[trigger] bit(res@[k], t) == (t == set_squares(self)[k]),
                set_squares(self).len() <= 64,
            decreases set_squares(cur).len(),
        {
            proof {
                lemma_lowest_bit(cur);
            }
            let index = cur.trailing_zeros();
            let value = 1u64 << (index as u64);
            proof {
                assert forall|t: int| #[trigger] bit(value, t) == (t == index) by {
                    if 0 <= t < 64 {
                        lemma_bit_single(index as int, t);
                    }
                }
                lemma_lowest_of_single(value, index as int);
            }
            let ghost old_res = res@;
            res.push(value);
            cur = blsr(cur);
            proof {
                assert(res@.map_values(|v: u64| lowest_of(v)) =~= old_res.map_values(|v: u64| lowest_of(v)).push(index as int));
                assert(set_squares(self) =~= res@.map_values(|v: u64| lowest_of(v)).add(set_squares(cur)));
                let k = old_res.len() as int;
                assert(set_squares(self)[k] == index as int);
            }
        }
        proof {
            assert(set_squares(0u64).len() == 0) by {
                lemma_squares_from_zero(0);
            }
        }
        res
    }

    fn iterate_set_bits_indices(self) -> (r: Vec<u32>)
        ensures
            r@.len() == set_squares(self).len(),
            forall|k: int| 0 <= k < r@.len() ==> r@[k] == set_squares(self)[k],
    {
        let mut res: Vec<u32> = Vec::new();
        let mut cur = self;
        proof {
            lemma_squares_from_bound(self, 0);
        }
        while cur != 0
            invariant
                set_squares(self) == res@.map_values(|v: u32| v as int).add(set_squares(cur)),
                set_squares(self).len() <= 64,
            decreases set_squares(cur).len(),
        {
            proof {
                lemma_lowest_bit(cur);
            }
            let index = cur.trailing_zeros();
            let ghost old_res = res@;
            res.push(index);
            cur = blsr(cur);
            proof {
                assert(res@.map_values(|v: u32| v as int) =~= old_res.map_values(|v: u32| v as int).push(index as int));
                assert(set_squares(self) =~= res@.map_values(|v: u32| v as int).add(set_squares(cur)));
            }
        }
        proof {
            lemma_squares_from_zero(0);
            assert(set_squares(self) =~= res@.map_values(|v: u32| v as int));
            assert forall|k: int| 0 <= k < res@.len() implies res@[k] == set_squares(self)[k] by {
                assert(res@.map_values(|v: u32| v as int)[k] == res@[k] as int);
            }
        }
        res
    }

    fn iterate_squares(self) -> (r: Vec<i8>)
        ensures
            r@.len() == set_squares(self).len(),
            forall|k: int| 0 <= k < r@.len() ==> r@[k] == set_squares(self)[k],
    {
        let indices = self.iterate_set_bits_indices();
        let mut res: Vec<i8> = Vec::new();
        let mut i: usize = 0;
        proof {
            lemma_squares_from_bound(self, 0);
        }
        while i < indices.len()
            invariant
                i <= indices@.len(),
                indices@.len() == set_squares(self).len(),
                forall|k: int| 0 <= k < indices@.len() ==> indices@[k] == set_squares(self)[k],
                forall|k: int| 0 <= k < set_squares(self).len() ==> 0 <= #[trigger] set_squares(self)[k] < 64,
                res@.len() == i,
                forall|k: int| 0 <= k < i ==> res@[k] == set_squares(self)[k],
            decreases indices@.len() - i,
        {
            let v = indices[i];
            assert(v < 64);
            res.push(v as i8);
            i = i + 1;
        }
        res
    }

    fn lowest_square_index(self) -> (r: u32)
        ensures
            r < 64,
            bit(self, r as int),
            forall|t: int| 0 <= t < r ==> !bit(self, t),
            r == set_squares(self)[0],
    {
        proof {
            lemma_lowest_bit(self);
        }
        self.trailing_zeros()
    }

    fn get_bit(self, square: i8) -> (r: bool) {
        let r = (self & (1u64 << (square as u64))) != 0;
        proof {
            let u = square as u64;
            assert(u < 64 ==> ((self & (1u64 << u)) != 0 <==> (self >> u) & 1u64 == 1u64))
                by (bit_vector);
        }
        r
    }
}


/// Bitboards with the same squares below `n` count as many squares below `n`.
pub proof fn lemma_pop_below_ext(x: u64, y: u64, n: int)
    requires
        0 <= n <= 64,
        forall|t: int| 0 <= t < n ==> #[trigger] bit(x, t) == bit(y, t),
    ensures
        pop_below(x, n) == pop_below(y, n),
    decreases n,
{
    if n > 0 {
        lemma_pop_below_ext(x, y, n - 1);
    }
}

/// Bitboards with no square in common count, together, the squares of both.
pub proof fn lemma_pop_below_disjoint(a: u64, b: u64, n: int)
    requires
        0 <= n <= 64,
        forall|t: int| 0 <= t < n ==> !(#[trigger] bit(a, t) && bit(b, t)),
    ensures
        pop_below(a | b, n) == pop_below(a, n) + pop_below(b, n),
    decreases n,
{
    if n > 0 {
        lemma_pop_below_disjoint(a, b, n - 1);
        lemma_bit_or(a, b, n - 1);
    }
}

/// A single square counts one.
pub proof fn lemma_pop_single(s: int)
    requires
        0 <= s < 64,
    ensures
        pop(1u64 << (s as u64)) == 1,
{
    let b = 1u64 << (s as u64);
    assert forall|t: int| 0 <= t < 64 implies #[trigger] bit(b, t) == (t == s) by {
        lemma_bit_single(s, t);
    }
    assert(bit(b, s));
    lemma_pop_one(b);
}

/// A bitboard is zero exactly when no square is set.
pub proof fn lemma_nonzero(b: u64)
    ensures
        (b != 0) == (exists|t: int| 0 <= t < 64 && #[trigger] bit(b, t)),
{
    if !(exists|t: int| 0 <= t < 64 && #[trigger] bit(b, t)) {
        assert forall|t: int| 0 <= t < 64 implies bit(b, t) == bit(0u64, t) by {
            lemma_bit_zero(t);
        }
        lemma_bits_ext(b, 0u64);
    } else {
        let t = choose|t: int| 0 <= t < 64 && #[trigger] bit(b, t);
        lemma_bit_zero(t);
    }
}


proof fn lemma_squares_from_has(b: u64, i: int, a: int)
    requires
        0 <= i <= a < 64,
        bit(b, a),
    ensures
        squares_from(b, i).contains(a),
    decreases a - i,
{
    if i == a {
        assert(squares_from(b, i)[0] == a);
    } else {
        lemma_squares_from_has(b, i + 1, a);
        let rest = squares_from(b, i + 1);
        let k = choose|k: int| 0 <= k < rest.len() && rest[k] == a;
        if bit(b, i) {
            assert(squares_from(b, i)[k + 1] == a);
        }
    }
}

/// Every set square of a bitboard is in the list of its set squares.
pub proof fn lemma_set_squares_has(b: u64, a: int)
    requires
        0 <= a < 64,
        bit(b, a),
    ensures
        set_squares(b).contains(a),
{
    lemma_squares_from_has(b, 0, a);
}

/// Every square in the list of set squares of a bitboard is set.
pub proof fn lemma_set_squares_are_set(b: u64)
    ensures
        forall|k: int| 0 <= k < set_squares(b).len() ==> 0 <= #[trigger] set_squares(b)[k] < 64 && bit(b, set_squares(b)[k]),
        set_squares(b).len() <= 64,
{
    lemma_squares_from_bound(b, 0);
}

/// The set squares from `i` on number those of the board less those below `i`.
proof fn lemma_squares_from_len(b: u64, i: int)
    requires
        0 <= i <= 64,
    ensures
        squares_from(b, i).len() + pop_below(b, i) == pop(b),
    decreases 64 - i,
{
    if i < 64 {
        lemma_squares_from_len(b, i + 1);
    }
}

/// There are as many set squares as the population count says.
pub proof fn lemma_set_squares_len(b: u64)
    ensures
        set_squares(b).len() == pop(b),
{
    lemma_squares_from_len(b, 0);
}

proof fn lemma_squares_from_short(b: u64, i: int, a: int)
    requires
        0 <= i <= a < 64,
        !bit(b, a),
    ensures
        squares_from(b, i).len() < 64 - i,
    decreases 64 - i,
{
    if i < a {
        lemma_squares_from_short(b, i + 1, a);
    } else {
        lemma_squares_from_bound(b, i + 1);
    }
}

/// A bitboard with a clear square has fewer than 64 set squares.
pub proof fn lemma_set_squares_short(b: u64, a: int)
    requires
        0 <= a < 64,
        !bit(b, a),
    ensures
        set_squares(b).len() < 64,
{
    lemma_squares_from_short(b, 0, a);
}

proof fn lemma_squares_from_first_two(b: u64, i: int)
    requires
        0 <= i <= 64,
        squares_from(b, i).len() >= 2,
    ensures
        squares_from(b, i)[0] < squares_from(b, i)[1],
    decreases 64 - i,
{
    if i < 64 {
        if bit(b, i) {
            lemma_squares_from_bound(b, i + 1);
            assert(squares_from(b, i)[1] == squares_from(b, i + 1)[0]);
        } else {
            lemma_squares_from_first_two(b, i + 1);
        }
    }
}

/// No set square: a population of zero.
pub proof fn lemma_pop_zero(b: u64)
    ensures
        (pop(b) == 0) == (forall|t: int| 0 <= t < 64 ==> !#[trigger] bit(b, t)),
{
    lemma_set_squares_len(b);
    lemma_set_squares_are_set(b);
    if pop(b) == 0 {
        assert forall|t: int| 0 <= t < 64 implies !#[trigger] bit(b, t) by {
            if bit(b, t) {
                lemma_set_squares_has(b, t);
            }
        }
    }
    if pop(b) != 0 {
        assert(bit(b, set_squares(b)[0]));
    }
}

/// Exactly one set square: a population of one.
pub proof fn lemma_pop_one(b: u64)
    ensures
        (pop(b) == 1) == (exists|u: int| 0 <= u < 64 && #[trigger] bit(b, u)
            && forall|v: int| 0 <= v < 64 && #[trigger] bit(b, v) ==> v == u),
{
    lemma_set_squares_len(b);
    lemma_set_squares_are_set(b);
    let sq = set_squares(b);
    if pop(b) == 1 {
        let u = sq[0];
        assert forall|v: int| 0 <= v < 64 && #[trigger] bit(b, v) implies v == u by {
            lemma_set_squares_has(b, v);
        }
        assert(bit(b, u));
    }
    if exists|u: int| 0 <= u < 64 && #[trigger] bit(b, u) && forall|v: int| 0 <= v < 64 && #[trigger] bit(b, v) ==> v == u {
        let u = choose|u: int| 0 <= u < 64 && #[trigger] bit(b, u) && forall|v: int| 0 <= v < 64 && #[trigger] bit(b, v) ==> v == u;
        lemma_set_squares_has(b, u);
        if sq.len() >= 2 {
            lemma_squares_from_first_two(b, 0);
            assert(bit(b, sq[0]) && bit(b, sq[1]));
        }
    }
}

proof fn lemma_squares_from_first_le(b: u64, i: int, j: int)
    requires
        0 <= i <= j < 64,
        bit(b, j),
    ensures
        squares_from(b, i).len() > 0,
        squares_from(b, i)[0] <= j,
    decreases j - i,
{
    if !bit(b, i) {
        lemma_squares_from_first_le(b, i + 1, j);
    }
}

/// The first set square is at or below every set square.
pub proof fn lemma_set_squares_sorted_first(x: u64, j: int)
    requires
        0 <= j < 64,
        bit(x, j),
    ensures
        set_squares(x).len() > 0,
        set_squares(x)[0] <= j,
{
    lemma_squares_from_first_le(x, 0, j);
}

/// Two bitboards with the same squares are the same number.
pub proof fn lemma_bits_ext(a: u64, b: u64)
    requires
        forall|t: int| 0 <= t < 64 ==> bit(a, t) == bit(b, t),
    ensures
        a == b,
{
    lemma_bit_value(a, b, 0);
    lemma_bit_value(a, b, 1);
    lemma_bit_value(a, b, 2);
    lemma_bit_value(a, b, 3);
    lemma_bit_value(a, b, 4);
    lemma_bit_value(a, b, 5);
    lemma_bit_value(a, b, 6);
    lemma_bit_value(a, b, 7);
    lemma_bit_value(a, b, 8);
    lemma_bit_value(a, b, 9);
    lemma_bit_value(a, b, 10);
    lemma_bit_value(a, b, 11);
    lemma_bit_value(a, b, 12);
    lemma_bit_value(a, b, 13);
    lemma_bit_value(a, b, 14);
    lemma_bit_value(a, b, 15);
    lemma_bit_value(a, b, 16);
    lemma_bit_value(a, b, 17);
    lemma_bit_value(a, b, 18);
    lemma_bit_value(a, b, 19);
    lemma_bit_value(a, b, 20);
    lemma_bit_value(a, b, 21);
    lemma_bit_value(a, b, 22);
    lemma_bit_value(a, b, 23);
    lemma_bit_value(a, b, 24);
    lemma_bit_value(a, b, 25);
    lemma_bit_value(a, b, 26);
    lemma_bit_value(a, b, 27);
    lemma_bit_value(a, b, 28);
    lemma_bit_value(a, b, 29);
    lemma_bit_value(a, b, 30);
    lemma_bit_value(a, b, 31);
    lemma_bit_value(a, b, 32);
    lemma_bit_value(a, b, 33);
    lemma_bit_value(a, b, 34);
    lemma_bit_value(a, b, 35);
    lemma_bit_value(a, b, 36);
    lemma_bit_value(a, b, 37);
    lemma_bit_value(a, b, 38);
    lemma_bit_value(a, b, 39);
    lemma_bit_value(a, b, 40);
    lemma_bit_value(a, b, 41);
    lemma_bit_value(a, b, 42);
    lemma_bit_value(a, b, 43);
    lemma_bit_value(a, b, 44);
    lemma_bit_value(a, b, 45);
    lemma_bit_value(a, b, 46);
    lemma_bit_value(a, b, 47);
    lemma_bit_value(a, b, 48);
    lemma_bit_value(a, b, 49);
    lemma_bit_value(a, b, 50);
    lemma_bit_value(a, b, 51);
    lemma_bit_value(a, b, 52);
    lemma_bit_value(a, b, 53);
    lemma_bit_value(a, b, 54);
    lemma_bit_value(a, b, 55);
    lemma_bit_value(a, b, 56);
    lemma_bit_value(a, b, 57);
    lemma_bit_value(a, b, 58);
    lemma_bit_value(a, b, 59);
    lemma_bit_value(a, b, 60);
    lemma_bit_value(a, b, 61);
    lemma_bit_value(a, b, 62);
    lemma_bit_value(a, b, 63);
    assert(a == b) by (bit_vector)
        requires
            (a >> 0u64) & 1u64 == (b >> 0u64) & 1u64,
            (a >> 1u64) & 1u64 == (b >> 1u64) & 1u64,
            (a >> 2u64) & 1u64 == (b >> 2u64) & 1u64,
            (a >> 3u64) & 1u64 == (b >> 3u64) & 1u64,
            (a >> 4u64) & 1u64 == (b >> 4u64) & 1u64,
            (a >> 5u64) & 1u64 == (b >> 5u64) & 1u64,
            (a >> 6u64) & 1u64 == (b >> 6u64) & 1u64,
            (a >> 7u64) & 1u64 == (b >> 7u64) & 1u64,
            (a >> 8u64) & 1u64 == (b >> 8u64) & 1u64,
            (a >> 9u64) & 1u64 == (b >> 9u64) & 1u64,
            (a >> 10u64) & 1u64 == (b >> 10u64) & 1u64,
            (a >> 11u64) & 1u64 == (b >> 11u64) & 1u64,
            (a >> 12u64) & 1u64 == (b >> 12u64) & 1u64,
            (a >> 13u64) & 1u64 == (b >> 13u64) & 1u64,
            (a >> 14u64) & 1u64 == (b >> 14u64) & 1u64,
            (a >> 15u64) & 1u64 == (b >> 15u64) & 1u64,
            (a >> 16u64) & 1u64 == (b >> 16u64) & 1u64,
            (a >> 17u64) & 1u64 == (b >> 17u64) & 1u64,
            (a >> 18u64) & 1u64 == (b >> 18u64) & 1u64,
            (a >> 19u64) & 1u64 == (b >> 19u64) & 1u64,
            (a >> 20u64) & 1u64 == (b >> 20u64) & 1u64,
            (a >> 21u64) & 1u64 == (b >> 21u64) & 1u64,
            (a >> 22u64) & 1u64 == (b >> 22u64) & 1u64,
            (a >> 23u64) & 1u64 == (b >> 23u64) & 1u64,
            (a >> 24u64) & 1u64 == (b >> 24u64) & 1u64,
            (a >> 25u64) & 1u64 == (b >> 25u64) & 1u64,
            (a >> 26u64) & 1u64 == (b >> 26u64) & 1u64,
            (a >> 27u64) & 1u64 == (b >> 27u64) & 1u64,
            (a >> 28u64) & 1u64 == (b >> 28u64) & 1u64,
            (a >> 29u64) & 1u64 == (b >> 29u64) & 1u64,
            (a >> 30u64) & 1u64 == (b >> 30u64) & 1u64,
            (a >> 31u64) & 1u64 == (b >> 31u64) & 1u64,
            (a >> 32u64) & 1u64 == (b >> 32u64) & 1u64,
            (a >> 33u64) & 1u64 == (b >> 33u64) & 1u64,
            (a >> 34u64) & 1u64 == (b >> 34u64) & 1u64,
            (a >> 35u64) & 1u64 == (b >> 35u64) & 1u64,
            (a >> 36u64) & 1u64 == (b >> 36u64) & 1u64,
            (a >> 37u64) & 1u64 == (b >> 37u64) & 1u64,
            (a >> 38u64) & 1u64 == (b >> 38u64) & 1u64,
            (a >> 39u64) & 1u64 == (b >> 39u64) & 1u64,
            (a >> 40u64) & 1u64 == (b >> 40u64) & 1u64,
            (a >> 41u64) & 1u64 == (b >> 41u64) & 1u64,
            (a >> 42u64) & 1u64 == (b >> 42u64) & 1u64,
            (a >> 43u64) & 1u64 == (b >> 43u64) & 1u64,
            (a >> 44u64) & 1u64 == (b >> 44u64) & 1u64,
            (a >> 45u64) & 1u64 == (b >> 45u64) & 1u64,
            (a >> 46u64) & 1u64 == (b >> 46u64) & 1u64,
            (a >> 47u64) & 1u64 == (b >> 47u64) & 1u64,
            (a >> 48u64) & 1u64 == (b >> 48u64) & 1u64,
            (a >> 49u64) & 1u64 == (b >> 49u64) & 1u64,
            (a >> 50u64) & 1u64 == (b >> 50u64) & 1u64,
            (a >> 51u64) & 1u64 == (b >> 51u64) & 1u64,
            (a >> 52u64) & 1u64 == (b >> 52u64) & 1u64,
            (a >> 53u64) & 1u64 == (b >> 53u64) & 1u64,
            (a >> 54u64) & 1u64 == (b >> 54u64) & 1u64,
            (a >> 55u64) & 1u64 == (b >> 55u64) & 1u64,
            (a >> 56u64) & 1u64 == (b >> 56u64) & 1u64,
            (a >> 57u64) & 1u64 == (b >> 57u64) & 1u64,
            (a >> 58u64) & 1u64 == (b >> 58u64) & 1u64,
            (a >> 59u64) & 1u64 == (b >> 59u64) & 1u64,
            (a >> 60u64) & 1u64 == (b >> 60u64) & 1u64,
            (a >> 61u64) & 1u64 == (b >> 61u64) & 1u64,
            (a >> 62u64) & 1u64 == (b >> 62u64) & 1u64,
            (a >> 63u64) & 1u64 == (b >> 63u64) & 1u64;
}

/// The bitboard whose squares are those where `p` holds.
pub open spec fn mask_of(p: spec_fn(int) -> bool) -> u64 {
    choose|m: u64| #[trigger] has_squares(m, p)
}

/// Bitboard `m` has exactly the squares where `p` holds.
pub open spec fn has_squares(m: u64, p: spec_fn(int) -> bool) -> bool {
    forall|t: int| 0 <= t < 64 ==> #[trigger] bit(m, t) == p(t)
}

/// A bitboard with the squares of `p` is `mask_of(p)`.
pub proof fn lemma_mask_of(p: spec_fn(int) -> bool, r: u64)
    requires
        forall|t: int| 0 <= t < 64 ==> #[trigger] bit(r, t) == p(t),
    ensures
        mask_of(p) == r,
{
    assert(has_squares(r, p));
    let m = mask_of(p);
    assert(has_squares(m, p));
    assert forall|t: int| 0 <= t < 64 implies bit(m, t) == bit(r, t) by {
        assert(bit(m, t) == p(t));
        assert(bit(r, t) == p(t));
    }
    lemma_bits_ext(m, r);
}

/// The bitboard of the squares below `n` where `p` holds, built square by square.
pub open spec fn bits_below(p: spec_fn(int) -> bool, n: nat) -> u64
    decreases n,
{
    if n == 0 {
        0
    } else {
        bits_below(p, (n - 1) as nat) | (if p(n - 1) { 1u64 << ((n - 1) as u64) } else { 0 })
    }
}

proof fn lemma_bits_below(p: spec_fn(int) -> bool, n: nat, t: int)
    requires
        n <= 64,
        0 <= t < 64,
    ensures
        bit(bits_below(p, n), t) == (t < n && p(t)),
    decreases n,
{
    if n == 0 {
        lemma_bit_zero(t);
    } else {
        lemma_bits_below(p, (n - 1) as nat, t);
        let one: u64 = if p(n - 1) { 1u64 << ((n - 1) as u64) } else { 0 };
        lemma_bit_or(bits_below(p, (n - 1) as nat), one, t);
        lemma_bit_zero(t);
        lemma_bit_single(n - 1, t);
    }
}

/// Every set of squares is the set of some bitboard.
pub proof fn lemma_mask_of_exists(p: spec_fn(int) -> bool)
    ensures
        has_squares(mask_of(p), p),
{
    let w = bits_below(p, 64);
    assert forall|t: int| 0 <= t < 64 implies #[trigger] bit(w, t) == p(t) by {
        lemma_bits_below(p, 64, t);
    }
    assert(has_squares(w, p));
}

/// One rank of a bitboard's picture: a filled or empty box and a space per file, then a line
/// break.
pub open spec fn picture_rank(b: u64, rank: int) -> Seq<char> {
    Seq::new(16, |i: int| if i % 2 == 1 { ' ' } else if bit(b, 8 * rank + i / 2) { '■' } else { '□' }) + seq!['\n']
}

/// The top `n` ranks of a bitboard's picture, from rank 8 down.
pub open spec fn picture_ranks(b: u64, n: int) -> Seq<char>
    decreases n,
{
    if n <= 0 {
        Seq::empty()
    } else {
        picture_ranks(b, n - 1) + picture_rank(b, 8 - n)
    }
}

/// A picture of the bitboard `b`, rank 8 on top: a filled box for each set square.
pub fn bit_picture(b: u64) -> (r: String)
    ensures
        r@ == picture_ranks(b, 8),
{
    let mut s = String::new();
    let mut rank: i8 = 7;
    while rank >= 0
        invariant
            -1 <= rank <= 7,
            s@ == picture_ranks(b, 7 - rank),
        decreases rank + 1,
    {
        let ghost head = s@;
        let mut file: i8 = 0;
        while file < 8
            invariant
                0 <= rank <= 7,
                0 <= file <= 8,
                s@ == head + picture_rank(b, rank as int).take(2 * file),
            decreases 8 - file,
        {
            let square = crate::board::square::from_file_rank(file, rank);
            if b.get_bit(square) {
                push_char(&mut s, '■');
            } else {
                push_char(&mut s, '□');
            }
            push_char(&mut s, ' ');
            file = file + 1;
            assert(s@ =~= head + picture_rank(b, rank as int).take(2 * file));
        }
        push_char(&mut s, '\n');
        assert(s@ =~= head + picture_rank(b, rank as int));
        rank = rank - 1;
    }
    s
}

} // verus!
