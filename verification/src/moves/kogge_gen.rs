use vstd::prelude::*;
use crate::board::bit_array::{bit, translated_bit, lemma_bit_shl, lemma_bit_shr, lemma_bit_and, lemma_bit_or};
use crate::board::square::{file_of, rank_of, valid_square};

verus! {

/// Squares not on the a-file: where a piece moving towards the h-file may arrive.
pub const RIGHT_MOVE_MASK: u64 = 0xfefe_fefe_fefe_fefe;

/// Squares not on the h-file: where a piece moving towards the a-file may arrive.
pub const LEFT_MOVE_MASK: u64 = 0x7f7f_7f7f_7f7f_7f7f;

/// The eight directions in which a slider moves.
#[derive(Clone, Copy, PartialEq, Eq, Structural, Debug)]
pub enum Direction {
    Up,
    Down,
    Right,
    UpRight,
    DownRight,
    Left,
    UpLeft,
    DownLeft,
}


/// Files moved by one step in direction `d`.
pub open spec fn dir_dx(d: Direction) -> int {
    match d {
        Direction::Up | Direction::Down => 0,
        Direction::Right | Direction::UpRight | Direction::DownRight => 1,
        Direction::Left | Direction::UpLeft | Direction::DownLeft => -1,
    }
}

/// Ranks moved by one step in direction `d`.
pub open spec fn dir_dy(d: Direction) -> int {
    match d {
        Direction::Right | Direction::Left => 0,
        Direction::Up | Direction::UpRight | Direction::UpLeft => 1,
        Direction::Down | Direction::DownRight | Direction::DownLeft => -1,
    }
}

/// The file reached from square `s` after `k` steps in direction `d`.
pub open spec fn ray_file(s: int, d: Direction, k: int) -> int {
    match d {
        Direction::Up | Direction::Down => file_of(s),
        Direction::Right | Direction::UpRight | Direction::DownRight => file_of(s) + k,
        Direction::Left | Direction::UpLeft | Direction::DownLeft => file_of(s) - k,
    }
}

/// The rank reached from square `s` after `k` steps in direction `d`.
pub open spec fn ray_rank(s: int, d: Direction, k: int) -> int {
    match d {
        Direction::Right | Direction::Left => rank_of(s),
        Direction::Up | Direction::UpRight | Direction::UpLeft => rank_of(s) + k,
        Direction::Down | Direction::DownRight | Direction::DownLeft => rank_of(s) - k,
    }
}

/// `k` steps from `s` in direction `d` stay on the board.
pub open spec fn ray_ok(s: int, d: Direction, k: int) -> bool {
    valid_square(s) && 0 <= ray_file(s, d, k) < 8 && 0 <= ray_rank(s, d, k) < 8
}

/// The square `k` steps from `s` in direction `d`.
pub open spec fn ray_sq(s: int, d: Direction, k: int) -> int {
    ray_file(s, d, k) + 8 * ray_rank(s, d, k)
}

/// Square `t` is reached from `s` in direction `d` after at least one step, and no square of
/// `blocked` stands strictly between them.
pub open spec fn slider_reaches(s: int, d: Direction, t: int, blocked: u64) -> bool {
    exists|k: int| #![trigger ray_sq(s, d, k)] 1 <= k && ray_ok(s, d, k) && t == ray_sq(s, d, k)
        && forall|j: int| 1 <= j < k ==> !#[trigger] bit(blocked, ray_sq(s, d, j))
}

/// Moving one step in direction `d` is the translation by that direction.
pub proof fn lemma_one_step_bit(g: u64, d: Direction, t: int)
    requires
        0 <= t < 64,
    ensures
        bit(one_step(g, d), t) == translated_bit(g, dir_dx(d), dir_dy(d), t),
{
    let rm: u64 = 0xfefe_fefe_fefe_fefe;
    let lm: u64 = 0x7f7f_7f7f_7f7f_7f7f;
    let u = t as u64;
    assert(u < 64 ==> ((0xfefe_fefe_fefe_fefeu64 >> u) & 1u64 == 1u64 <==> u % 8 != 0)
        && ((0x7f7f_7f7f_7f7f_7f7fu64 >> u) & 1u64 == 1u64 <==> u % 8 != 7)) by (bit_vector);
    match d {
        Direction::Up => {
            lemma_bit_shl(g, 8, t);
        },
        Direction::Down => {
            lemma_bit_shr(g, 8, t);
        },
        Direction::Right => {
            lemma_bit_shl(g, 1, t);
            lemma_bit_and(g << 1u64, rm, t);
        },
        Direction::UpRight => {
            lemma_bit_shl(g, 9, t);
            lemma_bit_and(g << 9u64, rm, t);
        },
        Direction::DownRight => {
            lemma_bit_shr(g, 7, t);
            lemma_bit_and(g >> 7u64, rm, t);
        },
        Direction::Left => {
            lemma_bit_shr(g, 1, t);
            lemma_bit_and(g >> 1u64, lm, t);
        },
        Direction::UpLeft => {
            lemma_bit_shl(g, 7, t);
            lemma_bit_and(g << 7u64, lm, t);
        },
        Direction::DownLeft => {
            lemma_bit_shr(g, 9, t);
            lemma_bit_and(g >> 9u64, lm, t);
        },
    }
}

/// Every square of `g` moved one square in direction `d` (squares that would leave the board
/// are dropped).
pub open spec fn one_step(g: u64, d: Direction) -> u64 {
    match d {
        Direction::Up => g << 8u64,
        Direction::Down => g >> 8u64,
        Direction::Right => (g << 1u64) & 0xfefe_fefe_fefe_fefeu64,
        Direction::UpRight => (g << 9u64) & 0xfefe_fefe_fefe_fefeu64,
        Direction::DownRight => (g >> 7u64) & 0xfefe_fefe_fefe_fefeu64,
        Direction::Left => (g >> 1u64) & 0x7f7f_7f7f_7f7f_7f7fu64,
        Direction::UpLeft => (g << 7u64) & 0x7f7f_7f7f_7f7f_7f7fu64,
        Direction::DownLeft => (g >> 9u64) & 0x7f7f_7f7f_7f7f_7f7fu64,
    }
}

/// The occluded fill in direction `d`: the squares of `gen`, and those reached from them by
/// going one square at a time in direction `d` through squares of `free` (a board is at most
/// seven steps wide).
pub open spec fn occluded_fill(gen: u64, free: u64, d: Direction) -> u64 {
    let g1 = gen | (free & one_step(gen, d));
    let g2 = g1 | (free & one_step(g1, d));
    let g3 = g2 | (free & one_step(g2, d));
    let g4 = g3 | (free & one_step(g3, d));
    let g5 = g4 | (free & one_step(g4, d));
    let g6 = g5 | (free & one_step(g5, d));
    g6 | (free & one_step(g6, d))
}

/// The squares of `free` where a piece moving in direction `d` may arrive.
pub open spec fn arrival_free(free: u64, d: Direction) -> u64 {
    match d {
        Direction::Up | Direction::Down => free,
        Direction::Right | Direction::UpRight | Direction::DownRight => free & 0xfefe_fefe_fefe_fefeu64,
        Direction::Left | Direction::UpLeft | Direction::DownLeft => free & 0x7f7f_7f7f_7f7f_7f7fu64,
    }
}

/// The squares of `free` that come after three more squares of `free` in direction `d`, all
/// four places where a piece moving in direction `d` may arrive.
pub open spec fn free_run(free: u64, d: Direction) -> u64 {
    let m = arrival_free(free, d);
    let f1 = m & one_step(m, d);
    f1 & one_step(f1, d) & one_step(one_step(f1, d), d)
}

/// A capturing fill: the occluded fill moved one more square, so that it takes in the first
/// square that is not free, together with the filled squares that end a run of four free ones.
pub open spec fn capture_fill(gen: u64, free: u64, d: Direction) -> u64 {
    (occluded_fill(gen, free, d) & free_run(free, d)) | one_step(occluded_fill(gen, free, d), d)
}

/// The occluded fill up the board (towards rank 8): Kogge-Stone in three doubling steps.
pub fn fill_up(gen: u64, free: u64) -> (r: u64)
    ensures
        r == occluded_fill(gen, free, Direction::Up),
{
    let ghost gen_in = gen;
    let ghost free_in = free;
    let mut gen = gen;
    let mut free = free;
    gen = gen | (free & (gen << 8u64));
    free = free & (free << 8u64);
    gen = gen | (free & (gen << 16u64));
    free = free & (free << 16u64);
    gen = gen | (free & (gen << 32u64));
    proof {
        let f0 = free_in;
        let a1 = gen_in | (f0 & (gen_in << 8u64));
        let b1 = f0 & (f0 << 8u64);
        let a2 = a1 | (b1 & (a1 << 16u64));
        let b2 = b1 & (b1 << 16u64);
        let a3 = a2 | (b2 & (a2 << 32u64));
        assert(a3 == occluded_fill(gen_in, free_in, Direction::Up)) by (bit_vector)
            requires
                f0 == free_in,
                a1 == gen_in | (f0 & (gen_in << 8u64)),
                b1 == f0 & (f0 << 8u64),
                a2 == a1 | (b1 & (a1 << 16u64)),
                b2 == b1 & (b1 << 16u64),
                a3 == a2 | (b2 & (a2 << 32u64)),
        ;
    }
    gen
}

/// The capturing fill up the board (towards rank 8) (see `capture_fill`).
pub fn fill_up_cap(gen: u64, free: u64) -> (r: u64)
    ensures
        r == capture_fill(gen, free, Direction::Up),
{
    let ghost gen_in = gen;
    let ghost free_in = free;
    let mut gen = gen;
    let mut free = free;
    gen = gen | (free & (gen << 8u64));
    free = free & (free << 8u64);
    gen = gen | (free & (gen << 16u64));
    free = free & (free << 16u64);
    gen = gen | (free & (gen << 32u64));
    proof {
        let f0 = free_in;
        let a1 = gen_in | (f0 & (gen_in << 8u64));
        let b1 = f0 & (f0 << 8u64);
        let a2 = a1 | (b1 & (a1 << 16u64));
        let b2 = b1 & (b1 << 16u64);
        let a3 = a2 | (b2 & (a2 << 32u64));
        assert((a3 & b2) | (a3 << 8u64) == capture_fill(gen_in, free_in, Direction::Up)) by (bit_vector)
            requires
                f0 == free_in,
                a1 == gen_in | (f0 & (gen_in << 8u64)),
                b1 == f0 & (f0 << 8u64),
                a2 == a1 | (b1 & (a1 << 16u64)),
                b2 == b1 & (b1 << 16u64),
                a3 == a2 | (b2 & (a2 << 32u64)),
        ;
    }
    (gen & free) | (gen << 8u64)
}

/// The occluded fill down the board (towards rank 1): Kogge-Stone in three doubling steps.
pub fn fill_down(gen: u64, free: u64) -> (r: u64)
    ensures
        r == occluded_fill(gen, free, Direction::Down),
{
    let ghost gen_in = gen;
    let ghost free_in = free;
    let mut gen = gen;
    let mut free = free;
    gen = gen | (free & (gen >> 8u64));
    free = free & (free >> 8u64);
    gen = gen | (free & (gen >> 16u64));
    free = free & (free >> 16u64);
    gen = gen | (free & (gen >> 32u64));
    proof {
        let f0 = free_in;
        let a1 = gen_in | (f0 & (gen_in >> 8u64));
        let b1 = f0 & (f0 >> 8u64);
        let a2 = a1 | (b1 & (a1 >> 16u64));
        let b2 = b1 & (b1 >> 16u64);
        let a3 = a2 | (b2 & (a2 >> 32u64));
        assert(a3 == occluded_fill(gen_in, free_in, Direction::Down)) by (bit_vector)
            requires
                f0 == free_in,
                a1 == gen_in | (f0 & (gen_in >> 8u64)),
                b1 == f0 & (f0 >> 8u64),
                a2 == a1 | (b1 & (a1 >> 16u64)),
                b2 == b1 & (b1 >> 16u64),
                a3 == a2 | (b2 & (a2 >> 32u64)),
        ;
    }
    gen
}

/// The capturing fill down the board (towards rank 1) (see `capture_fill`).
pub fn fill_down_cap(gen: u64, free: u64) -> (r: u64)
    ensures
        r == capture_fill(gen, free, Direction::Down),
{
    let ghost gen_in = gen;
    let ghost free_in = free;
    let mut gen = gen;
    let mut free = free;
    gen = gen | (free & (gen >> 8u64));
    free = free & (free >> 8u64);
    gen = gen | (free & (gen >> 16u64));
    free = free & (free >> 16u64);
    gen = gen | (free & (gen >> 32u64));
    proof {
        let f0 = free_in;
        let a1 = gen_in | (f0 & (gen_in >> 8u64));
        let b1 = f0 & (f0 >> 8u64);
        let a2 = a1 | (b1 & (a1 >> 16u64));
        let b2 = b1 & (b1 >> 16u64);
        let a3 = a2 | (b2 & (a2 >> 32u64));
        assert((a3 & b2) | (a3 >> 8u64) == capture_fill(gen_in, free_in, Direction::Down)) by (bit_vector)
            requires
                f0 == free_in,
                a1 == gen_in | (f0 & (gen_in >> 8u64)),
                b1 == f0 & (f0 >> 8u64),
                a2 == a1 | (b1 & (a1 >> 16u64)),
                b2 == b1 & (b1 >> 16u64),
                a3 == a2 | (b2 & (a2 >> 32u64)),
        ;
    }
    (gen & free) | (gen >> 8u64)
}

/// The occluded fill towards the h-file: Kogge-Stone in three doubling steps.
pub fn fill_right(gen: u64, free: u64) -> (r: u64)
    ensures
        r == occluded_fill(gen, free, Direction::Right),
{
    let ghost gen_in = gen;
    let ghost free_in = free;
    let mut gen = gen;
    let mut free = free;
    free = free & RIGHT_MOVE_MASK;
    gen = gen | (free & (gen << 1u64));
    free = free & (free << 1u64);
    gen = gen | (free & (gen << 2u64));
    free = free & (free << 2u64);
    gen = gen | (free & (gen << 4u64));
    proof {
        let f0 = free_in & 0xfefe_fefe_fefe_fefeu64;
        let a1 = gen_in | (f0 & (gen_in << 1u64));
        let b1 = f0 & (f0 << 1u64);
        let a2 = a1 | (b1 & (a1 << 2u64));
        let b2 = b1 & (b1 << 2u64);
        let a3 = a2 | (b2 & (a2 << 4u64));
        assert(a3 == occluded_fill(gen_in, free_in, Direction::Right)) by (bit_vector)
            requires
                f0 == free_in & 0xfefe_fefe_fefe_fefeu64,
                a1 == gen_in | (f0 & (gen_in << 1u64)),
                b1 == f0 & (f0 << 1u64),
                a2 == a1 | (b1 & (a1 << 2u64)),
                b2 == b1 & (b1 << 2u64),
                a3 == a2 | (b2 & (a2 << 4u64)),
        ;
    }
    gen
}

/// The capturing fill towards the h-file (see `capture_fill`).
pub fn fill_right_cap(gen: u64, free: u64) -> (r: u64)
    ensures
        r == capture_fill(gen, free, Direction::Right),
{
    let ghost gen_in = gen;
    let ghost free_in = free;
    let mut gen = gen;
    let mut free = free;
    free = free & RIGHT_MOVE_MASK;
    gen = gen | (free & (gen << 1u64));
    free = free & (free << 1u64);
    gen = gen | (free & (gen << 2u64));
    free = free & (free << 2u64);
    gen = gen | (free & (gen << 4u64));
    proof {
        let f0 = free_in & 0xfefe_fefe_fefe_fefeu64;
        let a1 = gen_in | (f0 & (gen_in << 1u64));
        let b1 = f0 & (f0 << 1u64);
        let a2 = a1 | (b1 & (a1 << 2u64));
        let b2 = b1 & (b1 << 2u64);
        let a3 = a2 | (b2 & (a2 << 4u64));
        assert((a3 & b2) | ((a3 << 1u64) & 0xfefe_fefe_fefe_fefeu64) == capture_fill(gen_in, free_in, Direction::Right)) by (bit_vector)
            requires
                f0 == free_in & 0xfefe_fefe_fefe_fefeu64,
                a1 == gen_in | (f0 & (gen_in << 1u64)),
                b1 == f0 & (f0 << 1u64),
                a2 == a1 | (b1 & (a1 << 2u64)),
                b2 == b1 & (b1 << 2u64),
                a3 == a2 | (b2 & (a2 << 4u64)),
        ;
    }
    (gen & free) | ((gen << 1u64) & RIGHT_MOVE_MASK)
}

/// The occluded fill up and towards the h-file: Kogge-Stone in three doubling steps.
pub fn fill_up_right(gen: u64, free: u64) -> (r: u64)
    ensures
        r == occluded_fill(gen, free, Direction::UpRight),
{
    let ghost gen_in = gen;
    let ghost free_in = free;
    let mut gen = gen;
    let mut free = free;
    free = free & RIGHT_MOVE_MASK;
    gen = gen | (free & (gen << 9u64));
    free = free & (free << 9u64);
    gen = gen | (free & (gen << 18u64));
    free = free & (free << 18u64);
    gen = gen | (free & (gen << 36u64));
    proof {
        let f0 = free_in & 0xfefe_fefe_fefe_fefeu64;
        let a1 = gen_in | (f0 & (gen_in << 9u64));
        let b1 = f0 & (f0 << 9u64);
        let a2 = a1 | (b1 & (a1 << 18u64));
        let b2 = b1 & (b1 << 18u64);
        let a3 = a2 | (b2 & (a2 << 36u64));
        assert(a3 == occluded_fill(gen_in, free_in, Direction::UpRight)) by (bit_vector)
            requires
                f0 == free_in & 0xfefe_fefe_fefe_fefeu64,
                a1 == gen_in | (f0 & (gen_in << 9u64)),
                b1 == f0 & (f0 << 9u64),
                a2 == a1 | (b1 & (a1 << 18u64)),
                b2 == b1 & (b1 << 18u64),
                a3 == a2 | (b2 & (a2 << 36u64)),
        ;
    }
    gen
}

/// The capturing fill up and towards the h-file (see `capture_fill`).
pub fn fill_up_right_cap(gen: u64, free: u64) -> (r: u64)
    ensures
        r == capture_fill(gen, free, Direction::UpRight),
{
    let ghost gen_in = gen;
    let ghost free_in = free;
    let mut gen = gen;
    let mut free = free;
    free = free & RIGHT_MOVE_MASK;
    gen = gen | (free & (gen << 9u64));
    free = free & (free << 9u64);
    gen = gen | (free & (gen << 18u64));
    free = free & (free << 18u64);
    gen = gen | (free & (gen << 36u64));
    proof {
        let f0 = free_in & 0xfefe_fefe_fefe_fefeu64;
        let a1 = gen_in | (f0 & (gen_in << 9u64));
        let b1 = f0 & (f0 << 9u64);
        let a2 = a1 | (b1 & (a1 << 18u64));
        let b2 = b1 & (b1 << 18u64);
        let a3 = a2 | (b2 & (a2 << 36u64));
        assert((a3 & b2) | ((a3 << 9u64) & 0xfefe_fefe_fefe_fefeu64) == capture_fill(gen_in, free_in, Direction::UpRight)) by (bit_vector)
            requires
                f0 == free_in & 0xfefe_fefe_fefe_fefeu64,
                a1 == gen_in | (f0 & (gen_in << 9u64)),
                b1 == f0 & (f0 << 9u64),
                a2 == a1 | (b1 & (a1 << 18u64)),
                b2 == b1 & (b1 << 18u64),
                a3 == a2 | (b2 & (a2 << 36u64)),
        ;
    }
    (gen & free) | ((gen << 9u64) & RIGHT_MOVE_MASK)
}

/// The occluded fill down and towards the h-file: Kogge-Stone in three doubling steps.
pub fn fill_down_right(gen: u64, free: u64) -> (r: u64)
    ensures
        r == occluded_fill(gen, free, Direction::DownRight),
{
    let ghost gen_in = gen;
    let ghost free_in = free;
    let mut gen = gen;
    let mut free = free;
    free = free & RIGHT_MOVE_MASK;
    gen = gen | (free & (gen >> 7u64));
    free = free & (free >> 7u64);
    gen = gen | (free & (gen >> 14u64));
    free = free & (free >> 14u64);
    gen = gen | (free & (gen >> 28u64));
    proof {
        let f0 = free_in & 0xfefe_fefe_fefe_fefeu64;
        let a1 = gen_in | (f0 & (gen_in >> 7u64));
        let b1 = f0 & (f0 >> 7u64);
        let a2 = a1 | (b1 & (a1 >> 14u64));
        let b2 = b1 & (b1 >> 14u64);
        let a3 = a2 | (b2 & (a2 >> 28u64));
        assert(a3 == occluded_fill(gen_in, free_in, Direction::DownRight)) by (bit_vector)
            requires
                f0 == free_in & 0xfefe_fefe_fefe_fefeu64,
                a1 == gen_in | (f0 & (gen_in >> 7u64)),
                b1 == f0 & (f0 >> 7u64),
                a2 == a1 | (b1 & (a1 >> 14u64)),
                b2 == b1 & (b1 >> 14u64),
                a3 == a2 | (b2 & (a2 >> 28u64)),
        ;
    }
    gen
}

/// The capturing fill down and towards the h-file (see `capture_fill`).
pub fn fill_down_right_cap(gen: u64, free: u64) -> (r: u64)
    ensures
        r == capture_fill(gen, free, Direction::DownRight),
{
    let ghost gen_in = gen;
    let ghost free_in = free;
    let mut gen = gen;
    let mut free = free;
    free = free & RIGHT_MOVE_MASK;
    gen = gen | (free & (gen >> 7u64));
    free = free & (free >> 7u64);
    gen = gen | (free & (gen >> 14u64));
    free = free & (free >> 14u64);
    gen = gen | (free & (gen >> 28u64));
    proof {
        let f0 = free_in & 0xfefe_fefe_fefe_fefeu64;
        let a1 = gen_in | (f0 & (gen_in >> 7u64));
        let b1 = f0 & (f0 >> 7u64);
        let a2 = a1 | (b1 & (a1 >> 14u64));
        let b2 = b1 & (b1 >> 14u64);
        let a3 = a2 | (b2 & (a2 >> 28u64));
        assert((a3 & b2) | ((a3 >> 7u64) & 0xfefe_fefe_fefe_fefeu64) == capture_fill(gen_in, free_in, Direction::DownRight)) by (bit_vector)
            requires
                f0 == free_in & 0xfefe_fefe_fefe_fefeu64,
                a1 == gen_in | (f0 & (gen_in >> 7u64)),
                b1 == f0 & (f0 >> 7u64),
                a2 == a1 | (b1 & (a1 >> 14u64)),
                b2 == b1 & (b1 >> 14u64),
                a3 == a2 | (b2 & (a2 >> 28u64)),
        ;
    }
    (gen & free) | ((gen >> 7u64) & RIGHT_MOVE_MASK)
}

/// The occluded fill towards the a-file: Kogge-Stone in three doubling steps.
pub fn fill_left(gen: u64, free: u64) -> (r: u64)
    ensures
        r == occluded_fill(gen, free, Direction::Left),
{
    let ghost gen_in = gen;
    let ghost free_in = free;
    let mut gen = gen;
    let mut free = free;
    free = free & LEFT_MOVE_MASK;
    gen = gen | (free & (gen >> 1u64));
    free = free & (free >> 1u64);
    gen = gen | (free & (gen >> 2u64));
    free = free & (free >> 2u64);
    gen = gen | (free & (gen >> 4u64));
    proof {
        let f0 = free_in & 0x7f7f_7f7f_7f7f_7f7fu64;
        let a1 = gen_in | (f0 & (gen_in >> 1u64));
        let b1 = f0 & (f0 >> 1u64);
        let a2 = a1 | (b1 & (a1 >> 2u64));
        let b2 = b1 & (b1 >> 2u64);
        let a3 = a2 | (b2 & (a2 >> 4u64));
        assert(a3 == occluded_fill(gen_in, free_in, Direction::Left)) by (bit_vector)
            requires
                f0 == free_in & 0x7f7f_7f7f_7f7f_7f7fu64,
                a1 == gen_in | (f0 & (gen_in >> 1u64)),
                b1 == f0 & (f0 >> 1u64),
                a2 == a1 | (b1 & (a1 >> 2u64)),
                b2 == b1 & (b1 >> 2u64),
                a3 == a2 | (b2 & (a2 >> 4u64)),
        ;
    }
    gen
}

/// The capturing fill towards the a-file (see `capture_fill`).
pub fn fill_left_cap(gen: u64, free: u64) -> (r: u64)
    ensures
        r == capture_fill(gen, free, Direction::Left),
{
    let ghost gen_in = gen;
    let ghost free_in = free;
    let mut gen = gen;
    let mut free = free;
    free = free & LEFT_MOVE_MASK;
    gen = gen | (free & (gen >> 1u64));
    free = free & (free >> 1u64);
    gen = gen | (free & (gen >> 2u64));
    free = free & (free >> 2u64);
    gen = gen | (free & (gen >> 4u64));
    proof {
        let f0 = free_in & 0x7f7f_7f7f_7f7f_7f7fu64;
        let a1 = gen_in | (f0 & (gen_in >> 1u64));
        let b1 = f0 & (f0 >> 1u64);
        let a2 = a1 | (b1 & (a1 >> 2u64));
        let b2 = b1 & (b1 >> 2u64);
        let a3 = a2 | (b2 & (a2 >> 4u64));
        assert((a3 & b2) | ((a3 >> 1u64) & 0x7f7f_7f7f_7f7f_7f7fu64) == capture_fill(gen_in, free_in, Direction::Left)) by (bit_vector)
            requires
                f0 == free_in & 0x7f7f_7f7f_7f7f_7f7fu64,
                a1 == gen_in | (f0 & (gen_in >> 1u64)),
                b1 == f0 & (f0 >> 1u64),
                a2 == a1 | (b1 & (a1 >> 2u64)),
                b2 == b1 & (b1 >> 2u64),
                a3 == a2 | (b2 & (a2 >> 4u64)),
        ;
    }
    (gen & free) | ((gen >> 1u64) & LEFT_MOVE_MASK)
}

/// The occluded fill up and towards the a-file: Kogge-Stone in three doubling steps.
pub fn fill_up_left(gen: u64, free: u64) -> (r: u64)
    ensures
        r == occluded_fill(gen, free, Direction::UpLeft),
{
    let ghost gen_in = gen;
    let ghost free_in = free;
    let mut gen = gen;
    let mut free = free;
    free = free & LEFT_MOVE_MASK;
    gen = gen | (free & (gen << 7u64));
    free = free & (free << 7u64);
    gen = gen | (free & (gen << 14u64));
    free = free & (free << 14u64);
    gen = gen | (free & (gen << 28u64));
    proof {
        let f0 = free_in & 0x7f7f_7f7f_7f7f_7f7fu64;
        let a1 = gen_in | (f0 & (gen_in << 7u64));
        let b1 = f0 & (f0 << 7u64);
        let a2 = a1 | (b1 & (a1 << 14u64));
        let b2 = b1 & (b1 << 14u64);
        let a3 = a2 | (b2 & (a2 << 28u64));
        assert(a3 == occluded_fill(gen_in, free_in, Direction::UpLeft)) by (bit_vector)
            requires
                f0 == free_in & 0x7f7f_7f7f_7f7f_7f7fu64,
                a1 == gen_in | (f0 & (gen_in << 7u64)),
                b1 == f0 & (f0 << 7u64),
                a2 == a1 | (b1 & (a1 << 14u64)),
                b2 == b1 & (b1 << 14u64),
                a3 == a2 | (b2 & (a2 << 28u64)),
        ;
    }
    gen
}

/// The capturing fill up and towards the a-file (see `capture_fill`).
pub fn fill_up_left_cap(gen: u64, free: u64) -> (r: u64)
    ensures
        r == capture_fill(gen, free, Direction::UpLeft),
{
    let ghost gen_in = gen;
    let ghost free_in = free;
    let mut gen = gen;
    let mut free = free;
    free = free & LEFT_MOVE_MASK;
    gen = gen | (free & (gen << 7u64));
    free = free & (free << 7u64);
    gen = gen | (free & (gen << 14u64));
    free = free & (free << 14u64);
    gen = gen | (free & (gen << 28u64));
    proof {
        let f0 = free_in & 0x7f7f_7f7f_7f7f_7f7fu64;
        let a1 = gen_in | (f0 & (gen_in << 7u64));
        let b1 = f0 & (f0 << 7u64);
        let a2 = a1 | (b1 & (a1 << 14u64));
        let b2 = b1 & (b1 << 14u64);
        let a3 = a2 | (b2 & (a2 << 28u64));
        assert((a3 & b2) | ((a3 << 7u64) & 0x7f7f_7f7f_7f7f_7f7fu64) == capture_fill(gen_in, free_in, Direction::UpLeft)) by (bit_vector)
            requires
                f0 == free_in & 0x7f7f_7f7f_7f7f_7f7fu64,
                a1 == gen_in | (f0 & (gen_in << 7u64)),
                b1 == f0 & (f0 << 7u64),
                a2 == a1 | (b1 & (a1 << 14u64)),
                b2 == b1 & (b1 << 14u64),
                a3 == a2 | (b2 & (a2 << 28u64)),
        ;
    }
    (gen & free) | ((gen << 7u64) & LEFT_MOVE_MASK)
}

/// The occluded fill down and towards the a-file: Kogge-Stone in three doubling steps.
pub fn fill_down_left(gen: u64, free: u64) -> (r: u64)
    ensures
        r == occluded_fill(gen, free, Direction::DownLeft),
{
    let ghost gen_in = gen;
    let ghost free_in = free;
    let mut gen = gen;
    let mut free = free;
    free = free & LEFT_MOVE_MASK;
    gen = gen | (free & (gen >> 9u64));
    free = free & (free >> 9u64);
    gen = gen | (free & (gen >> 18u64));
    free = free & (free >> 18u64);
    gen = gen | (free & (gen >> 36u64));
    proof {
        let f0 = free_in & 0x7f7f_7f7f_7f7f_7f7fu64;
        let a1 = gen_in | (f0 & (gen_in >> 9u64));
        let b1 = f0 & (f0 >> 9u64);
        let a2 = a1 | (b1 & (a1 >> 18u64));
        let b2 = b1 & (b1 >> 18u64);
        let a3 = a2 | (b2 & (a2 >> 36u64));
        assert(a3 == occluded_fill(gen_in, free_in, Direction::DownLeft)) by (bit_vector)
            requires
                f0 == free_in & 0x7f7f_7f7f_7f7f_7f7fu64,
                a1 == gen_in | (f0 & (gen_in >> 9u64)),
                b1 == f0 & (f0 >> 9u64),
                a2 == a1 | (b1 & (a1 >> 18u64)),
                b2 == b1 & (b1 >> 18u64),
                a3 == a2 | (b2 & (a2 >> 36u64)),
        ;
    }
    gen
}

/// The capturing fill down and towards the a-file (see `capture_fill`).
pub fn fill_down_left_cap(gen: u64, free: u64) -> (r: u64)
    ensures
        r == capture_fill(gen, free, Direction::DownLeft),
{
    let ghost gen_in = gen;
    let ghost free_in = free;
    let mut gen = gen;
    let mut free = free;
    free = free & LEFT_MOVE_MASK;
    gen = gen | (free & (gen >> 9u64));
    free = free & (free >> 9u64);
    gen = gen | (free & (gen >> 18u64));
    free = free & (free >> 18u64);
    gen = gen | (free & (gen >> 36u64));
    proof {
        let f0 = free_in & 0x7f7f_7f7f_7f7f_7f7fu64;
        let a1 = gen_in | (f0 & (gen_in >> 9u64));
        let b1 = f0 & (f0 >> 9u64);
        let a2 = a1 | (b1 & (a1 >> 18u64));
        let b2 = b1 & (b1 >> 18u64);
        let a3 = a2 | (b2 & (a2 >> 36u64));
        assert((a3 & b2) | ((a3 >> 9u64) & 0x7f7f_7f7f_7f7f_7f7fu64) == capture_fill(gen_in, free_in, Direction::DownLeft)) by (bit_vector)
            requires
                f0 == free_in & 0x7f7f_7f7f_7f7f_7f7fu64,
                a1 == gen_in | (f0 & (gen_in >> 9u64)),
                b1 == f0 & (f0 >> 9u64),
                a2 == a1 | (b1 & (a1 >> 18u64)),
                b2 == b1 & (b1 >> 18u64),
                a3 == a2 | (b2 & (a2 >> 36u64)),
        ;
    }
    (gen & free) | ((gen >> 9u64) & LEFT_MOVE_MASK)
}

/// The squares on the ray from `s` in direction `d`, up to `k` steps, are on the board, and
/// the squares after `s` on it, up to and including the `k`-th, are all in `free`.
pub open spec fn free_path(s: int, d: Direction, k: int, free: u64) -> bool {
    &&& 0 <= k
    &&& ray_ok(s, d, k)
    &&& forall|j: int| 1 <= j <= k ==> #[trigger] bit(free, ray_sq(s, d, j))
}

/// Square `t` is reached from a square of `gen` by at most `n` steps in direction `d` through
/// squares of `free`.
pub open spec fn fill_reaches(gen: u64, free: u64, d: Direction, n: int, t: int) -> bool {
    exists|s: int, k: int| #![trigger free_path(s, d, k, free)]
        bit(gen, s) && k <= n && free_path(s, d, k, free) && t == ray_sq(s, d, k)
}

/// The fill after `i` single steps.
pub open spec fn fill_level(gen: u64, free: u64, d: Direction, i: nat) -> u64
    decreases i,
{
    if i == 0 {
        gen
    } else {
        let g = fill_level(gen, free, d, (i - 1) as nat);
        g | (free & one_step(g, d))
    }
}

/// A square on a ray has the file and rank that the ray gives it.
pub proof fn lemma_ray_coords(s: int, d: Direction, k: int)
    requires
        ray_ok(s, d, k),
    ensures
        0 <= ray_sq(s, d, k) < 64,
        file_of(ray_sq(s, d, k)) == ray_file(s, d, k),
        rank_of(ray_sq(s, d, k)) == ray_rank(s, d, k),
{
    let f = ray_file(s, d, k);
    let r = ray_rank(s, d, k);
    assert((f + 8 * r) % 8 == f && (f + 8 * r) / 8 == r) by (nonlinear_arith)
        requires
            0 <= f < 8,
            0 <= r < 8,
    ;
}

/// A ray is on the board at every step before one at which it is on the board.
pub proof fn lemma_ray_prefix(s: int, d: Direction, k: int, j: int)
    requires
        ray_ok(s, d, k),
        0 <= j <= k,
    ensures
        ray_ok(s, d, j),
{
    lemma_ray_coords(s, d, 0);
}

/// A ray leaves the board within eight steps.
pub proof fn lemma_ray_short(s: int, d: Direction, k: int)
    requires
        ray_ok(s, d, k),
    ensures
        k <= 7,
{
    lemma_ray_coords(s, d, 0);
}

/// Stepping once more along a ray is the translation by the direction's offsets.
pub proof fn lemma_ray_next(s: int, d: Direction, k: int, g: u64)
    requires
        0 <= k,
        ray_ok(s, d, k + 1),
    ensures
        ray_ok(s, d, k),
        translated_bit(g, dir_dx(d), dir_dy(d), ray_sq(s, d, k + 1)) == bit(g, ray_sq(s, d, k)),
{
    lemma_ray_prefix(s, d, k + 1, k);
    lemma_ray_coords(s, d, k);
    lemma_ray_coords(s, d, k + 1);
}

/// What comes one step after a square of a ray is the ray's next square, if it is on the board.
pub proof fn lemma_ray_extend(s: int, d: Direction, k: int, t: int)
    requires
        0 <= k,
        ray_ok(s, d, k),
        0 <= t < 64,
        0 <= t - dir_dx(d) - 8 * dir_dy(d) < 64,
        t - dir_dx(d) - 8 * dir_dy(d) == ray_sq(s, d, k),
        0 <= file_of(ray_sq(s, d, k)) + dir_dx(d) < 8,
    ensures
        ray_ok(s, d, k + 1),
        t == ray_sq(s, d, k + 1),
{
    lemma_ray_coords(s, d, k);
}

/// What the fill after `i` single steps holds.
pub proof fn lemma_fill_level(gen: u64, free: u64, d: Direction, i: nat, t: int)
    requires
        0 <= t < 64,
    ensures
        bit(fill_level(gen, free, d, i), t) == fill_reaches(gen, free, d, i as int, t),
    decreases i,
{
    if i == 0 {
        if bit(gen, t) {
            lemma_ray_coords(t, d, 0);
            assert(free_path(t, d, 0, free));
        }
    } else {
        let g = fill_level(gen, free, d, (i - 1) as nat);
        lemma_fill_level(gen, free, d, (i - 1) as nat, t);
        lemma_bit_or(g, free & one_step(g, d), t);
        lemma_bit_and(free, one_step(g, d), t);
        lemma_one_step_bit(g, d, t);
        if fill_reaches(gen, free, d, i as int, t) && !fill_reaches(gen, free, d, i - 1, t) {
            let (s, k) = choose|s: int, k: int| #![trigger free_path(s, d, k, free)]
                bit(gen, s) && k <= i && free_path(s, d, k, free) && t == ray_sq(s, d, k);
            assert(k == i);
            lemma_ray_next(s, d, k - 1, g);
            let p = ray_sq(s, d, k - 1);
            lemma_ray_coords(s, d, k - 1);
            assert(free_path(s, d, k - 1, free));
            lemma_fill_level(gen, free, d, (i - 1) as nat, p);
            assert(bit(free, ray_sq(s, d, k)));
        }
        if bit(fill_level(gen, free, d, i), t) && !bit(g, t) {
            let p = t - dir_dx(d) - 8 * dir_dy(d);
            lemma_fill_level(gen, free, d, (i - 1) as nat, p);
            let (s, k) = choose|s: int, k: int| #![trigger free_path(s, d, k, free)]
                bit(gen, s) && k <= i - 1 && free_path(s, d, k, free) && p == ray_sq(s, d, k);
            lemma_ray_extend(s, d, k, t);
            assert forall|j: int| 1 <= j <= k + 1 implies #[trigger] bit(free, ray_sq(s, d, j)) by {
                if j <= k {
                    assert(bit(free, ray_sq(s, d, j)));
                }
            }
            assert(free_path(s, d, k + 1, free));
        }
    }
}

/// What the occluded fill holds: the squares reached from a square of `gen` by steps in
/// direction `d` through squares of `free`.
pub proof fn lemma_occluded_fill(gen: u64, free: u64, d: Direction, t: int)
    requires
        0 <= t < 64,
    ensures
        bit(occluded_fill(gen, free, d), t) == fill_reaches(gen, free, d, 7, t),
{
    reveal_with_fuel(fill_level, 8);
    assert(occluded_fill(gen, free, d) == fill_level(gen, free, d, 7));
    lemma_fill_level(gen, free, d, 7, t);
}

} // verus!
