//! The machine's configuration: how the tape is laid out and what happens
//! when a cell leaves its range.

use vstd::prelude::*;
use vstd::arithmetic::div_mod::{
    lemma_add_mod_noop, lemma_fundamental_div_mod, lemma_fundamental_div_mod_converse,
    lemma_mod_bound, lemma_mod_multiples_vanish, lemma_mod_twice, lemma_small_mod,
};

verus! {

/// What becomes of a cell value that leaves the range `0..=255`.
#[derive(Clone, Copy, Debug, PartialEq, Eq, Structural)]
pub enum Overflow {
    /// The value re-enters at the other end of the range.
    Wrap,
    /// The value stays at the end of the range that it ran into.
    Saturate,
}

impl Overflow {
    /// The cell value that the exact result `v` is stored as.
    pub open spec fn narrowed(self, v: int) -> int {
        match self {
            Overflow::Wrap => v % 256,
            Overflow::Saturate => if v < 0 {
                0
            } else if v > 255 {
                255
            } else {
                v
            },
        }
    }

    /// Brings the exact result `v` of an operation on a cell back into the
    /// cell's range.
    pub fn narrow(self, v: i32) -> (r: u8)
        ensures
            r == self.narrowed(v as int),
    {
        match self {
            Overflow::Wrap => {
                let m: i32 = v % 256;
                if m < 0 {
                    (m + 256) as u8
                } else {
                    m as u8
                }
            },
            Overflow::Saturate => {
                if v < 0 {
                    0
                } else if v > 255 {
                    255
                } else {
                    v as u8
                }
            },
        }
    }
}

/// The layout of the tape.
#[derive(Clone, Copy, Debug, PartialEq, Eq, Structural)]
pub enum TapeModel {
    /// A ring of the given number of cells.
    Fixed(usize),
    /// A tape that starts at cell 0 and grows upwards as cells are written.
    Dynamic,
}

/// The remainder of `-a` in terms of the remainder of `a`.
proof fn lemma_mod_of_negation(a: int, n: int)
    requires
        0 <= a,
        0 < n,
    ensures
        (-a) % n == if a % n == 0 {
            0
        } else {
            n - a % n
        },
{
    lemma_fundamental_div_mod(a, n);
    lemma_mod_bound(a, n);
    let q = a / n;
    let r = a % n;
    if r == 0 {
        assert(-a == (-q) * n + 0) by (nonlinear_arith)
            requires
                a == n * q + r,
                r == 0,
        ;
        lemma_fundamental_div_mod_converse(-a, n, -q, 0);
    } else {
        assert(-a == (-q - 1) * n + (n - r)) by (nonlinear_arith)
            requires
                a == n * q + r,
        ;
        lemma_fundamental_div_mod_converse(-a, n, -q - 1, n - r);
    }
}

impl TapeModel {
    /// A ring has at least one cell.
    pub open spec fn wf(self) -> bool {
        self matches TapeModel::Fixed(len) ==> len > 0
    }

    /// Whether the layout can be used: a ring has at least one cell.
    pub fn is_valid(&self) -> (r: bool)
        ensures
            r == self.wf(),
    {
        match self {
            TapeModel::Fixed(len) => *len > 0,
            TapeModel::Dynamic => true,
        }
    }

    /// The index reached from `sp` by a move of `d` cells: on a ring, the
    /// sum modulo the ring's length; on a growing tape, the sum held at cell
    /// 0 below and at the largest index above.
    pub open spec fn moved(self, sp: int, d: int) -> int {
        match self {
            TapeModel::Fixed(len) => (sp + d) % (len as int),
            TapeModel::Dynamic => if sp + d < 0 {
                0
            } else if sp + d > usize::MAX {
                usize::MAX as int
            } else {
                sp + d
            },
        }
    }

    /// Moves the index `sp` by `d` cells.
    pub fn shift(self, sp: usize, d: isize) -> (r: usize)
        requires
            self.wf(),
        ensures
            r == self.moved(sp as int, d as int),
    {
        self.shift_wide(sp, d as i128)
    }

    /// Moves the index `sp` by `d1 + d2` cells in one move.
    pub fn shift_sum(self, sp: usize, d1: isize, d2: isize) -> (r: usize)
        requires
            self.wf(),
        ensures
            r == self.moved(sp as int, d1 + d2),
    {
        self.shift_wide(sp, d1 as i128 + d2 as i128)
    }

    fn shift_wide(self, sp: usize, d: i128) -> (r: usize)
        requires
            self.wf(),
            -0x1_0000_0000_0000_0000 <= d <= 0x1_0000_0000_0000_0000,
        ensures
            r == self.moved(sp as int, d as int),
    {
        match self {
            TapeModel::Fixed(len) => {
                let n: i128 = len as i128;
                let base: i128 = (sp as i128) % n;
                let off: i128 = if d >= 0 {
                    d % n
                } else {
                    let back: i128 = (-d) % n;
                    if back == 0 {
                        0
                    } else {
                        n - back
                    }
                };
                proof {
                    lemma_mod_bound(sp as int, n as int);
                    lemma_mod_bound(d as int, n as int);
                    lemma_mod_bound(-d as int, n as int);
                    if d < 0 {
                        lemma_mod_of_negation(-d as int, n as int);
                    }
                    assert(off == (d as int) % (n as int));
                    lemma_add_mod_noop(sp as int, d as int, n as int);
                    lemma_mod_bound(base + off, n as int);
                }
                ((base + off) % n) as usize
            },
            TapeModel::Dynamic => {
                let t: i128 = sp as i128 + d;
                if t < 0 {
                    0
                } else if t > usize::MAX as i128 {
                    usize::MAX
                } else {
                    t as usize
                }
            },
        }
    }
}

/// A move by the length of a ring, either way, leads back to the index
/// that it started from.
pub proof fn lemma_ring_full_turn(len: usize, sp: int)
    requires
        0 <= sp < len,
    ensures
        TapeModel::Fixed(len).moved(sp, len as int) == sp,
        TapeModel::Fixed(len).moved(sp, -(len as int)) == sp,
{
    lemma_mod_multiples_vanish(1, sp, len as int);
    lemma_mod_multiples_vanish(-1, sp, len as int);
    lemma_small_mod(sp as nat, len as nat);
}

/// Two moves on a ring lead where the one move by their sum leads.
pub proof fn lemma_ring_moves_add_up(len: usize, sp: int, d1: int, d2: int)
    requires
        len > 0,
    ensures
        TapeModel::Fixed(len).moved(TapeModel::Fixed(len).moved(sp, d1), d2) == TapeModel::Fixed(
            len,
        ).moved(sp, d1 + d2),
{
    lemma_add_mod_noop(sp + d1, d2, len as int);
    lemma_mod_twice(d2, len as int);
    lemma_add_mod_noop((sp + d1) % (len as int), d2, len as int);
    lemma_mod_twice(sp + d1, len as int);
}

/// The choices that a machine is built with.
#[derive(Clone, Copy, Debug, PartialEq, Eq, Structural)]
pub struct Config {
    /// The layout of the tape.
    pub tape: TapeModel,
    /// The treatment of cell values that leave their range.
    pub overflow: Overflow,
}

impl Config {
    /// A ring has at least one cell.
    pub open spec fn wf(self) -> bool {
        self.tape.wf()
    }

    /// Whether a machine can be built with these choices.
    pub fn is_valid(&self) -> (r: bool)
        ensures
            r == self.wf(),
    {
        self.tape.is_valid()
    }

    /// The default machine: a ring of 30000 cells that wrap around.
    pub open spec fn standard() -> Config {
        Config { tape: TapeModel::Fixed(30000), overflow: Overflow::Wrap }
    }
}

impl Default for Config {
    fn default() -> (c: Config)
        ensures
            c == Config::standard(),
    {
        Config { tape: TapeModel::Fixed(30000), overflow: Overflow::Wrap }
    }
}

} // verus!
