//! Pointer and cell arithmetic for the default machine, and the textual form
//! of a pointer move.

use crate::config::{Overflow, TapeModel};
use vstd::prelude::*;
use vstd::string::*;

verus! {

/// Number of cells on the default tape.
pub const TAPE_LEN: usize = 30000;

/// The index reached from `x` by a move of `c` cells on the default tape, a
/// ring of [`TAPE_LEN`] cells.
pub open spec fn wrapped_index(x: int, c: int) -> int {
    TapeModel::Fixed(TAPE_LEN).moved(x, c)
}

/// The cell value `x` after `c` is added, on the default machine, whose
/// cells wrap around.
pub open spec fn wrapped_cell(x: u8, c: int) -> u8 {
    Overflow::Wrap.narrowed(x + c) as u8
}

/// The cell value `x` after it was incremented `times` times.
pub open spec fn incremented(x: u8, times: nat) -> u8
    decreases times,
{
    if times == 0 {
        x
    } else {
        wrapped_cell(incremented(x, (times - 1) as nat), 1)
    }
}

/// Moves the index `x` by `c` cells on the default tape, a ring of
/// [`TAPE_LEN`] cells: leaving one end re-enters at the other.
pub fn wrap_goto(x: usize, c: isize) -> (r: usize)
    ensures
        r == wrapped_index(x as int, c as int),
        r == (x + c) % 30000,
{
    let base: usize = x % TAPE_LEN;
    if c >= 0 {
        let step: usize = (c as usize) % TAPE_LEN;
        (base + step) % TAPE_LEN
    } else {
        let back: usize = ((-(c as i128)) % 30000) as usize;
        if back <= base {
            base - back
        } else {
            TAPE_LEN - (back - base)
        }
    }
}

/// Adds `c` to the cell value `x`, wrapping around the ends of the cell's
/// range `0..=255`.
pub fn wrap_cell(x: u8, c: i16) -> (r: u8)
    ensures
        r == wrapped_cell(x, c as int),
        r == (x + c) % 256,
{
    let sum: i32 = x as i32 + c as i32;
    let m: i32 = sum % 256;
    if m < 0 {
        (m + 256) as u8
    } else {
        m as u8
    }
}

/// Increments add up before they wrap.
proof fn lemma_incremented(x: u8, times: nat)
    ensures
        incremented(x, times) == (x + times) % 256,
    decreases times,
{
    if times > 0 {
        lemma_incremented(x, (times - 1) as nat);
    }
}

/// A cell that is incremented 256 times holds its first value again.
pub proof fn lemma_cell_wraps_around(x: u8)
    ensures
        incremented(x, 256) == x,
{
    lemma_incremented(x, 256);
}

/// A move by the length of the default tape, either way, leads back to
/// the index that it started from.
pub proof fn lemma_pointer_wraps_around(x: usize)
    requires
        x < TAPE_LEN,
    ensures
        wrapped_index(x as int, TAPE_LEN as int) == x,
        wrapped_index(x as int, -(TAPE_LEN as int)) == x,
{
}

/// The character `ch`, `n` times.
pub open spec fn repeat(ch: char, n: nat) -> Seq<char> {
    Seq::new(n, |k: int| ch)
}

/// The source text of a pointer move by `d` cells: that many `>` where `d`
/// is positive, `<` as many times as `d` is below 0, nothing for 0.
pub open spec fn moves(d: int) -> Seq<char> {
    if d > 0 {
        repeat('>', d as nat)
    } else {
        repeat('<', (-d) as nat)
    }
}

/// Appends to `text` the one character of `piece`, `count` times.
pub(crate) fn push_run(text: &mut String, piece: &str, count: u128)
    requires
        piece@.len() == 1,
    ensures
        final(text)@ == old(text)@ + repeat(piece@[0], count as nat),
{
    let mut done: u128 = 0;
    assert(text@ =~= old(text)@ + repeat(piece@[0], 0));
    while done < count
        invariant
            done <= count,
            piece@.len() == 1,
            text@ == old(text)@ + repeat(piece@[0], done as nat),
        decreases count - done,
    {
        text.append(piece);
        done += 1;
        assert(text@ =~= old(text)@ + repeat(piece@[0], done as nat));
    }
}

/// Appends to `text` the source text of a pointer move by `d` cells.
pub(crate) fn push_moves(text: &mut String, d: i128)
    requires
        d > i128::MIN,
    ensures
        final(text)@ == old(text)@ + moves(d as int),
{
    if d > 0 {
        proof {
            reveal_strlit(">");
        }
        push_run(text, ">", d as u128);
    } else {
        proof {
            reveal_strlit("<");
        }
        push_run(text, "<", (-d) as u128);
    }
}

/// The source text of a pointer move by `i` cells.
pub fn left_right(i: isize) -> (text: String)
    ensures
        text@ == moves(i as int),
{
    let mut text = String::new();
    push_moves(&mut text, i as i128);
    assert(text@ =~= moves(i as int));
    text
}

} // verus!
