//! Tokens, the lexer that produces them from source text, and the optimizer
//! that turns a token list into a program.

use crate::brackets::{
    free_of_dead_tokens, lemma_optimized_free_of_dead_tokens, lemma_optimized_well_bracketed,
    well_bracketed,
};
use crate::config::Overflow;
use vstd::prelude::*;

verus! {

/// One instruction of a program. It may stand for more than one character of
/// the source text.
#[derive(Clone, Copy, Debug, PartialEq, Eq, Hash, Structural)]
pub enum Token {
    /// Adds the count to the current cell: a run of `+`.
    Inc(u8),
    /// Subtracts the count from the current cell: a run of `-`.
    Dec(u8),
    /// Moves the pointer by the offset: a run of `>` where it is positive,
    /// of `<` where it is negative.
    Goto(isize),
    /// A left bracket, with the index of its right bracket. The lexer leaves
    /// the index at 0; the optimizer sets it.
    LBrack(usize),
    /// A right bracket, with the index of its left bracket. The lexer leaves
    /// the index at 0; the optimizer sets it.
    RBrack(usize),
    /// Writes the current cell: `.`.
    Out,
    /// Reads into the current cell: `,`.
    In,
    /// Clears the current cell: `[-]`.
    Zero,
    /// Sets the current cell to the value: `[-]` and a run of `+`.
    SetTo(u8),
    /// Adds the current cell, times the factor, to the cell at the offset,
    /// and clears the current cell: `[->+<]`.
    Add(isize, u8),
    /// Subtracts the current cell from the cell at the offset, and clears
    /// the current cell: `[->-<]`.
    Sub(isize),
    /// Adds the current cell, times the first factor, to the cell at the
    /// first offset, and, times the second factor, to the cell at the second
    /// offset beyond it, and clears the current cell: `[->+>+<<]`.
    Dup(isize, u8, isize, u8),
    /// Moves the pointer by the offset until the current cell is 0: `[>]`.
    Scan(isize),
    /// Stops the program where it stands: `[]`.
    End,
    /// Asks for a snapshot of the machine: `;`, where diagnostics are on.
    Dump,
}

/// The count of a run of `+` or `-` after one more character. From 255 it
/// wraps around to 0, or stays at 255, as `merge` says.
pub open spec fn bumped(n: u8, merge: Overflow) -> u8 {
    merge.narrowed(n + 1) as u8
}

/// The token list `toks` after the lexer has read the character `ch`.
///
/// A `+` or `-` extends a run that ends the list, or starts a new one. A
/// `>` or `<` adds 1 to, or subtracts 1 from, a move that ends the list, or
/// starts a new move where there is none or where the offset is at the end
/// of its range. With diagnostics off `;` is ignored, like every character
/// that is not an instruction.
pub open spec fn lex_push(
    toks: Seq<Token>,
    ch: char,
    merge: Overflow,
    diagnostics: bool,
) -> Seq<Token> {
    if ch == '+' {
        if toks.len() > 0 && toks.last() is Inc {
            toks.drop_last().push(Token::Inc(bumped(toks.last()->Inc_0, merge)))
        } else {
            toks.push(Token::Inc(1))
        }
    } else if ch == '-' {
        if toks.len() > 0 && toks.last() is Dec {
            toks.drop_last().push(Token::Dec(bumped(toks.last()->Dec_0, merge)))
        } else {
            toks.push(Token::Dec(1))
        }
    } else if ch == '>' {
        if toks.len() > 0 && toks.last() is Goto && toks.last()->Goto_0 < isize::MAX {
            toks.drop_last().push(Token::Goto((toks.last()->Goto_0 + 1) as isize))
        } else {
            toks.push(Token::Goto(1))
        }
    } else if ch == '<' {
        if toks.len() > 0 && toks.last() is Goto && toks.last()->Goto_0 > isize::MIN {
            toks.drop_last().push(Token::Goto((toks.last()->Goto_0 - 1) as isize))
        } else {
            toks.push(Token::Goto(-1isize))
        }
    } else if ch == '[' {
        toks.push(Token::LBrack(0))
    } else if ch == ']' {
        toks.push(Token::RBrack(0))
    } else if ch == '.' {
        toks.push(Token::Out)
    } else if ch == ',' {
        toks.push(Token::In)
    } else if ch == ';' && diagnostics {
        toks.push(Token::Dump)
    } else {
        toks
    }
}

/// The token list `toks` after the lexer has read the characters of `text`
/// in order.
pub open spec fn lex_onto(
    toks: Seq<Token>,
    text: Seq<char>,
    merge: Overflow,
    diagnostics: bool,
) -> Seq<Token>
    decreases text.len(),
{
    if text.len() == 0 {
        toks
    } else {
        lex_push(
            lex_onto(toks, text.drop_last(), merge, diagnostics),
            text.last(),
            merge,
            diagnostics,
        )
    }
}

/// The token list of the source text `text`, where `merge` says what
/// becomes of a count beyond 255, and `diagnostics` whether `;` is an
/// instruction.
pub open spec fn lex(text: Seq<char>, merge: Overflow, diagnostics: bool) -> Seq<Token> {
    lex_onto(Seq::empty(), text, merge, diagnostics)
}

/// Reads one character into the token list.
fn push_char(toks: &mut Vec<Token>, ch: char, merge: Overflow, diagnostics: bool)
    ensures
        final(toks)@ == lex_push(old(toks)@, ch, merge, diagnostics),
{
    let n = toks.len();
    let last: Option<Token> = if n > 0 {
        Some(toks[n - 1])
    } else {
        None
    };
    match ch {
        '+' => {
            if let Some(Token::Inc(i)) = last {
                toks.pop();
                toks.push(Token::Inc(merge.narrow(i as i32 + 1)));
            } else {
                toks.push(Token::Inc(1));
            }
        },
        '-' => {
            if let Some(Token::Dec(i)) = last {
                toks.pop();
                toks.push(Token::Dec(merge.narrow(i as i32 + 1)));
            } else {
                toks.push(Token::Dec(1));
            }
        },
        '>' => {
            match last {
                Some(Token::Goto(i)) if i < isize::MAX => {
                    toks.pop();
                    toks.push(Token::Goto(i + 1));
                },
                _ => {
                    toks.push(Token::Goto(1));
                },
            }
        },
        '<' => {
            match last {
                Some(Token::Goto(i)) if i > isize::MIN => {
                    toks.pop();
                    toks.push(Token::Goto(i - 1));
                },
                _ => {
                    toks.push(Token::Goto(-1));
                },
            }
        },
        '[' => {
            toks.push(Token::LBrack(0));
        },
        ']' => {
            toks.push(Token::RBrack(0));
        },
        '.' => {
            toks.push(Token::Out);
        },
        ',' => {
            toks.push(Token::In);
        },
        ';' => {
            if diagnostics {
                toks.push(Token::Dump);
            }
        },
        _ => {},
    }
}

/// Lexes source text for the default machine: a count wraps around, and
/// `;` is a comment like any other character that is not an instruction.
/// Brackets are not yet matched.
pub fn parse(input: &str) -> (toks: Vec<Token>)
    ensures
        toks@ == lex(input@, Overflow::Wrap, false),
{
    parse_with(input, Overflow::Wrap, false)
}

/// Lexes source text. A count beyond 255 wraps around or stays at 255, as
/// `merge` says; with `diagnostics` on, `;` becomes [`Token::Dump`].
/// Brackets are not yet matched.
pub fn parse_with(input: &str, merge: Overflow, diagnostics: bool) -> (toks: Vec<Token>)
    ensures
        toks@ == lex(input@, merge, diagnostics),
{
    let mut toks: Vec<Token> = Vec::new();
    for ch in it: input.chars()
        invariant
            it.seq() == input@,
            toks@ == lex(input@.take(it.index() as int), merge, diagnostics),
    {
        assert(input@.take(it.index() + 1).drop_last() == input@.take(it.index() as int));
        push_char(&mut toks, ch, merge, diagnostics);
    }
    assert(input@.take(input@.len() as int) == input@);
    toks
}

/// Why a token list is no program.
#[derive(Clone, Copy, Debug, PartialEq, Eq, Hash, Structural)]
pub enum BracketError {
    /// A right bracket stands where no left bracket is open.
    UnmatchedClosing,
    /// A left bracket is still open at the end.
    UnmatchedOpening,
}

impl BracketError {
    /// The error in words.
    pub open spec fn spec_message(self) -> Seq<char> {
        match self {
            BracketError::UnmatchedClosing => "unmatched closing bracket"@,
            BracketError::UnmatchedOpening => "unmatched opening bracket"@,
        }
    }

    /// The error in words.
    pub fn message(&self) -> (text: &'static str)
        ensures
            text@ == self.spec_message(),
    {
        match self {
            BracketError::UnmatchedClosing => "unmatched closing bracket",
            BracketError::UnmatchedOpening => "unmatched opening bracket",
        }
    }
}

/// The token at index `i`, where there is one.
pub open spec fn at(toks: Seq<Token>, i: int) -> Option<Token> {
    if 0 <= i < toks.len() {
        Some(toks[i])
    } else {
        None
    }
}

/// `[-]` gives [`Token::Zero`]; followed by a run of `+`, it gives
/// [`Token::SetTo`] with the run's count.
pub open spec fn clear_idiom(toks: Seq<Token>, i: int) -> Option<(Token, int)> {
    match (at(toks, i), at(toks, i + 1), at(toks, i + 2), at(toks, i + 3)) {
        (
            Some(Token::LBrack(_)),
            Some(Token::Dec(1)),
            Some(Token::RBrack(_)),
            Some(Token::Inc(k)),
        ) => Some((Token::SetTo(k), 4int)),
        (Some(Token::LBrack(_)), Some(Token::Dec(1)), Some(Token::RBrack(_)), _) => Some(
            (Token::Zero, 3int),
        ),
        _ => None,
    }
}

/// `[-` move `+`… move back `]`, and the same with the `-` last, give
/// [`Token::Add`] with the move's offset and the run's count.
pub open spec fn add_idiom(toks: Seq<Token>, i: int) -> Option<(Token, int)> {
    match (
        at(toks, i),
        at(toks, i + 1),
        at(toks, i + 2),
        at(toks, i + 3),
        at(toks, i + 4),
        at(toks, i + 5),
    ) {
        (
            Some(Token::LBrack(_)),
            Some(Token::Dec(1)),
            Some(Token::Goto(d)),
            Some(Token::Inc(k)),
            Some(Token::Goto(back)),
            Some(Token::RBrack(_)),
        ) => if d + back == 0 {
            Some((Token::Add(d, k), 6int))
        } else {
            None
        },
        (
            Some(Token::LBrack(_)),
            Some(Token::Goto(d)),
            Some(Token::Inc(k)),
            Some(Token::Goto(back)),
            Some(Token::Dec(1)),
            Some(Token::RBrack(_)),
        ) => if d + back == 0 {
            Some((Token::Add(d, k), 6int))
        } else {
            None
        },
        _ => None,
    }
}

/// `[-` move `-` move back `]`, and the same with the first `-` last, give
/// [`Token::Sub`] with the move's offset.
pub open spec fn sub_idiom(toks: Seq<Token>, i: int) -> Option<(Token, int)> {
    match (
        at(toks, i),
        at(toks, i + 1),
        at(toks, i + 2),
        at(toks, i + 3),
        at(toks, i + 4),
        at(toks, i + 5),
    ) {
        (
            Some(Token::LBrack(_)),
            Some(Token::Dec(1)),
            Some(Token::Goto(d)),
            Some(Token::Dec(1)),
            Some(Token::Goto(back)),
            Some(Token::RBrack(_)),
        ) => if d + back == 0 {
            Some((Token::Sub(d), 6int))
        } else {
            None
        },
        (
            Some(Token::LBrack(_)),
            Some(Token::Goto(d)),
            Some(Token::Dec(1)),
            Some(Token::Goto(back)),
            Some(Token::Dec(1)),
            Some(Token::RBrack(_)),
        ) => if d + back == 0 {
            Some((Token::Sub(d), 6int))
        } else {
            None
        },
        _ => None,
    }
}

/// `[-` move `+`… move `+`… move back `]`, where the second move does not
/// undo the first, and the same with the `-` last, whatever the second
/// move, give [`Token::Dup`] with the offsets of the first two moves and
/// the counts of the two runs.
pub open spec fn dup_idiom(toks: Seq<Token>, i: int) -> Option<(Token, int)> {
    match (
        at(toks, i),
        at(toks, i + 1),
        at(toks, i + 2),
        at(toks, i + 3),
        at(toks, i + 4),
        at(toks, i + 5),
        at(toks, i + 6),
        at(toks, i + 7),
    ) {
        (
            Some(Token::LBrack(_)),
            Some(Token::Dec(1)),
            Some(Token::Goto(d1)),
            Some(Token::Inc(k1)),
            Some(Token::Goto(d2)),
            Some(Token::Inc(k2)),
            Some(Token::Goto(back)),
            Some(Token::RBrack(_)),
        ) => if d1 + d2 != 0 && d1 + d2 + back == 0 {
            Some((Token::Dup(d1, k1, d2, k2), 8int))
        } else {
            None
        },
        (
            Some(Token::LBrack(_)),
            Some(Token::Goto(d1)),
            Some(Token::Inc(k1)),
            Some(Token::Goto(d2)),
            Some(Token::Inc(k2)),
            Some(Token::Goto(back)),
            Some(Token::Dec(1)),
            Some(Token::RBrack(_)),
        ) => if d1 + d2 + back == 0 {
            Some((Token::Dup(d1, k1, d2, k2), 8int))
        } else {
            None
        },
        _ => None,
    }
}

/// `[` move `]` gives [`Token::Scan`] with the move's offset.
pub open spec fn scan_idiom(toks: Seq<Token>, i: int) -> Option<(Token, int)> {
    match (at(toks, i), at(toks, i + 1), at(toks, i + 2)) {
        (Some(Token::LBrack(_)), Some(Token::Goto(d)), Some(Token::RBrack(_))) => Some(
            (Token::Scan(d), 3int),
        ),
        _ => None,
    }
}

/// `[]` gives [`Token::End`].
pub open spec fn end_idiom(toks: Seq<Token>, i: int) -> Option<(Token, int)> {
    match (at(toks, i), at(toks, i + 1)) {
        (Some(Token::LBrack(_)), Some(Token::RBrack(_))) => Some((Token::End, 2int)),
        _ => None,
    }
}

/// The idiom that starts at index `i`, where one does: the token that it
/// becomes, and the number of tokens that it takes up. At most one of the
/// forms fits at an index.
pub open spec fn idiom_at(toks: Seq<Token>, i: int) -> Option<(Token, int)> {
    if clear_idiom(toks, i) is Some {
        clear_idiom(toks, i)
    } else if add_idiom(toks, i) is Some {
        add_idiom(toks, i)
    } else if sub_idiom(toks, i) is Some {
        sub_idiom(toks, i)
    } else if dup_idiom(toks, i) is Some {
        dup_idiom(toks, i)
    } else if scan_idiom(toks, i) is Some {
        scan_idiom(toks, i)
    } else {
        end_idiom(toks, i)
    }
}

/// A move, or a run of `+` or `-`, that changes nothing.
pub open spec fn is_dead(t: Token) -> bool {
    t == Token::Goto(0) || t == Token::Inc(0) || t == Token::Dec(0)
}

/// The optimizer's pass from index `i` of `toks` on, where `out` is the
/// program so far and `open` holds the indices in `out` of the left brackets
/// that are still open, the innermost last.
///
/// An idiom becomes its one token. A left bracket is written and becomes the
/// innermost open one. A right bracket closes the innermost open left
/// bracket: each gets the other's index; with none open the pass fails. A
/// dead token is dropped. Any other token is written as it is. At the end no
/// left bracket may be open.
pub open spec fn optimize_from(
    toks: Seq<Token>,
    i: int,
    out: Seq<Token>,
    open: Seq<usize>,
) -> Result<Seq<Token>, BracketError>
    decreases toks.len() - i,
{
    if i < 0 || i >= toks.len() {
        if open.len() == 0 {
            Ok(out)
        } else {
            Err(BracketError::UnmatchedOpening)
        }
    } else if idiom_at(toks, i) is Some {
        let (t, n) = idiom_at(toks, i)->0;
        optimize_from(toks, i + n, out.push(t), open)
    } else if toks[i] is LBrack {
        optimize_from(toks, i + 1, out.push(toks[i]), open.push(out.len() as usize))
    } else if toks[i] is RBrack {
        if open.len() == 0 {
            Err(BracketError::UnmatchedClosing)
        } else {
            let left = open.last();
            optimize_from(
                toks,
                i + 1,
                out.update(left as int, Token::LBrack(out.len() as usize)).push(
                    Token::RBrack(left),
                ),
                open.drop_last(),
            )
        }
    } else if is_dead(toks[i]) {
        optimize_from(toks, i + 1, out, open)
    } else {
        optimize_from(toks, i + 1, out.push(toks[i]), open)
    }
}

/// The program that the token list `toks` becomes, or the reason why it is
/// none.
pub open spec fn optimized(toks: Seq<Token>) -> Result<Seq<Token>, BracketError> {
    optimize_from(toks, 0, Seq::empty(), Seq::empty())
}

/// The token `k` places after index `si`, where there is one.
fn peek(toks: &[Token], si: usize, k: usize) -> (r: Option<Token>)
    requires
        si <= toks.len(),
    ensures
        r == at(toks@, si + k),
{
    if k < toks.len() - si {
        Some(toks[si + k])
    } else {
        None
    }
}

/// Whether the token is a right bracket.
fn closes(t: Option<Token>) -> (r: bool)
    ensures
        r == (t is Some && t->0 is RBrack),
{
    match t {
        Some(Token::RBrack(_)) => true,
        _ => false,
    }
}

/// Whether the token is a single `-`.
fn is_one_dec(t: Option<Token>) -> (r: bool)
    ensures
        r == (t == Some(Token::Dec(1))),
{
    match t {
        Some(Token::Dec(n)) => n == 1,
        _ => false,
    }
}

/// Whether the offsets add up to 0.
fn cancel(a: isize, b: isize, c: isize) -> (r: bool)
    ensures
        r == (a + b + c == 0),
{
    a as i128 + b as i128 + c as i128 == 0
}

/// Looks for an idiom that starts with the left bracket at index `si`.
fn match_idiom(toks: &[Token], si: usize) -> (r: Option<(Token, usize)>)
    requires
        si < toks.len(),
    ensures
        match r {
            Some((t, n)) => idiom_at(toks@, si as int) == Some((t, n as int)),
            None => idiom_at(toks@, si as int) is None,
        },
{
    match toks[si] {
        Token::LBrack(_) => {},
        _ => {
            return None;
        },
    }
    let next = peek(toks, si, 1);
    if is_one_dec(next) {
        match peek(toks, si, 2) {
            Some(Token::RBrack(_)) => {
                // [-]
                match peek(toks, si, 3) {
                    Some(Token::Inc(k)) => Some((Token::SetTo(k), 4)),
                    _ => Some((Token::Zero, 3)),
                }
            },
            Some(Token::Goto(there)) => {
                match peek(toks, si, 3) {
                    Some(Token::Inc(mul)) => {
                        // [->+
                        match peek(toks, si, 4) {
                            Some(Token::Goto(back)) => {
                                let after = peek(toks, si, 5);
                                if cancel(there, back, 0) {
                                    if closes(after) {
                                        Some((Token::Add(there, mul), 6))
                                    } else {
                                        None
                                    }
                                } else {
                                    match (after, peek(toks, si, 6)) {
                                        (Some(Token::Inc(mul2)), Some(Token::Goto(home))) => {
                                            if cancel(there, back, home) && closes(
                                                peek(toks, si, 7),
                                            ) {
                                                Some((Token::Dup(there, mul, back, mul2), 8))
                                            } else {
                                                None
                                            }
                                        },
                                        _ => None,
                                    }
                                }
                            },
                            _ => None,
                        }
                    },
                    Some(Token::Dec(n)) => {
                        // [->-
                        match peek(toks, si, 4) {
                            Some(Token::Goto(back)) => {
                                if n == 1 && cancel(there, back, 0) && closes(peek(toks, si, 5)) {
                                    Some((Token::Sub(there), 6))
                                } else {
                                    None
                                }
                            },
                            _ => None,
                        }
                    },
                    _ => None,
                }
            },
            _ => None,
        }
    } else {
        match next {
            Some(Token::Goto(there)) => {
                match peek(toks, si, 2) {
                    Some(Token::Inc(mul)) => {
                        // [>+
                        match peek(toks, si, 3) {
                            Some(Token::Goto(back)) => {
                                let after = peek(toks, si, 4);
                                if cancel(there, back, 0) && is_one_dec(after) && closes(
                                    peek(toks, si, 5),
                                ) {
                                    Some((Token::Add(there, mul), 6))
                                } else {
                                    match (after, peek(toks, si, 5)) {
                                        (Some(Token::Inc(mul2)), Some(Token::Goto(home))) => {
                                            if cancel(there, back, home) && is_one_dec(
                                                peek(toks, si, 6),
                                            ) && closes(peek(toks, si, 7)) {
                                                Some((Token::Dup(there, mul, back, mul2), 8))
                                            } else {
                                                None
                                            }
                                        },
                                        _ => None,
                                    }
                                }
                            },
                            _ => None,
                        }
                    },
                    Some(Token::Dec(n)) => {
                        // [>-
                        match peek(toks, si, 3) {
                            Some(Token::Goto(back)) => {
                                if n == 1 && cancel(there, back, 0) && is_one_dec(
                                    peek(toks, si, 4),
                                ) && closes(peek(toks, si, 5)) {
                                    Some((Token::Sub(there), 6))
                                } else {
                                    None
                                }
                            },
                            _ => None,
                        }
                    },
                    Some(Token::RBrack(_)) => Some((Token::Scan(there), 3)),
                    _ => None,
                }
            },
            Some(Token::RBrack(_)) => Some((Token::End, 2)),
            _ => None,
        }
    }
}

/// Whether the token is a move, or a run of `+` or `-`, that changes
/// nothing.
fn dead(t: Token) -> (r: bool)
    ensures
        r == is_dead(t),
{
    match t {
        Token::Goto(d) => d == 0,
        Token::Inc(n) => n == 0,
        Token::Dec(n) => n == 0,
        _ => false,
    }
}

/// Turns a token list into a program: fuses the loop idioms into single
/// tokens, drops the tokens that change nothing, and gives each bracket
/// the index of its partner. Fails on a bracket without a partner, a right
/// one first.
pub fn optimize(toks: &[Token]) -> (r: Result<Vec<Token>, BracketError>)
    ensures
        match r {
            Ok(program) => optimized(toks@) == Ok::<Seq<Token>, BracketError>(program@),
            Err(e) => optimized(toks@) == Err::<Seq<Token>, BracketError>(e),
        },
        r matches Ok(program) ==> well_bracketed(program@) && free_of_dead_tokens(program@),
{
    let total: usize = toks.len();
    proof {
        lemma_optimized_well_bracketed(toks@);
        lemma_optimized_free_of_dead_tokens(toks@);
    }
    let mut out: Vec<Token> = Vec::new();
    let mut open: Vec<usize> = Vec::new();
    let mut si: usize = 0;
    while si < total
        invariant
            total == toks.len(),
            si <= total,
            out.len() <= si,
            forall|k: int| 0 <= k < open.len() ==> open[k] < out.len(),
            optimize_from(toks@, si as int, out@, open@) == optimized(toks@),
        decreases total - si,
    {
        match match_idiom(toks, si) {
            Some((t, n)) => {
                out.push(t);
                si += n;
            },
            None => {
                let tok = toks[si];
                match tok {
                    Token::LBrack(_) => {
                        open.push(out.len());
                        out.push(tok);
                    },
                    Token::RBrack(_) => {
                        match open.pop() {
                            Some(left) => {
                                let here = out.len();
                                out.set(left, Token::LBrack(here));
                                out.push(Token::RBrack(left));
                            },
                            None => {
                                return Err(BracketError::UnmatchedClosing);
                            },
                        }
                    },
                    _ => {
                        if !dead(tok) {
                            out.push(tok);
                        }
                    },
                }
                si += 1;
            },
        }
    }
    if open.len() > 0 {
        Err(BracketError::UnmatchedOpening)
    } else {
        Ok(out)
    }
}

} // verus!
