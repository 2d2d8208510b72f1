//! The source text of a token, and the proof that the text of an idiom's
//! token leads back to that token.

use crate::config::Overflow;
use crate::helper::{moves, push_moves, push_run, repeat};
use crate::token::{
    bumped, idiom_at, lex, lex_onto, lex_push, optimize_from, optimized, BracketError, Token,
};
use vstd::prelude::*;
use vstd::string::*;

verus! {

impl Token {
    /// The token as source text.
    ///
    /// A bracket's text does not show its partner's index.
    pub open spec fn text(self) -> Seq<char> {
        match self {
            Token::Inc(n) => repeat('+', n as nat),
            Token::Dec(n) => repeat('-', n as nat),
            Token::Goto(d) => moves(d as int),
            Token::LBrack(_) => seq!['['],
            Token::RBrack(_) => seq![']'],
            Token::Out => seq!['.'],
            Token::In => seq![','],
            Token::Zero => seq!['[', '-', ']'],
            Token::SetTo(v) => seq!['[', '-', ']'] + repeat('+', v as nat),
            Token::Add(d, mul) => seq!['[', '-'] + moves(d as int) + repeat('+', mul as nat)
                + moves(-d) + seq![']'],
            Token::Sub(d) => seq!['['] + moves(d as int) + seq!['-'] + moves(-d) + seq!['-', ']'],
            Token::Dup(d1, mul1, d2, mul2) => seq!['[', '-'] + moves(d1 as int) + repeat(
                '+',
                mul1 as nat,
            ) + moves(d2 as int) + repeat('+', mul2 as nat) + moves(-(d1 + d2)) + seq![']'],
            Token::Scan(d) => seq!['['] + moves(d as int) + seq![']'],
            Token::End => seq!['[', ']'],
            Token::Dump => seq![';'],
        }
    }

    /// Writes the token as source text.
    pub fn render(&self) -> (text: String)
        ensures
            text@ == self.text(),
    {
        let mut text = String::new();
        proof {
            reveal_strlit("+");
            reveal_strlit("-");
            reveal_strlit("[");
            reveal_strlit("]");
            reveal_strlit(".");
            reveal_strlit(",");
            reveal_strlit(";");
            reveal_strlit("[-");
            reveal_strlit("-]");
            reveal_strlit("[]");
            reveal_strlit("[-]");
        }
        match *self {
            Token::Inc(n) => {
                push_run(&mut text, "+", n as u128);
            },
            Token::Dec(n) => {
                push_run(&mut text, "-", n as u128);
            },
            Token::Goto(d) => {
                push_moves(&mut text, d as i128);
            },
            Token::LBrack(_) => {
                text.append("[");
            },
            Token::RBrack(_) => {
                text.append("]");
            },
            Token::Out => {
                text.append(".");
            },
            Token::In => {
                text.append(",");
            },
            Token::Zero => {
                text.append("[-]");
            },
            Token::SetTo(v) => {
                text.append("[-]");
                push_run(&mut text, "+", v as u128);
            },
            Token::Add(d, mul) => {
                text.append("[-");
                push_moves(&mut text, d as i128);
                push_run(&mut text, "+", mul as u128);
                push_moves(&mut text, -(d as i128));
                text.append("]");
            },
            Token::Sub(d) => {
                text.append("[");
                push_moves(&mut text, d as i128);
                text.append("-");
                push_moves(&mut text, -(d as i128));
                text.append("-]");
            },
            Token::Dup(d1, mul1, d2, mul2) => {
                text.append("[-");
                push_moves(&mut text, d1 as i128);
                push_run(&mut text, "+", mul1 as u128);
                push_moves(&mut text, d2 as i128);
                push_run(&mut text, "+", mul2 as u128);
                push_moves(&mut text, -(d1 as i128 + d2 as i128));
                text.append("]");
            },
            Token::Scan(d) => {
                text.append("[");
                push_moves(&mut text, d as i128);
                text.append("]");
            },
            Token::End => {
                text.append("[]");
            },
            Token::Dump => {
                text.append(";");
            },
        }
        assert(text@ =~= self.text());
        text
    }
}

impl Token {
    /// The token stands for a loop idiom, and its text leads back to it:
    /// every count and offset in it is not 0, the second move of a
    /// [`Token::Dup`] does not undo the first, and the way back, a move
    /// against the offset, or against the sum of the two offsets, is
    /// within a move's range.
    pub open spec fn is_faithful_idiom(self) -> bool {
        match self {
            Token::Zero => true,
            Token::SetTo(v) => v != 0,
            Token::Add(d, mul) => d != 0 && d != isize::MIN && mul != 0,
            Token::Sub(d) => d != 0 && d != isize::MIN,
            Token::Dup(d1, mul1, d2, mul2) => {
                &&& d1 != 0
                &&& d2 != 0
                &&& mul1 != 0
                &&& mul2 != 0
                &&& d1 + d2 != 0
                &&& isize::MIN <= -(d1 + d2) <= isize::MAX
            },
            Token::Scan(d) => d != 0,
            Token::End => true,
            _ => false,
        }
    }
}

/// Lexing a text in two parts gives what lexing it in one gives.
proof fn lemma_lex_concat(acc: Seq<Token>, a: Seq<char>, b: Seq<char>, merge: Overflow, diagnostics: bool)
    ensures
        lex_onto(acc, a + b, merge, diagnostics) == lex_onto(
            lex_onto(acc, a, merge, diagnostics),
            b,
            merge,
            diagnostics,
        ),
    decreases b.len(),
{
    if b.len() == 0 {
        assert(a + b =~= a);
    } else {
        lemma_lex_concat(acc, a, b.drop_last(), merge, diagnostics);
        assert((a + b).drop_last() =~= a + b.drop_last());
        assert((a + b).last() == b.last());
    }
}

/// Lexing one more character.
proof fn lemma_lex_more(text: Seq<char>, ch: char, merge: Overflow, diagnostics: bool)
    ensures
        lex(text + seq![ch], merge, diagnostics) == lex_push(lex(text, merge, diagnostics), ch, merge, diagnostics),
{
    assert((text + seq![ch]).drop_last() =~= text);
}

/// A run of `+` after a token list that does not end in such a run becomes
/// one token.
proof fn lemma_lex_run(acc: Seq<Token>, n: nat, merge: Overflow, diagnostics: bool)
    requires
        1 <= n <= 255,
        acc.len() == 0 || !(acc.last() is Inc),
    ensures
        lex_onto(acc, repeat('+', n), merge, diagnostics) == acc.push(Token::Inc(n as u8)),
    decreases n,
{
    let text = repeat('+', n);
    assert(text.drop_last() =~= repeat('+', (n - 1) as nat));
    if n == 1 {
        assert(lex_onto(acc, text.drop_last(), merge, diagnostics) == acc);
    } else {
        lemma_lex_run(acc, (n - 1) as nat, merge, diagnostics);
        let before = acc.push(Token::Inc((n - 1) as u8));
        assert(before.drop_last() =~= acc);
        assert(bumped((n - 1) as u8, merge) == n as u8);
    }
}

/// A pointer move after a token list that does not end in a move becomes
/// one token.
proof fn lemma_lex_moves(acc: Seq<Token>, d: int, merge: Overflow, diagnostics: bool)
    requires
        d != 0,
        isize::MIN <= d <= isize::MAX,
        acc.len() == 0 || !(acc.last() is Goto),
    ensures
        lex_onto(acc, moves(d), merge, diagnostics) == acc.push(Token::Goto(d as isize)),
    decreases
            if d > 0 {
                d
            } else {
                -d
            },
{
    let text = moves(d);
    if d > 0 {
        assert(text.drop_last() =~= repeat('>', (d - 1) as nat));
        if d == 1 {
            assert(lex_onto(acc, text.drop_last(), merge, diagnostics) == acc);
        } else {
            assert(text.drop_last() == moves(d - 1));
            lemma_lex_moves(acc, d - 1, merge, diagnostics);
            assert(acc.push(Token::Goto((d - 1) as isize)).drop_last() =~= acc);
        }
    } else {
        assert(text.drop_last() =~= repeat('<', (-d - 1) as nat));
        if d == -1 {
            assert(lex_onto(acc, text.drop_last(), merge, diagnostics) == acc);
        } else {
            assert(text.drop_last() == moves(d + 1));
            lemma_lex_moves(acc, d + 1, merge, diagnostics);
            assert(acc.push(Token::Goto((d + 1) as isize)).drop_last() =~= acc);
        }
    }
}

/// A token list that is one idiom becomes the idiom's token.
proof fn lemma_single_idiom(toks: Seq<Token>, t: Token)
    requires
        idiom_at(toks, 0) == Some((t, toks.len() as int)),
    ensures
        optimized(toks) == Ok::<Seq<Token>, BracketError>(seq![t]),
{
    reveal_with_fuel(optimize_from, 2);
    assert(Seq::<Token>::empty().push(t) =~= seq![t]);
}

/// The token lists of the two ways in which a loop's text begins.
proof fn lemma_lex_opening(merge: Overflow, diagnostics: bool)
    ensures
        lex(seq!['['], merge, diagnostics) == seq![Token::LBrack(0)],
        lex(seq!['[', '-'], merge, diagnostics) == seq![Token::LBrack(0), Token::Dec(1)],
{
    let none = Seq::<char>::empty();
    assert(lex(none, merge, diagnostics) == Seq::<Token>::empty());
    lemma_lex_more(none, '[', merge, diagnostics);
    assert(none + seq!['['] =~= seq!['[']);
    assert(lex(seq!['['], merge, diagnostics) =~= seq![Token::LBrack(0)]);
    lemma_lex_more(seq!['['], '-', merge, diagnostics);
    assert(seq!['['] + seq!['-'] =~= seq!['[', '-']);
    assert(lex(seq!['[', '-'], merge, diagnostics) =~= seq![Token::LBrack(0), Token::Dec(1)]);
}

/// The token list of a text that ends in a right bracket.
proof fn lemma_lex_closing(text: Seq<char>, toks: Seq<Token>, merge: Overflow, diagnostics: bool)
    requires
        lex(text, merge, diagnostics) == toks,
    ensures
        lex(text + seq![']'], merge, diagnostics) == toks.push(Token::RBrack(0)),
{
    lemma_lex_more(text, ']', merge, diagnostics);
}

/// The token list of a text that ends in a single `-` after a move.
proof fn lemma_lex_dec(text: Seq<char>, toks: Seq<Token>, merge: Overflow, diagnostics: bool)
    requires
        lex(text, merge, diagnostics) == toks,
        toks.len() > 0,
        toks.last() is Goto,
    ensures
        lex(text + seq!['-'], merge, diagnostics) == toks.push(Token::Dec(1)),
{
    lemma_lex_more(text, '-', merge, diagnostics);
}

/// The token list of a text that ends in a move after a token that is none.
proof fn lemma_lex_move(text: Seq<char>, toks: Seq<Token>, d: int, merge: Overflow, diagnostics: bool)
    requires
        lex(text, merge, diagnostics) == toks,
        toks.len() == 0 || !(toks.last() is Goto),
        d != 0,
        isize::MIN <= d <= isize::MAX,
    ensures
        lex(text + moves(d), merge, diagnostics) == toks.push(Token::Goto(d as isize)),
{
    lemma_lex_concat(Seq::empty(), text, moves(d), merge, diagnostics);
    lemma_lex_moves(toks, d, merge, diagnostics);
}

/// The token list of a text that ends in a run of `+` after a token that is
/// none.
proof fn lemma_lex_inc(text: Seq<char>, toks: Seq<Token>, n: u8, merge: Overflow, diagnostics: bool)
    requires
        lex(text, merge, diagnostics) == toks,
        toks.len() == 0 || !(toks.last() is Inc),
        n != 0,
    ensures
        lex(text + repeat('+', n as nat), merge, diagnostics) == toks.push(Token::Inc(n)),
{
    lemma_lex_concat(Seq::empty(), text, repeat('+', n as nat), merge, diagnostics);
    lemma_lex_run(toks, n as nat, merge, diagnostics);
}

proof fn lemma_zero_round_trip(merge: Overflow, diagnostics: bool)
    ensures
        optimized(lex(Token::Zero.text(), merge, diagnostics)) == Ok::<Seq<Token>, BracketError>(
            seq![Token::Zero],
        ),
{
    let c1 = seq!['[', '-'];
    let t1 = seq![Token::LBrack(0), Token::Dec(1)];
    lemma_lex_opening(merge, diagnostics);
    lemma_lex_closing(c1, t1, merge, diagnostics);
    assert(c1 + seq![']'] =~= Token::Zero.text());
    lemma_single_idiom(t1.push(Token::RBrack(0)), Token::Zero);
}

proof fn lemma_set_round_trip(v: u8, merge: Overflow, diagnostics: bool)
    requires
        v != 0,
    ensures
        optimized(lex(Token::SetTo(v).text(), merge, diagnostics)) == Ok::<Seq<Token>, BracketError>(
            seq![Token::SetTo(v)],
        ),
{
    let c1 = seq!['[', '-'];
    let c2 = c1 + seq![']'];
    let t1 = seq![Token::LBrack(0), Token::Dec(1)];
    let t2 = t1.push(Token::RBrack(0));
    lemma_lex_opening(merge, diagnostics);
    lemma_lex_closing(c1, t1, merge, diagnostics);
    lemma_lex_inc(c2, t2, v, merge, diagnostics);
    assert(c2 =~= seq!['[', '-', ']']);
    lemma_single_idiom(t2.push(Token::Inc(v)), Token::SetTo(v));
}

proof fn lemma_add_round_trip(d: isize, mul: u8, merge: Overflow, diagnostics: bool)
    requires
        Token::Add(d, mul).is_faithful_idiom(),
    ensures
        optimized(lex(Token::Add(d, mul).text(), merge, diagnostics)) == Ok::<Seq<Token>, BracketError>(
            seq![Token::Add(d, mul)],
        ),
{
    let c1 = seq!['[', '-'];
    let c2 = c1 + moves(d as int);
    let c3 = c2 + repeat('+', mul as nat);
    let c4 = c3 + moves(-d);
    let t1 = seq![Token::LBrack(0), Token::Dec(1)];
    let t2 = t1.push(Token::Goto(d));
    let t3 = t2.push(Token::Inc(mul));
    let t4 = t3.push(Token::Goto((-d) as isize));
    lemma_lex_opening(merge, diagnostics);
    lemma_lex_move(c1, t1, d as int, merge, diagnostics);
    lemma_lex_inc(c2, t2, mul, merge, diagnostics);
    lemma_lex_move(c3, t3, -d, merge, diagnostics);
    lemma_lex_closing(c4, t4, merge, diagnostics);
    lemma_single_idiom(t4.push(Token::RBrack(0)), Token::Add(d, mul));
}

proof fn lemma_sub_round_trip(d: isize, merge: Overflow, diagnostics: bool)
    requires
        Token::Sub(d).is_faithful_idiom(),
    ensures
        optimized(lex(Token::Sub(d).text(), merge, diagnostics)) == Ok::<Seq<Token>, BracketError>(
            seq![Token::Sub(d)],
        ),
{
    let c1 = seq!['['];
    let c2 = c1 + moves(d as int);
    let c3 = c2 + seq!['-'];
    let c4 = c3 + moves(-d);
    let c5 = c4 + seq!['-'];
    let t1 = seq![Token::LBrack(0)];
    let t2 = t1.push(Token::Goto(d));
    let t3 = t2.push(Token::Dec(1));
    let t4 = t3.push(Token::Goto((-d) as isize));
    let t5 = t4.push(Token::Dec(1));
    lemma_lex_opening(merge, diagnostics);
    lemma_lex_move(c1, t1, d as int, merge, diagnostics);
    lemma_lex_dec(c2, t2, merge, diagnostics);
    lemma_lex_move(c3, t3, -d, merge, diagnostics);
    lemma_lex_dec(c4, t4, merge, diagnostics);
    lemma_lex_closing(c5, t5, merge, diagnostics);
    assert(c5 + seq![']'] =~= Token::Sub(d).text());
    lemma_single_idiom(t5.push(Token::RBrack(0)), Token::Sub(d));
}

proof fn lemma_dup_round_trip(d1: isize, mul1: u8, d2: isize, mul2: u8, merge: Overflow, diagnostics: bool)
    requires
        Token::Dup(d1, mul1, d2, mul2).is_faithful_idiom(),
    ensures
        optimized(lex(Token::Dup(d1, mul1, d2, mul2).text(), merge, diagnostics)) == Ok::<
            Seq<Token>,
            BracketError,
        >(seq![Token::Dup(d1, mul1, d2, mul2)]),
{
    let c1 = seq!['[', '-'];
    let c2 = c1 + moves(d1 as int);
    let c3 = c2 + repeat('+', mul1 as nat);
    let c4 = c3 + moves(d2 as int);
    let c5 = c4 + repeat('+', mul2 as nat);
    let c6 = c5 + moves(-(d1 + d2));
    let t1 = seq![Token::LBrack(0), Token::Dec(1)];
    let t2 = t1.push(Token::Goto(d1));
    let t3 = t2.push(Token::Inc(mul1));
    let t4 = t3.push(Token::Goto(d2));
    let t5 = t4.push(Token::Inc(mul2));
    let t6 = t5.push(Token::Goto((-(d1 + d2)) as isize));
    lemma_lex_opening(merge, diagnostics);
    lemma_lex_move(c1, t1, d1 as int, merge, diagnostics);
    lemma_lex_inc(c2, t2, mul1, merge, diagnostics);
    lemma_lex_move(c3, t3, d2 as int, merge, diagnostics);
    lemma_lex_inc(c4, t4, mul2, merge, diagnostics);
    lemma_lex_move(c5, t5, -(d1 + d2), merge, diagnostics);
    lemma_lex_closing(c6, t6, merge, diagnostics);
    lemma_single_idiom(t6.push(Token::RBrack(0)), Token::Dup(d1, mul1, d2, mul2));
}

proof fn lemma_scan_round_trip(d: isize, merge: Overflow, diagnostics: bool)
    requires
        d != 0,
    ensures
        optimized(lex(Token::Scan(d).text(), merge, diagnostics)) == Ok::<Seq<Token>, BracketError>(
            seq![Token::Scan(d)],
        ),
{
    let c1 = seq!['['];
    let c2 = c1 + moves(d as int);
    let t1 = seq![Token::LBrack(0)];
    let t2 = t1.push(Token::Goto(d));
    lemma_lex_opening(merge, diagnostics);
    lemma_lex_move(c1, t1, d as int, merge, diagnostics);
    lemma_lex_closing(c2, t2, merge, diagnostics);
    lemma_single_idiom(t2.push(Token::RBrack(0)), Token::Scan(d));
}

proof fn lemma_end_round_trip(merge: Overflow, diagnostics: bool)
    ensures
        optimized(lex(Token::End.text(), merge, diagnostics)) == Ok::<Seq<Token>, BracketError>(
            seq![Token::End],
        ),
{
    let c1 = seq!['['];
    let t1 = seq![Token::LBrack(0)];
    lemma_lex_opening(merge, diagnostics);
    lemma_lex_closing(c1, t1, merge, diagnostics);
    assert(c1 + seq![']'] =~= Token::End.text());
    lemma_single_idiom(t1.push(Token::RBrack(0)), Token::End);
}

/// The text of an idiom's token, lexed and optimized, is that token alone:
/// the texts are faithful inverses of the idioms.
pub proof fn lemma_idiom_text_round_trip(t: Token, merge: Overflow, diagnostics: bool)
    requires
        t.is_faithful_idiom(),
    ensures
        optimized(lex(t.text(), merge, diagnostics)) == Ok::<Seq<Token>, BracketError>(seq![t]),
{
    match t {
        Token::Zero => lemma_zero_round_trip(merge, diagnostics),
        Token::SetTo(v) => lemma_set_round_trip(v, merge, diagnostics),
        Token::Add(d, mul) => lemma_add_round_trip(d, mul, merge, diagnostics),
        Token::Sub(d) => lemma_sub_round_trip(d, merge, diagnostics),
        Token::Dup(d1, mul1, d2, mul2) => lemma_dup_round_trip(d1, mul1, d2, mul2, merge, diagnostics),
        Token::Scan(d) => lemma_scan_round_trip(d, merge, diagnostics),
        Token::End => lemma_end_round_trip(merge, diagnostics),
        _ => {},
    }
}

} // verus!
