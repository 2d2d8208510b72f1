//! What makes a program sound, brackets that hold their partners and no
//! dead tokens, and the proofs that the optimizer's programs are sound.

use crate::token::{idiom_at, is_dead, optimize_from, optimized, Token};
use vstd::prelude::*;

verus! {

/// Every bracket of the program `p` holds the index of its partner: a left
/// bracket that of a right bracket further on, which holds the left one's
/// index; a right bracket that of a left bracket before it, which holds the
/// right one's index. And the brackets nest: a loop that opens inside
/// another one closes inside it.
pub open spec fn well_bracketed(p: Seq<Token>) -> bool {
    &&& forall|i: int|
        0 <= i < p.len() ==> (#[trigger] p[i] matches Token::LBrack(t) ==> {
            &&& i < t < p.len()
            &&& p[t as int] == Token::RBrack(i as usize)
        })
    &&& forall|i: int|
        0 <= i < p.len() ==> (#[trigger] p[i] matches Token::RBrack(t) ==> {
            &&& t < i
            &&& p[t as int] == Token::LBrack(i as usize)
        })
    &&& forall|i: int, j: int|
        {
            &&& 0 <= i < j < p.len()
            &&& #[trigger] p[i] is LBrack
            &&& #[trigger] p[j] is LBrack
            &&& j < p[i]->LBrack_0
        } ==> p[j]->LBrack_0 < p[i]->LBrack_0
}

/// The left bracket at index `j` has its partner.
spec fn closed_at(p: Seq<Token>, j: int) -> bool {
    &&& 0 <= j < p.len()
    &&& p[j] is LBrack
    &&& j < p[j]->LBrack_0 < p.len()
    &&& p[p[j]->LBrack_0 as int] == Token::RBrack(j as usize)
}

/// What holds of the program so far and of the open left brackets at every
/// point of the optimizer's pass.
spec fn pass_inv(out: Seq<Token>, open: Seq<usize>) -> bool {
    &&& forall|k: int|
        0 <= k < open.len() ==> #[trigger] open[k] < out.len() && out[open[k] as int] is LBrack
            && !closed_at(out, open[k] as int)
    &&& forall|k: int, l: int| 0 <= k < l < open.len() ==> #[trigger] open[k] < #[trigger] open[l]
    &&& forall|j: int|
        0 <= j < out.len() && #[trigger] out[j] is LBrack ==> closed_at(out, j) || open.contains(
            j as usize,
        )
    &&& forall|j: int|
        0 <= j < out.len() ==> (#[trigger] out[j] matches Token::RBrack(t) ==> {
            &&& t < j
            &&& out[t as int] == Token::LBrack(j as usize)
        })
    &&& forall|j: int, k: int|
        #[trigger] closed_at(out, j) && 0 <= k < open.len() ==> #[trigger] open[k] < j || open[k]
            > out[j]->LBrack_0
    &&& forall|i: int, j: int|
        #[trigger] closed_at(out, i) && #[trigger] closed_at(out, j) && i < j < out[i]->LBrack_0
            ==> out[j]->LBrack_0 < out[i]->LBrack_0
}

/// Writing a token that is no bracket keeps the invariant.
proof fn lemma_write_plain(out: Seq<Token>, open: Seq<usize>, t: Token)
    requires
        pass_inv(out, open),
        !(t is LBrack),
        !(t is RBrack),
    ensures
        pass_inv(out.push(t), open),
{
    let next = out.push(t);
    assert forall|j: int| closed_at(next, j) implies closed_at(out, j) by {}
    assert forall|j: int| closed_at(out, j) implies closed_at(next, j) by {}
}

/// Writing a left bracket and taking it as the innermost open one keeps the
/// invariant.
proof fn lemma_write_left(out: Seq<Token>, open: Seq<usize>, t: Token)
    requires
        pass_inv(out, open),
        t is LBrack,
        out.len() < usize::MAX,
    ensures
        pass_inv(out.push(t), open.push(out.len() as usize)),
{
    let n = out.len() as int;
    let next = out.push(t);
    let stack = open.push(n as usize);
    assert forall|j: int| closed_at(next, j) implies closed_at(out, j) by {
        if j == n {
            let u = next[j]->LBrack_0 as int;
            assert(next[u] == Token::RBrack(j as usize));
            assert(out[u] == Token::RBrack(j as usize));
            assert(false);
        }
    }
    assert forall|j: int| closed_at(out, j) implies closed_at(next, j) by {}
    assert forall|j: int| 0 <= j < next.len() && #[trigger] next[j] is LBrack implies closed_at(
        next,
        j,
    ) || stack.contains(j as usize) by {
        if j == n {
            assert(stack[open.len() as int] == j as usize);
        } else if !closed_at(out, j) {
            let k = choose|k: int| 0 <= k < open.len() && open[k] == j as usize;
            assert(stack[k] == j as usize);
        }
    }
}

/// Closing the innermost open left bracket keeps the invariant.
proof fn lemma_write_right(out: Seq<Token>, open: Seq<usize>)
    requires
        pass_inv(out, open),
        open.len() > 0,
        out.len() < usize::MAX,
    ensures
        pass_inv(
            out.update(open.last() as int, Token::LBrack(out.len() as usize)).push(
                Token::RBrack(open.last()),
            ),
            open.drop_last(),
        ),
{
    let n = out.len() as int;
    let left = open.last() as int;
    let next = out.update(left, Token::LBrack(n as usize)).push(Token::RBrack(left as usize));
    let stack = open.drop_last();
    assert(open[open.len() - 1] == left);
    assert(closed_at(next, left));
    assert forall|j: int| closed_at(out, j) implies closed_at(next, j) && j != left by {
        let u = out[j]->LBrack_0 as int;
        assert(out[u] is RBrack);
    }
    assert forall|j: int| closed_at(next, j) && j != left implies closed_at(out, j) by {
        let u = next[j]->LBrack_0 as int;
        assert(u != left);
        if u == n {
            assert(false);
        }
    }
    assert forall|k: int| 0 <= k < stack.len() implies #[trigger] stack[k] < next.len()
        && next[stack[k] as int] is LBrack && !closed_at(next, stack[k] as int) by {
        assert(stack[k] == open[k]);
        assert(open[k] < open[open.len() - 1]);
    }
    assert forall|k: int, l: int| 0 <= k < l < stack.len() implies #[trigger] stack[k]
        < #[trigger] stack[l] by {
        assert(stack[k] == open[k]);
        assert(stack[l] == open[l]);
    }
    assert forall|j: int| 0 <= j < next.len() && #[trigger] next[j] is LBrack implies closed_at(
        next,
        j,
    ) || stack.contains(j as usize) by {
        if j != left && !closed_at(next, j) {
            assert(!closed_at(out, j));
            let k = choose|k: int| 0 <= k < open.len() && open[k] == j as usize;
            assert(stack[k] == j as usize);
        }
    }
    assert forall|j: int| 0 <= j < next.len() implies (#[trigger] next[j] matches Token::RBrack(t)
        ==> t < j && next[t as int] == Token::LBrack(j as usize)) by {
        if j < n && next[j] is RBrack {
            let t = out[j]->RBrack_0 as int;
            assert(closed_at(out, t));
        }
    }
    assert forall|j: int, k: int| #[trigger]
        closed_at(next, j) && 0 <= k < stack.len() implies #[trigger] stack[k] < j || stack[k]
        > next[j]->LBrack_0 by {
        assert(stack[k] == open[k]);
        assert(open[k] < open[open.len() - 1]);
    }
    assert forall|i: int, j: int|
        {
            &&& #[trigger] closed_at(next, i)
            &&& #[trigger] closed_at(next, j)
            &&& i < j < next[i]->LBrack_0
        } implies next[j]->LBrack_0 < next[i]->LBrack_0 by {
        if i != left && j == left {
            assert(closed_at(out, i));
            assert(open[open.len() - 1] < i || open[open.len() - 1] > out[i]->LBrack_0);
        }
    }
}

/// No token of the program `p` is a move, or a run of `+` or `-`, that
/// changes nothing.
pub open spec fn free_of_dead_tokens(p: Seq<Token>) -> bool {
    forall|i: int| 0 <= i < p.len() ==> !is_dead(#[trigger] p[i])
}

/// From a point of the pass at which the invariant holds and the program
/// so far holds no dead token, the pass ends in a program with sound
/// brackets and without dead tokens, or fails.
proof fn lemma_pass_sound(toks: Seq<Token>, i: int, out: Seq<Token>, open: Seq<usize>)
    requires
        0 <= i,
        out.len() <= i,
        toks.len() <= usize::MAX,
        pass_inv(out, open),
        free_of_dead_tokens(out),
    ensures
        optimize_from(toks, i, out, open) matches Ok(p) ==> well_bracketed(p)
            && free_of_dead_tokens(p),
    decreases toks.len() - i,
{
    if i >= toks.len() {
        if open.len() == 0 {
            assert forall|j: int|
                0 <= j < out.len() && #[trigger] out[j] is LBrack implies closed_at(out, j) by {}
        }
    } else if idiom_at(toks, i) is Some {
        let (t, n) = idiom_at(toks, i)->0;
        lemma_write_plain(out, open, t);
        lemma_pass_sound(toks, i + n, out.push(t), open);
    } else if toks[i] is LBrack {
        lemma_write_left(out, open, toks[i]);
        lemma_pass_sound(toks, i + 1, out.push(toks[i]), open.push(out.len() as usize));
    } else if toks[i] is RBrack {
        if open.len() > 0 {
            let next = out.update(open.last() as int, Token::LBrack(out.len() as usize)).push(
                Token::RBrack(open.last()),
            );
            lemma_write_right(out, open);
            assert(open[open.len() - 1] < out.len());
            assert forall|j: int| 0 <= j < next.len() implies !is_dead(#[trigger] next[j]) by {
                if j < out.len() && j != open.last() {
                    assert(next[j] == out[j]);
                }
            }
            lemma_pass_sound(toks, i + 1, next, open.drop_last());
        }
    } else if is_dead(toks[i]) {
        lemma_pass_sound(toks, i + 1, out, open);
    } else {
        lemma_write_plain(out, open, toks[i]);
        lemma_pass_sound(toks, i + 1, out.push(toks[i]), open);
    }
}

/// No program that the optimizer gives holds a dead token.
pub proof fn lemma_optimized_free_of_dead_tokens(toks: Seq<Token>)
    requires
        toks.len() <= usize::MAX,
    ensures
        optimized(toks) matches Ok(p) ==> free_of_dead_tokens(p),
{
    lemma_pass_sound(toks, 0, Seq::empty(), Seq::empty());
}

/// Every program that the optimizer gives has sound brackets.
pub proof fn lemma_optimized_well_bracketed(toks: Seq<Token>)
    requires
        toks.len() <= usize::MAX,
    ensures
        optimized(toks) matches Ok(p) ==> well_bracketed(p),
{
    lemma_pass_sound(toks, 0, Seq::empty(), Seq::empty());
}

} // verus!
