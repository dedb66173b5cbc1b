//! Pairs each closing delimiter with the nearest opening delimiter of its
//! family that is still unmatched.
//!
//! The matcher keeps a stack of the unmatched openers. A closer looks down
//! the stack for the first opener of its family, whatever lies above it, and
//! takes that one out alone. A closer that finds none is dropped; openers
//! that are never closed stay on the stack and give no pair.

use vstd::prelude::*;
use crate::lexer::bracket::{token_views, BracketKind, BracketToken, Token};

verus! {

/// An unmatched opener on the stack: the index of its token and the height
/// of the stack when it was pushed.
pub struct Frame {
    pub token: int,
    pub depth: nat,
}

/// A matched pair, by the indices of its two tokens.
pub struct Link {
    pub open: int,
    pub close: int,
    pub depth: nat,
}

/// The matcher between two tokens: the stack, bottom first, and the pairs
/// found so far, in the order in which they were closed.
pub struct MatchState {
    pub stack: Seq<Frame>,
    pub links: Seq<Link>,
}

/// The index in `stack` of the topmost frame whose token has kind `kind`, or
/// -1 where there is none.
pub open spec fn topmost(kinds: Seq<BracketKind>, stack: Seq<Frame>, kind: BracketKind) -> int
    decreases stack.len(),
{
    if stack.len() == 0 {
        -1
    } else if kinds[stack.last().token] == kind {
        stack.len() - 1
    } else {
        topmost(kinds, stack.drop_last(), kind)
    }
}

/// The state after token `i`, whose kind is `kinds[i]`, from the state `st`
/// before it.
pub open spec fn match_step(kinds: Seq<BracketKind>, st: MatchState, i: int) -> MatchState {
    if kinds[i].opens() {
        MatchState {
            stack: st.stack.push(Frame { token: i, depth: st.stack.len() }),
            links: st.links,
        }
    } else {
        let p = topmost(kinds, st.stack, kinds[i].opener_of());
        if p < 0 {
            st
        } else {
            MatchState {
                stack: st.stack.remove(p),
                links: st.links.push(
                    Link { open: st.stack[p].token, close: i, depth: st.stack[p].depth },
                ),
            }
        }
    }
}

/// The state after the first `n` tokens.
pub open spec fn match_run(kinds: Seq<BracketKind>, n: int) -> MatchState
    decreases n,
{
    if n <= 0 {
        MatchState { stack: Seq::empty(), links: Seq::empty() }
    } else {
        match_step(kinds, match_run(kinds, n - 1), n - 1)
    }
}

/// The pairs among tokens of the kinds `kinds`.
pub open spec fn match_links(kinds: Seq<BracketKind>) -> Seq<Link> {
    match_run(kinds, kinds.len() as int).links
}

/// The kinds of the tokens `ts`.
pub open spec fn token_kinds(ts: Seq<Token>) -> Seq<BracketKind> {
    ts.map_values(|t: Token| t.kind)
}

/// A pair as mathematics sees it.
pub struct Pair {
    pub kind: BracketKind,
    pub depth: nat,
    pub open: Token,
    pub close: Token,
}

/// The pair that `l` links among the tokens `ts`.
pub open spec fn pair_of(ts: Seq<Token>, l: Link) -> Pair {
    Pair { kind: ts[l.open].kind, depth: l.depth, open: ts[l.open], close: ts[l.close] }
}

/// The pairs among the tokens `ts`, in the order in which they are closed.
pub open spec fn match_pairs(ts: Seq<Token>) -> Seq<Pair> {
    match_links(token_kinds(ts)).map_values(|l: Link| pair_of(ts, l))
}

/// A matched pair: the kind of its opener, its depth, and its two tokens.
#[derive(Clone, Copy, Debug, PartialEq, Eq)]
pub struct BracketPair {
    pub kind: BracketKind,
    pub depth: usize,
    pub open: BracketToken,
    pub close: BracketToken,
}

impl View for BracketPair {
    type V = Pair;

    open spec fn view(&self) -> Pair {
        Pair { kind: self.kind, depth: self.depth as nat, open: self.open@, close: self.close@ }
    }
}

/// The pairs that a sequence of records stands for.
pub open spec fn pair_views(v: Seq<BracketPair>) -> Seq<Pair> {
    v.map_values(|p: BracketPair| p@)
}

/// The frames that a stack of (token index, depth) stands for.
pub open spec fn frame_views(v: Seq<(usize, usize)>) -> Seq<Frame> {
    v.map_values(|f: (usize, usize)| Frame { token: f.0 as int, depth: f.1 as nat })
}

/// Looks down `stack` for the topmost frame whose token has kind `kind`.
fn find_topmost(tokens: &[BracketToken], stack: &Vec<(usize, usize)>, kind: BracketKind) -> (found:
    Option<usize>)
    requires
        forall|j: int| 0 <= j < stack@.len() ==> (#[trigger] stack@[j]).0 < tokens@.len(),
    ensures
        match found {
            Some(p) => p == topmost(token_kinds(token_views(tokens@)), frame_views(stack@), kind),
            None => topmost(token_kinds(token_views(tokens@)), frame_views(stack@), kind) < 0,
        },
        found matches Some(p) ==> p < stack@.len(),
{
    let ghost kinds = token_kinds(token_views(tokens@));
    let ghost frames = frame_views(stack@);
    let mut j: usize = stack.len();
    assert(frames.take(j as int) =~= frames);
    while j > 0
        invariant
            j <= stack@.len(),
            kinds == token_kinds(token_views(tokens@)),
            frames == frame_views(stack@),
            forall|j: int| 0 <= j < stack@.len() ==> (#[trigger] stack@[j]).0 < tokens@.len(),
            topmost(kinds, frames, kind) == topmost(kinds, frames.take(j as int), kind),
        decreases j,
    {
        j -= 1;
        let frame = stack[j];
        proof {
            let upto = frames.take(j + 1);
            assert(upto.last() == frames[j as int]);
            assert(upto.drop_last() =~= frames.take(j as int));
            assert(kinds[frame.0 as int] == tokens@[frame.0 as int].kind);
        }
        if tokens[frame.0].kind == kind {
            return Some(j);
        }
    }
    proof {
        assert(frames.take(0).len() == 0);
    }
    None
}

/// Matches the tokens and returns the pairs, in the order in which they are
/// closed.
pub fn paren_parse(tokens: &[BracketToken]) -> (pairs: Vec<BracketPair>)
    ensures
        pair_views(pairs@) == match_pairs(token_views(tokens@)),
{
    let ghost ts = token_views(tokens@);
    let ghost kinds = token_kinds(ts);
    let mut stack: Vec<(usize, usize)> = Vec::new();
    let mut pairs: Vec<BracketPair> = Vec::new();
    let mut i: usize = 0;
    while i < tokens.len()
        invariant
            i <= tokens@.len(),
            ts == token_views(tokens@),
            kinds == token_kinds(ts),
            stack@.len() <= i,
            forall|j: int| 0 <= j < stack@.len() ==> (#[trigger] stack@[j]).0 < i,
            frame_views(stack@) == match_run(kinds, i as int).stack,
            pair_views(pairs@) == match_run(kinds, i as int).links.map_values(
                |l: Link| pair_of(ts, l),
            ),
        decreases tokens@.len() - i,
    {
        let token = tokens[i];
        let ghost before = match_run(kinds, i as int);
        assert(kinds[i as int] == token.kind);
        if token.kind.is_open() {
            let ghost frames = frame_views(stack@);
            stack.push((i, stack.len()));
            proof {
                assert(frame_views(stack@) =~= frames.push(
                    Frame { token: i as int, depth: frames.len() },
                ));
            }
        } else {
            match find_topmost(tokens, &stack, token.kind.opener()) {
                Some(p) => {
                    let ghost frames = frame_views(stack@);
                    let ghost views = pair_views(pairs@);
                    let (open, depth) = stack.remove(p);
                    let pair = BracketPair {
                        kind: tokens[open].kind,
                        depth,
                        open: tokens[open],
                        close: token,
                    };
                    pairs.push(pair);
                    proof {
                        let link = Link { open: open as int, close: i as int, depth: depth as nat };
                        assert(frame_views(stack@) =~= frames.remove(p as int));
                        assert(pair@ == pair_of(ts, link));
                        assert(pair_views(pairs@) =~= views.push(pair@));
                        assert(before.links.push(link).map_values(|l: Link| pair_of(ts, l))
                            =~= views.push(pair@));
                    }
                },
                None => {},
            }
        }
        i += 1;
    }
    pairs
}

} // verus!
