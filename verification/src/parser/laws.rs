//! What holds of the pairs that the matcher finds, whatever the tokens.

use vstd::prelude::*;
use crate::lexer::bracket::{BracketFamily, BracketKind};
use crate::parser::bracket::{match_links, match_run, match_step, topmost, Frame, Link, MatchState};

verus! {

/// Whether `l` links, among the first `n` tokens, an opener with a later
/// closer of its family.
pub open spec fn link_ok(kinds: Seq<BracketKind>, n: int, l: Link) -> bool {
    &&& 0 <= l.open < l.close < n
    &&& kinds[l.open].opens()
    &&& !kinds[l.close].opens()
    &&& kinds[l.close].opener_of() == kinds[l.open]
}

/// Whether token `k` is on `stack`.
pub open spec fn on_stack(stack: Seq<Frame>, k: int) -> bool {
    exists|j: int| 0 <= j < stack.len() && (#[trigger] stack[j]).token == k
}

/// Whether token `k` is the opener of one of `links`.
pub open spec fn opens_link(links: Seq<Link>, k: int) -> bool {
    exists|j: int| 0 <= j < links.len() && (#[trigger] links[j]).open == k
}

/// What holds of the matcher's state after the first `n` tokens.
pub open spec fn well_formed(kinds: Seq<BracketKind>, n: int, st: MatchState) -> bool {
    // the stack holds openers among the first n tokens, in the order of the text
    &&& forall|j: int|
        0 <= j < st.stack.len() ==> 0 <= (#[trigger] st.stack[j]).token < n
            && kinds[st.stack[j].token].opens()
    &&& forall|i: int, j: int|
        0 <= i < j < st.stack.len() ==> (#[trigger] st.stack[i]).token < (
        #[trigger] st.stack[j]).token
    // each pair links an opener with a later closer of its family
    &&& forall|j: int| 0 <= j < st.links.len() ==> link_ok(kinds, n, #[trigger] st.links[j])
    // the pairs stand in the order of their closers
    &&& forall|i: int, j: int|
        0 <= i < j < st.links.len() ==> (#[trigger] st.links[i]).close < (
        #[trigger] st.links[j]).close
    // no opener is in two pairs, or in a pair and on the stack
    &&& forall|i: int, j: int|
        0 <= i < j < st.links.len() ==> (#[trigger] st.links[i]).open != (
        #[trigger] st.links[j]).open
    &&& forall|i: int, j: int|
        0 <= i < st.stack.len() && 0 <= j < st.links.len() ==> (#[trigger] st.stack[i]).token
            != (#[trigger] st.links[j]).open
    // every opener is on the stack or in a pair
    &&& forall|k: int|
        0 <= k < n && #[trigger] kinds[k].opens() ==> on_stack(st.stack, k) || opens_link(
            st.links,
            k,
        )
}

/// Where `topmost` points: at a frame of the kind asked for, with none of
/// that kind above it; or nowhere, and then no frame is of that kind.
pub proof fn lemma_topmost(kinds: Seq<BracketKind>, stack: Seq<Frame>, kind: BracketKind)
    ensures
        -1 <= topmost(kinds, stack, kind) < stack.len(),
        topmost(kinds, stack, kind) >= 0 ==> kinds[stack[topmost(kinds, stack, kind)].token]
            == kind,
        forall|q: int|
            topmost(kinds, stack, kind) < q < stack.len() ==> kinds[(#[trigger] stack[q]).token]
                != kind,
    decreases stack.len(),
{
    if stack.len() > 0 && kinds[stack.last().token] != kind {
        lemma_topmost(kinds, stack.drop_last(), kind);
        assert forall|q: int| topmost(kinds, stack, kind) < q < stack.len() implies kinds[(
        #[trigger] stack[q]).token] != kind by {
            if q < stack.len() - 1 {
                assert(stack[q] == stack.drop_last()[q]);
            }
        }
    }
}

/// The state after any number of tokens is well formed.
pub proof fn lemma_run_well_formed(kinds: Seq<BracketKind>, n: int)
    requires
        0 <= n <= kinds.len(),
    ensures
        well_formed(kinds, n, match_run(kinds, n)),
    decreases n,
{
    if n > 0 {
        lemma_run_well_formed(kinds, n - 1);
        let i = n - 1;
        let st = match_run(kinds, i);
        let after = match_step(kinds, st, i);
        if kinds[i].opens() {
            assert forall|k: int| 0 <= k < n && #[trigger] kinds[k].opens() implies on_stack(
                after.stack,
                k,
            ) || opens_link(after.links, k) by {
                if k == i {
                    assert(after.stack[st.stack.len() as int].token == k);
                } else if on_stack(st.stack, k) {
                    let j = choose|j: int|
                        0 <= j < st.stack.len() && (#[trigger] st.stack[j]).token == k;
                    assert(after.stack[j].token == k);
                }
            }
        } else {
            let p = topmost(kinds, st.stack, kinds[i].opener_of());
            lemma_topmost(kinds, st.stack, kinds[i].opener_of());
            if p >= 0 {
                // what stays on the stack keeps its order, and the new pair is closed last
                assert forall|k: int| 0 <= k < n && #[trigger] kinds[k].opens() implies on_stack(
                    after.stack,
                    k,
                ) || opens_link(after.links, k) by {
                    if on_stack(st.stack, k) {
                        let j = choose|j: int|
                            0 <= j < st.stack.len() && (#[trigger] st.stack[j]).token == k;
                        if j < p {
                            assert(after.stack[j].token == k);
                        } else if j == p {
                            assert(after.links[st.links.len() as int].open == k);
                        } else {
                            assert(after.stack[j - 1].token == k);
                        }
                    } else {
                        let j = choose|j: int|
                            0 <= j < st.links.len() && (#[trigger] st.links[j]).open == k;
                        assert(after.links[j].open == k);
                    }
                }
            }
        }
    }
}

/// The pairs found after `m` tokens stay, in their places, when more tokens
/// are read, and the pairs found later are closed by later tokens.
pub proof fn lemma_links_grow(kinds: Seq<BracketKind>, m: int, n: int)
    requires
        0 <= m <= n <= kinds.len(),
    ensures
        match_run(kinds, m).links.len() <= match_run(kinds, n).links.len(),
        forall|j: int|
            0 <= j < match_run(kinds, m).links.len() ==> (#[trigger] match_run(kinds, n).links[j])
                == match_run(kinds, m).links[j],
        forall|j: int|
            match_run(kinds, m).links.len() <= j < match_run(kinds, n).links.len() ==> m <= (
            #[trigger] match_run(kinds, n).links[j]).close,
    decreases n - m,
{
    if m < n {
        lemma_links_grow(kinds, m, n - 1);
        lemma_run_well_formed(kinds, n);
    }
}

/// How a pair came about: when its closer was read, its opener was the
/// topmost of its kind on the stack, and its depth was the one of that
/// frame.
pub proof fn lemma_link_origin(kinds: Seq<BracketKind>, n: int, j: int)
    requires
        0 <= n <= kinds.len(),
        0 <= j < match_run(kinds, n).links.len(),
    ensures
        ({
            let l = match_run(kinds, n).links[j];
            let before = match_run(kinds, l.close);
            let p = topmost(kinds, before.stack, kinds[l.close].opener_of());
            &&& 0 <= l.close < n
            &&& !kinds[l.close].opens()
            &&& 0 <= p < before.stack.len()
            &&& before.stack[p].token == l.open
            &&& before.stack[p].depth == l.depth
            &&& before.links.len() == j
        }),
    decreases n,
{
    let st = match_run(kinds, n - 1);
    if j < st.links.len() {
        lemma_link_origin(kinds, n - 1, j);
    } else {
        lemma_topmost(kinds, st.stack, kinds[n - 1].opener_of());
    }
}

/// Every pair links an opener with a later closer of the same family. The
/// pairs stand in the order of their closers, and no token is in two pairs.
pub proof fn lemma_pairs_sound(kinds: Seq<BracketKind>)
    ensures
        forall|j: int|
            0 <= j < match_links(kinds).len() ==> link_ok(
                kinds,
                kinds.len() as int,
                #[trigger] match_links(kinds)[j],
            ),
        forall|i: int, j: int|
            0 <= i < j < match_links(kinds).len() ==> (#[trigger] match_links(kinds)[i]).close < (
            #[trigger] match_links(kinds)[j]).close,
        forall|i: int, j: int|
            0 <= i < j < match_links(kinds).len() ==> (#[trigger] match_links(kinds)[i]).open != (
            #[trigger] match_links(kinds)[j]).open,
{
    lemma_run_well_formed(kinds, kinds.len() as int);
}

/// A closer takes the nearest opener that is left: every opener of the
/// pair's kind between the two ends of a pair is in a pair that was closed
/// before.
pub proof fn lemma_nearest_opener(kinds: Seq<BracketKind>, j: int, k: int) -> (i: int)
    requires
        0 <= j < match_links(kinds).len(),
        match_links(kinds)[j].open < k < match_links(kinds)[j].close,
        kinds[k] == kinds[match_links(kinds)[j].open],
    ensures
        0 <= i < j,
        match_links(kinds)[i].open == k,
        match_links(kinds)[i].close < match_links(kinds)[j].close,
{
    let n = kinds.len() as int;
    let l = match_links(kinds)[j];
    lemma_run_well_formed(kinds, n);
    lemma_link_origin(kinds, n, j);
    let before = match_run(kinds, l.close);
    let kind = kinds[l.close].opener_of();
    let p = topmost(kinds, before.stack, kind);
    lemma_topmost(kinds, before.stack, kind);
    lemma_run_well_formed(kinds, l.close);
    lemma_links_grow(kinds, l.close, n);
    assert(kinds[k].opens());
    if on_stack(before.stack, k) {
        let q = choose|q: int|
            0 <= q < before.stack.len() && (#[trigger] before.stack[q]).token == k;
        if q < p {
            assert(before.stack[q].token < before.stack[p].token);
        }
        assert(false);
    }
    let i = choose|i: int| 0 <= i < before.links.len() && (#[trigger] before.links[i]).open == k;
    assert(match_run(kinds, n).links[i] == before.links[i]);
    i
}

/// A closer that is in no pair found no opener: every opener of its family
/// before it is in a pair that was closed before it.
pub proof fn lemma_dropped_closer(kinds: Seq<BracketKind>, c: int, k: int) -> (i: int)
    requires
        0 <= k < c < kinds.len(),
        !kinds[c].opens(),
        kinds[k] == kinds[c].opener_of(),
        forall|j: int|
            0 <= j < match_links(kinds).len() ==> (#[trigger] match_links(kinds)[j]).close != c,
    ensures
        0 <= i < match_links(kinds).len(),
        match_links(kinds)[i].open == k,
        match_links(kinds)[i].close < c,
{
    let n = kinds.len() as int;
    let before = match_run(kinds, c);
    let kind = kinds[c].opener_of();
    let p = topmost(kinds, before.stack, kind);
    lemma_topmost(kinds, before.stack, kind);
    lemma_run_well_formed(kinds, c);
    lemma_links_grow(kinds, c, n);
    lemma_links_grow(kinds, c + 1, n);
    if p >= 0 {
        let after = match_run(kinds, c + 1);
        assert(after.links[before.links.len() as int].close == c);
        assert(match_links(kinds)[before.links.len() as int].close == c);
        assert(false);
    }
    assert(kinds[k].opens());
    if on_stack(before.stack, k) {
        let q = choose|q: int|
            0 <= q < before.stack.len() && (#[trigger] before.stack[q]).token == k;
        assert(false);
    }
    let i = choose|i: int| 0 <= i < before.links.len() && (#[trigger] before.links[i]).open == k;
    assert(match_run(kinds, n).links[i] == before.links[i]);
    i
}

/// An opener that is in no pair stays on the stack from the token after it
/// on.
pub proof fn lemma_unmatched_stays(kinds: Seq<BracketKind>, o: int, m: int)
    requires
        0 <= o < m <= kinds.len(),
        kinds[o].opens(),
        forall|j: int|
            0 <= j < match_links(kinds).len() ==> (#[trigger] match_links(kinds)[j]).open != o,
    ensures
        on_stack(match_run(kinds, m).stack, o),
{
    let n = kinds.len() as int;
    lemma_run_well_formed(kinds, m);
    lemma_links_grow(kinds, m, n);
    let st = match_run(kinds, m);
    if opens_link(st.links, o) {
        let i = choose|i: int| 0 <= i < st.links.len() && (#[trigger] st.links[i]).open == o;
        assert(match_links(kinds)[i] == st.links[i]);
        assert(false);
    }
}

/// Past an opener that is in no pair, every closer of its family is paired,
/// with an opener that stands after it.
pub proof fn lemma_unmatched_opener(kinds: Seq<BracketKind>, o: int, c: int) -> (i: int)
    requires
        0 <= o < c < kinds.len(),
        kinds[o].opens(),
        !kinds[c].opens(),
        kinds[c].opener_of() == kinds[o],
        forall|j: int|
            0 <= j < match_links(kinds).len() ==> (#[trigger] match_links(kinds)[j]).open != o,
    ensures
        0 <= i < match_links(kinds).len(),
        match_links(kinds)[i].close == c,
        o < match_links(kinds)[i].open,
{
    let n = kinds.len() as int;
    let before = match_run(kinds, c);
    let kind = kinds[c].opener_of();
    let p = topmost(kinds, before.stack, kind);
    lemma_topmost(kinds, before.stack, kind);
    lemma_run_well_formed(kinds, c);
    lemma_links_grow(kinds, c + 1, n);
    lemma_unmatched_stays(kinds, o, c);
    let q = choose|q: int| 0 <= q < before.stack.len() && (#[trigger] before.stack[q]).token == o;
    assert(q <= p);
    if q < p {
        assert(before.stack[q].token < before.stack[p].token);
    }
    let i = before.links.len() as int;
    let after = match_run(kinds, c + 1);
    assert(after.links[i].close == c);
    assert(match_run(kinds, n).links[i] == after.links[i]);
    i
}

/// Number of tokens of kind `kind` among the first `n`.
pub open spec fn count_kind(kinds: Seq<BracketKind>, n: int, kind: BracketKind) -> nat
    decreases n,
{
    if n <= 0 {
        0
    } else if kinds[n - 1] == kind {
        count_kind(kinds, n - 1, kind) + 1
    } else {
        count_kind(kinds, n - 1, kind)
    }
}

/// By how many the closers of family `f` exceed its openers, among the
/// first `n` tokens.
pub open spec fn excess(kinds: Seq<BracketKind>, n: int, f: BracketFamily) -> int {
    count_kind(kinds, n, f.closing()) - count_kind(kinds, n, f.opening())
}

/// The highest excess of closers of family `f` over its openers that a
/// prefix of the first `n` tokens shows: the number of closers of the family
/// that come when all its openers before them are used up.
pub open spec fn deficit(kinds: Seq<BracketKind>, n: int, f: BracketFamily) -> nat
    decreases n,
{
    if n <= 0 {
        0
    } else if excess(kinds, n, f) > deficit(kinds, n - 1, f) {
        excess(kinds, n, f) as nat
    } else {
        deficit(kinds, n - 1, f)
    }
}

/// Number of pairs among `links` whose opener has kind `kind`.
pub open spec fn count_links(kinds: Seq<BracketKind>, links: Seq<Link>, kind: BracketKind) -> nat
    decreases links.len(),
{
    if links.len() == 0 {
        0
    } else if kinds[links.last().open] == kind {
        count_links(kinds, links.drop_last(), kind) + 1
    } else {
        count_links(kinds, links.drop_last(), kind)
    }
}

/// Number of frames of `stack` whose token has kind `kind`.
pub open spec fn count_frames(kinds: Seq<BracketKind>, stack: Seq<Frame>, kind: BracketKind) -> nat
    decreases stack.len(),
{
    if stack.len() == 0 {
        0
    } else if kinds[stack.last().token] == kind {
        count_frames(kinds, stack.drop_last(), kind) + 1
    } else {
        count_frames(kinds, stack.drop_last(), kind)
    }
}

/// Taking a frame out of a stack removes it from the count of the frames of
/// its kind, and from no other count.
pub proof fn lemma_count_frames_remove(
    kinds: Seq<BracketKind>,
    stack: Seq<Frame>,
    p: int,
    kind: BracketKind,
)
    requires
        0 <= p < stack.len(),
    ensures
        count_frames(kinds, stack, kind) == count_frames(kinds, stack.remove(p), kind) + (if kinds[stack[p].token]
            == kind {
            1nat
        } else {
            0nat
        }),
    decreases stack.len(),
{
    if p == stack.len() - 1 {
        assert(stack.remove(p) =~= stack.drop_last());
    } else {
        lemma_count_frames_remove(kinds, stack.drop_last(), p, kind);
        assert(stack.remove(p).drop_last() =~= stack.drop_last().remove(p));
        assert(stack.remove(p).last() == stack.last());
        assert(stack.drop_last()[p] == stack[p]);
    }
}

/// `topmost` finds a frame of a kind exactly when the stack holds one.
pub proof fn lemma_topmost_counts(kinds: Seq<BracketKind>, stack: Seq<Frame>, kind: BracketKind)
    ensures
        topmost(kinds, stack, kind) >= 0 <==> count_frames(kinds, stack, kind) > 0,
    decreases stack.len(),
{
    if stack.len() > 0 {
        lemma_topmost_counts(kinds, stack.drop_last(), kind);
    }
}

/// The count of the pairs and of the frames of family `f` after `n` tokens.
proof fn lemma_counts(kinds: Seq<BracketKind>, n: int, f: BracketFamily)
    requires
        0 <= n <= kinds.len(),
    ensures
        count_links(kinds, match_run(kinds, n).links, f.opening()) + deficit(kinds, n, f)
            == count_kind(kinds, n, f.closing()),
        count_frames(kinds, match_run(kinds, n).stack, f.opening()) + count_kind(
            kinds,
            n,
            f.closing(),
        ) == count_kind(kinds, n, f.opening()) + deficit(kinds, n, f),
    decreases n,
{
    if n > 0 {
        lemma_counts(kinds, n - 1, f);
        let i = n - 1;
        let st = match_run(kinds, i);
        let after = match_step(kinds, st, i);
        if kinds[i].opens() {
            assert(after.stack.drop_last() =~= st.stack);
        } else {
            let kind = kinds[i].opener_of();
            let p = topmost(kinds, st.stack, kind);
            lemma_topmost(kinds, st.stack, kind);
            lemma_topmost_counts(kinds, st.stack, kind);
            if p >= 0 {
                lemma_count_frames_remove(kinds, st.stack, p, f.opening());
                assert(after.links.drop_last() =~= st.links);
            }
        }
    }
}

/// How many pairs a family gets: as many as it has closers that find an
/// opener, that is, its closers less the deficit. This is the lesser of the
/// counts of its openers and of its closers exactly when either no closer
/// of the family comes too early, or every one of its openers is closed.
pub proof fn lemma_pair_count(kinds: Seq<BracketKind>, f: BracketFamily)
    ensures
        ({
            let n = kinds.len() as int;
            let pairs = count_links(kinds, match_links(kinds), f.opening());
            let openers = count_kind(kinds, n, f.opening());
            let closers = count_kind(kinds, n, f.closing());
            let lesser = if openers <= closers {
                openers
            } else {
                closers
            };
            &&& pairs + deficit(kinds, n, f) == closers
            &&& pairs <= openers
            &&& pairs == lesser <==> deficit(kinds, n, f) == 0 || openers + deficit(kinds, n, f)
                == closers
        }),
{
    lemma_counts(kinds, kinds.len() as int, f);
}

/// From the token after its opener up to its closer, a pair's opener is on
/// the stack, with the pair's depth.
pub proof fn lemma_on_stack_between(kinds: Seq<BracketKind>, j: int, m: int) -> (q: int)
    requires
        0 <= j < match_links(kinds).len(),
        match_links(kinds)[j].open < m <= match_links(kinds)[j].close,
    ensures
        0 <= q < match_run(kinds, m).stack.len(),
        match_run(kinds, m).stack[q] == (Frame {
            token: match_links(kinds)[j].open,
            depth: match_links(kinds)[j].depth,
        }),
    decreases match_links(kinds)[j].close - m,
{
    let n = kinds.len() as int;
    let l = match_links(kinds)[j];
    lemma_link_origin(kinds, n, j);
    if m == l.close {
        topmost(kinds, match_run(kinds, m).stack, kinds[l.close].opener_of())
    } else {
        let q = lemma_on_stack_between(kinds, j, m + 1);
        let st = match_run(kinds, m);
        if kinds[m].opens() {
            assert(st.stack.push(Frame { token: m, depth: st.stack.len() })[q].token == l.open);
            q
        } else {
            let p = topmost(kinds, st.stack, kinds[m].opener_of());
            lemma_topmost(kinds, st.stack, kinds[m].opener_of());
            if p >= 0 && q >= p {
                q + 1
            } else {
                q
            }
        }
    }
}

/// The depth of a pair is the height of the stack when its opener is read:
/// the number of openers before it that are still unmatched then, whatever
/// their family.
pub proof fn lemma_depth_is_height(kinds: Seq<BracketKind>, j: int)
    requires
        0 <= j < match_links(kinds).len(),
    ensures
        0 <= match_links(kinds)[j].open < kinds.len(),
        match_links(kinds)[j].depth == match_run(kinds, match_links(kinds)[j].open).stack.len(),
{
    let l = match_links(kinds)[j];
    lemma_pairs_sound(kinds);
    let q = lemma_on_stack_between(kinds, j, l.open + 1);
    let st = match_run(kinds, l.open);
    lemma_run_well_formed(kinds, l.open);
    let after = match_run(kinds, l.open + 1);
    assert(after.stack == st.stack.push(Frame { token: l.open, depth: st.stack.len() }));
    if q < st.stack.len() {
        assert(after.stack[q] == st.stack[q]);
    }
}

proof fn lemma_outer_keeps_place(kinds: Seq<BracketKind>, a: int, b: int, m: int)
    requires
        0 <= a < match_links(kinds).len(),
        0 <= b < match_links(kinds).len(),
        match_links(kinds)[a].open < m <= match_links(kinds)[b].open,
        match_links(kinds)[b].close < match_links(kinds)[a].close,
        forall|c: int|
            0 <= c < match_links(kinds).len() ==> !((#[trigger] match_links(kinds)[c]).open
                < match_links(kinds)[a].open && match_links(kinds)[a].open < match_links(
                kinds,
            )[c].close < match_links(kinds)[b].open),
    ensures
        match_links(kinds)[a].depth < match_run(kinds, m).stack.len(),
        match_run(kinds, m).stack[match_links(kinds)[a].depth as int] == (Frame {
            token: match_links(kinds)[a].open,
            depth: match_links(kinds)[a].depth,
        }),
    decreases m,
{
    let n = kinds.len() as int;
    let la = match_links(kinds)[a];
    let lb = match_links(kinds)[b];
    lemma_pairs_sound(kinds);
    if m == la.open + 1 {
        lemma_depth_is_height(kinds, a);
    } else {
        lemma_outer_keeps_place(kinds, a, b, m - 1);
        let i = m - 1;
        let st = match_run(kinds, i);
        lemma_run_well_formed(kinds, i);
        if !kinds[i].opens() {
            let p = topmost(kinds, st.stack, kinds[i].opener_of());
            lemma_topmost(kinds, st.stack, kinds[i].opener_of());
            if p >= 0 {
                let c = st.links.len() as int;
                lemma_links_grow(kinds, m, n);
                assert(match_run(kinds, m).links[c].close == i);
                assert(match_links(kinds)[c] == match_run(kinds, m).links[c]);
                if p == la.depth {
                    assert(match_links(kinds)[c].open == la.open);
                    assert(c == a);
                } else if p < la.depth {
                    assert(st.stack[p].token < st.stack[la.depth as int].token);
                }
            }
        }
    }
}

/// A pair that lies within another is deeper than it, as long as no pair
/// that was opened before the outer one is closed between the two openers.
/// (Such a closer takes a frame from under the outer opener, and the inner
/// opener is then pushed one place lower than it would have been.)
pub proof fn lemma_nested_depth(kinds: Seq<BracketKind>, a: int, b: int)
    requires
        0 <= a < match_links(kinds).len(),
        0 <= b < match_links(kinds).len(),
        match_links(kinds)[a].open < match_links(kinds)[b].open,
        match_links(kinds)[b].close < match_links(kinds)[a].close,
        forall|c: int|
            0 <= c < match_links(kinds).len() ==> !((#[trigger] match_links(kinds)[c]).open
                < match_links(kinds)[a].open && match_links(kinds)[a].open < match_links(
                kinds,
            )[c].close < match_links(kinds)[b].open),
    ensures
        match_links(kinds)[a].depth < match_links(kinds)[b].depth,
{
    lemma_outer_keeps_place(kinds, a, b, match_links(kinds)[b].open);
    lemma_depth_is_height(kinds, b);
}

/// Whether token `k` is the opener of a pair that is closed before token
/// `m`.
pub open spec fn closed_before(links: Seq<Link>, k: int, m: int) -> bool {
    exists|i: int| 0 <= i < links.len() && (#[trigger] links[i]).open == k && links[i].close < m
}

/// Number of openers among the first `upto` tokens that are not closed
/// before token `m`.
pub open spec fn count_pending(kinds: Seq<BracketKind>, links: Seq<Link>, upto: int, m: int) -> nat
    decreases upto,
{
    if upto <= 0 {
        0
    } else if kinds[upto - 1].opens() && !closed_before(links, upto - 1, m) {
        count_pending(kinds, links, upto - 1, m) + 1
    } else {
        count_pending(kinds, links, upto - 1, m)
    }
}

proof fn lemma_pending_same(kinds: Seq<BracketKind>, upto: int, m: int)
    requires
        forall|i: int|
            0 <= i < match_links(kinds).len() ==> (#[trigger] match_links(kinds)[i]).close != m,
    ensures
        count_pending(kinds, match_links(kinds), upto, m + 1) == count_pending(
            kinds,
            match_links(kinds),
            upto,
            m,
        ),
    decreases upto,
{
    if upto > 0 {
        lemma_pending_same(kinds, upto - 1, m);
        let links = match_links(kinds);
        let k = upto - 1;
        if closed_before(links, k, m + 1) {
            let i = choose|i: int|
                0 <= i < links.len() && (#[trigger] links[i]).open == k && links[i].close < m + 1;
            assert(links[i].close < m);
        } else if closed_before(links, k, m) {
            let i = choose|i: int|
                0 <= i < links.len() && (#[trigger] links[i]).open == k && links[i].close < m;
            assert(links[i].close < m + 1);
        }
    }
}

proof fn lemma_pending_one_less(kinds: Seq<BracketKind>, upto: int, m: int, j: int)
    requires
        0 <= j < match_links(kinds).len(),
        match_links(kinds)[j].close == m,
    ensures
        count_pending(kinds, match_links(kinds), upto, m + 1) + (if match_links(kinds)[j].open < upto {
            1nat
        } else {
            0nat
        }) == count_pending(kinds, match_links(kinds), upto, m),
    decreases upto,
{
    lemma_pairs_sound(kinds);
    if upto > 0 {
        lemma_pending_one_less(kinds, upto - 1, m, j);
        let links = match_links(kinds);
        let k = upto - 1;
        if k == links[j].open {
            assert(links[j].open == k && links[j].close < m + 1);
            assert(link_ok(kinds, kinds.len() as int, links[j]));
            if closed_before(links, k, m) {
                let i = choose|i: int|
                    0 <= i < links.len() && (#[trigger] links[i]).open == k && links[i].close < m;
                assert(i != j);
                assert(false);
            }
        } else if closed_before(links, k, m + 1) {
            let i = choose|i: int|
                0 <= i < links.len() && (#[trigger] links[i]).open == k && links[i].close < m + 1;
            assert(i != j);
            assert(links[i].close != links[j].close);
            assert(links[i].close < m);
        } else if closed_before(links, k, m) {
            let i = choose|i: int|
                0 <= i < links.len() && (#[trigger] links[i]).open == k && links[i].close < m;
            assert(links[i].close < m + 1);
        }
    }
}

/// Before token `m`, the stack is as high as there are openers before `m`
/// that are not closed before `m`.
pub proof fn lemma_height_counts_pending(kinds: Seq<BracketKind>, m: int)
    requires
        0 <= m <= kinds.len(),
    ensures
        match_run(kinds, m).stack.len() == count_pending(kinds, match_links(kinds), m, m),
    decreases m,
{
    if m > 0 {
        let n = kinds.len() as int;
        let i = m - 1;
        let links = match_links(kinds);
        lemma_height_counts_pending(kinds, i);
        lemma_pairs_sound(kinds);
        let st = match_run(kinds, i);
        let p = topmost(kinds, st.stack, kinds[i].opener_of());
        lemma_topmost(kinds, st.stack, kinds[i].opener_of());
        if !kinds[i].opens() && p >= 0 {
            let j = st.links.len() as int;
            lemma_links_grow(kinds, m, n);
            assert(match_run(kinds, m).links[j].close == i);
            assert(links[j].close == i);
            lemma_pending_one_less(kinds, i, i, j);
        } else {
            assert forall|j: int| 0 <= j < links.len() implies (#[trigger] links[j]).close != i by {
                if links[j].close == i {
                    lemma_link_origin(kinds, n, j);
                }
            }
            lemma_pending_same(kinds, i, i);
            if kinds[i].opens() {
                if closed_before(links, i, m) {
                    let c = choose|c: int|
                        0 <= c < links.len() && (#[trigger] links[c]).open == i && links[c].close < m;
                    assert(false);
                }
            }
        }
    }
}

/// The depth of a pair counts the openers before its own that are not
/// closed before it, whatever their family.
pub proof fn lemma_depth_counts_pending(kinds: Seq<BracketKind>, j: int)
    requires
        0 <= j < match_links(kinds).len(),
    ensures
        match_links(kinds)[j].depth == count_pending(
            kinds,
            match_links(kinds),
            match_links(kinds)[j].open,
            match_links(kinds)[j].open,
        ),
{
    lemma_depth_is_height(kinds, j);
    lemma_height_counts_pending(kinds, match_links(kinds)[j].open);
}

/// Number of openers before token `a` that are unmatched when `a` is read
/// and closed before token `b` is read: the frames that are taken from under
/// `a` before `b` comes.
pub open spec fn count_crossing(kinds: Seq<BracketKind>, links: Seq<Link>, a: int, b: int) -> int {
    count_pending(kinds, links, a, a) - count_pending(kinds, links, a, b)
}

/// Number of openers after token `a` and before token `b` that are
/// unmatched when `b` is read: the frames that lie between the two.
pub open spec fn count_between(kinds: Seq<BracketKind>, links: Seq<Link>, a: int, b: int) -> int {
    count_pending(kinds, links, b, b) - count_pending(kinds, links, a + 1, b)
}

proof fn lemma_pending_fewer_later(
    kinds: Seq<BracketKind>,
    links: Seq<Link>,
    upto: int,
    m: int,
    n: int,
)
    requires
        m <= n,
    ensures
        count_pending(kinds, links, upto, n) <= count_pending(kinds, links, upto, m),
    decreases upto,
{
    if upto > 0 {
        lemma_pending_fewer_later(kinds, links, upto - 1, m, n);
        if closed_before(links, upto - 1, m) {
            let i = choose|i: int|
                0 <= i < links.len() && (#[trigger] links[i]).open == upto - 1 && links[i].close < m;
            assert(links[i].close < n);
        }
    }
}

proof fn lemma_pending_more_further(
    kinds: Seq<BracketKind>,
    links: Seq<Link>,
    from: int,
    upto: int,
    m: int,
)
    requires
        from <= upto,
    ensures
        count_pending(kinds, links, from, m) <= count_pending(kinds, links, upto, m),
    decreases upto - from,
{
    if from < upto {
        lemma_pending_more_further(kinds, links, from, upto - 1, m);
    }
}

/// How the depths of two pairs stand to one another, where the second is
/// opened while the first is open: the second is deeper by one and by the
/// frames that lie between the two, less the frames that were taken from
/// under the first before the second came. So the second is the deeper of
/// the two exactly when no more frames were taken from under the first than
/// lie between the two.
pub proof fn lemma_depth_step(kinds: Seq<BracketKind>, a: int, b: int)
    requires
        0 <= a < match_links(kinds).len(),
        0 <= b < match_links(kinds).len(),
        match_links(kinds)[a].open < match_links(kinds)[b].open < match_links(kinds)[a].close,
    ensures
        ({
            let links = match_links(kinds);
            let crossing = count_crossing(kinds, links, links[a].open, links[b].open);
            let between = count_between(kinds, links, links[a].open, links[b].open);
            &&& crossing >= 0
            &&& between >= 0
            &&& links[b].depth + crossing == links[a].depth + 1 + between
            &&& links[a].depth < links[b].depth <==> crossing <= between
        }),
{
    let links = match_links(kinds);
    let oa = links[a].open;
    let ob = links[b].open;
    lemma_pairs_sound(kinds);
    assert(link_ok(kinds, kinds.len() as int, links[a]));
    lemma_depth_counts_pending(kinds, a);
    lemma_depth_counts_pending(kinds, b);
    lemma_pending_fewer_later(kinds, links, oa, oa, ob);
    lemma_pending_more_further(kinds, links, oa + 1, ob, ob);
    // the first opener is itself unmatched when the second is read
    if closed_before(links, oa, ob) {
        let i = choose|i: int|
            0 <= i < links.len() && (#[trigger] links[i]).open == oa && links[i].close < ob;
        assert(i == a);
        assert(false);
    }
    assert(count_pending(kinds, links, oa + 1, ob) == count_pending(kinds, links, oa, ob) + 1);
}

} // verus!
