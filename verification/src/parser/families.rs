//! Each family is matched on its own: which closer an opener gets depends
//! on the tokens of its family alone, and is what the usual matching of one
//! kind of bracket gives.

use vstd::prelude::*;
use crate::lexer::bracket::{BracketFamily, BracketKind};
use crate::parser::bracket::{match_links, match_run, topmost, Frame, Link};
use crate::parser::laws::{
    count_frames, count_kind, lemma_count_frames_remove, lemma_link_origin, lemma_links_grow,
    lemma_pairs_sound, lemma_run_well_formed, lemma_topmost, link_ok, on_stack, opens_link,
};

verus! {

/// By how many the openers of family `f` exceed its closers among the
/// tokens from `a` up to `m`.
pub open spec fn balance(kinds: Seq<BracketKind>, f: BracketFamily, a: int, m: int) -> int {
    (count_kind(kinds, m, f.opening()) - count_kind(kinds, a, f.opening())) - (count_kind(
        kinds,
        m,
        f.closing(),
    ) - count_kind(kinds, a, f.closing()))
}

/// Whether token `c` closes what token `o` opens, as the matching of one
/// family by itself has it: `o` opens and `c` closes the same family, `o`
/// stands before `c`, and among the tokens of the family between the two
/// every closer has its opener and every opener its closer. That is, read
/// from `o` on, the closers between the two never outnumber the openers, and
/// at `c` they are as many.
pub open spec fn partners(kinds: Seq<BracketKind>, o: int, c: int) -> bool {
    let f = kinds[o].family_of();
    &&& 0 <= o < c < kinds.len()
    &&& kinds[o] == f.opening()
    &&& kinds[c] == f.closing()
    &&& balance(kinds, f, o + 1, c) == 0
    &&& never_short(kinds, f, o + 1, c)
}

/// Whether `l` is one of `links`.
pub open spec fn linked(links: Seq<Link>, o: int, c: int) -> bool {
    exists|j: int| 0 <= j < links.len() && (#[trigger] links[j]).open == o && links[j].close == c
}

/// Whether, among the tokens from `a` up to each place not past `n`, the
/// closers of family `f` never outnumber its openers.
#[verifier::opaque]
pub open spec fn never_short(kinds: Seq<BracketKind>, f: BracketFamily, a: int, n: int) -> bool {
    forall|m: int| a <= m <= n ==> #[trigger] balance(kinds, f, a, m) >= 0
}

/// What holds, after `n` tokens, of frame `q` of the stack, a frame of
/// family `f`: since its token, the closers of the family have never
/// outnumbered its openers, and the openers that exceed the closers are the
/// frames of the family above it.
spec fn frame_settled(kinds: Seq<BracketKind>, f: BracketFamily, n: int, q: int) -> bool {
    let stack = match_run(kinds, n).stack;
    &&& balance(kinds, f, stack[q].token + 1, n) == count_frames(
        kinds,
        stack.skip(q + 1),
        f.opening(),
    )
    &&& never_short(kinds, f, stack[q].token + 1, n)
}

/// Whether every frame of family `f` on the stack after `n` tokens is
/// settled.
spec fn family_settled(kinds: Seq<BracketKind>, f: BracketFamily, n: int) -> bool {
    let stack = match_run(kinds, n).stack;
    forall|q: int|
        0 <= q < stack.len() && kinds[(#[trigger] stack[q]).token] == f.opening()
            ==> frame_settled(kinds, f, n, q)
}

proof fn lemma_balance_step(kinds: Seq<BracketKind>, f: BracketFamily, a: int, n: int)
    requires
        n > 0,
    ensures
        balance(kinds, f, a, n) == balance(kinds, f, a, n - 1) + (if kinds[n - 1] == f.opening() {
            1int
        } else {
            0int
        }) - (if kinds[n - 1] == f.closing() {
            1int
        } else {
            0int
        }),
{
}

proof fn lemma_never_short_step(kinds: Seq<BracketKind>, f: BracketFamily, a: int, n: int)
    requires
        never_short(kinds, f, a, n - 1),
        balance(kinds, f, a, n) >= 0,
    ensures
        never_short(kinds, f, a, n),
{
    reveal(never_short);
}

proof fn lemma_never_short_start(kinds: Seq<BracketKind>, f: BracketFamily, a: int)
    ensures
        never_short(kinds, f, a, a),
{
    reveal(never_short);
}

proof fn lemma_count_frames_push(
    kinds: Seq<BracketKind>,
    stack: Seq<Frame>,
    top: Frame,
    kind: BracketKind,
)
    ensures
        count_frames(kinds, stack.push(top), kind) == count_frames(kinds, stack, kind) + (if kinds[top.token]
            == kind {
            1nat
        } else {
            0nat
        }),
{
    assert(stack.push(top).drop_last() =~= stack);
}

proof fn lemma_no_frames(kinds: Seq<BracketKind>, stack: Seq<Frame>, kind: BracketKind)
    requires
        forall|q: int| 0 <= q < stack.len() ==> kinds[(#[trigger] stack[q]).token] != kind,
    ensures
        count_frames(kinds, stack, kind) == 0,
    decreases stack.len(),
{
    if stack.len() > 0 {
        assert forall|q: int| 0 <= q < stack.drop_last().len() implies kinds[(
        #[trigger] stack.drop_last()[q]).token] != kind by {
            assert(stack.drop_last()[q] == stack[q]);
        }
        lemma_no_frames(kinds, stack.drop_last(), kind);
    }
}

proof fn lemma_frame_settled(kinds: Seq<BracketKind>, f: BracketFamily, n: int, q: int)
    requires
        0 < n <= kinds.len(),
        family_settled(kinds, f, n - 1),
        0 <= q < match_run(kinds, n).stack.len(),
        kinds[match_run(kinds, n).stack[q].token] == f.opening(),
    ensures
        frame_settled(kinds, f, n, q),
{
    let i = n - 1;
    let st = match_run(kinds, i);
    let after = match_run(kinds, n);
    let open = f.opening();
    let a = after.stack[q].token + 1;
    lemma_balance_step(kinds, f, a, n);
    if kinds[i].opens() {
        let top = Frame { token: i, depth: st.stack.len() };
        assert(after.stack == st.stack.push(top));
        if q < st.stack.len() {
            assert(after.stack[q] == st.stack[q]);
            assert(frame_settled(kinds, f, i, q));
            assert(after.stack.skip(q + 1) =~= st.stack.skip(q + 1).push(top));
            lemma_count_frames_push(kinds, st.stack.skip(q + 1), top, open);
            lemma_never_short_step(kinds, f, a, n);
        } else {
            assert(after.stack.skip(q + 1) =~= Seq::<Frame>::empty());
            assert(a == n);
            lemma_never_short_start(kinds, f, a);
        }
    } else {
        let kind = kinds[i].opener_of();
        let p = topmost(kinds, st.stack, kind);
        lemma_topmost(kinds, st.stack, kind);
        if p >= 0 {
            assert(after.stack == st.stack.remove(p));
            if q < p {
                assert(after.stack[q] == st.stack[q]);
                assert(frame_settled(kinds, f, i, q));
                assert(after.stack.skip(q + 1) =~= st.stack.skip(q + 1).remove(p - q - 1));
                lemma_count_frames_remove(kinds, st.stack.skip(q + 1), p - q - 1, open);
                assert(st.stack.skip(q + 1)[p - q - 1] == st.stack[p]);
                lemma_never_short_step(kinds, f, a, n);
            } else {
                assert(after.stack[q] == st.stack[q + 1]);
                assert(frame_settled(kinds, f, i, q + 1));
                assert(after.stack.skip(q + 1) =~= st.stack.skip(q + 2));
                assert(kinds[i] != f.closing());
                lemma_never_short_step(kinds, f, a, n);
            }
        } else {
            assert(after.stack == st.stack);
            assert(frame_settled(kinds, f, i, q));
            assert(kinds[i] != f.closing());
            lemma_never_short_step(kinds, f, a, n);
        }
    }
}

proof fn lemma_family_settled(kinds: Seq<BracketKind>, f: BracketFamily, n: int)
    requires
        0 <= n <= kinds.len(),
    ensures
        family_settled(kinds, f, n),
    decreases n,
{
    if n > 0 {
        lemma_family_settled(kinds, f, n - 1);
        let stack = match_run(kinds, n).stack;
        assert forall|q: int|
            0 <= q < stack.len() && kinds[(#[trigger] stack[q]).token]
                == f.opening() implies frame_settled(kinds, f, n, q) by {
            lemma_frame_settled(kinds, f, n, q);
        }
    }
}

/// When a closer is read, the opener that it takes is settled with no frame
/// of the family above it: between the two, the family is in balance.
proof fn lemma_taken_in_balance(kinds: Seq<BracketKind>, j: int)
    requires
        0 <= j < match_links(kinds).len(),
    ensures
        partners(kinds, match_links(kinds)[j].open, match_links(kinds)[j].close),
{
    let n = kinds.len() as int;
    let l = match_links(kinds)[j];
    lemma_pairs_sound(kinds);
    assert(link_ok(kinds, n, l));
    lemma_link_origin(kinds, n, j);
    let f = kinds[l.open].family_of();
    let before = match_run(kinds, l.close);
    let p = topmost(kinds, before.stack, f.opening());
    lemma_topmost(kinds, before.stack, f.opening());
    lemma_family_settled(kinds, f, l.close);
    assert(before.stack[p].token == l.open);
    assert(frame_settled(kinds, f, l.close, p));
    assert forall|q: int| 0 <= q < before.stack.skip(p + 1).len() implies kinds[(
    #[trigger] before.stack.skip(p + 1)[q]).token] != f.opening() by {
        assert(before.stack.skip(p + 1)[q] == before.stack[p + 1 + q]);
    }
    lemma_no_frames(kinds, before.stack.skip(p + 1), f.opening());
    assert(balance(kinds, f, l.open + 1, l.close) == 0);
}

/// Partners are paired.
proof fn lemma_partners_are_paired(kinds: Seq<BracketKind>, o: int, c: int)
    requires
        partners(kinds, o, c),
    ensures
        linked(match_links(kinds), o, c),
{
    let n = kinds.len() as int;
    let links = match_links(kinds);
    let f = kinds[o].family_of();
    let before = match_run(kinds, c);
    lemma_pairs_sound(kinds);
    lemma_run_well_formed(kinds, c);
    lemma_links_grow(kinds, c, n);
    lemma_links_grow(kinds, c + 1, n);
    lemma_family_settled(kinds, f, c);
    assert(kinds[o].opens());
    if opens_link(before.links, o) {
        // an earlier closer would have brought the balance below zero
        let j = choose|j: int|
            0 <= j < before.links.len() && (#[trigger] before.links[j]).open == o;
        assert(links[j] == before.links[j]);
        assert(link_ok(kinds, c, before.links[j]));
        let early = links[j].close;
        lemma_taken_in_balance(kinds, j);
        lemma_balance_step(kinds, f, o + 1, early + 1);
        assert(balance(kinds, f, o + 1, early + 1) == -1);
        reveal(never_short);
        assert(false);
    }
    assert(on_stack(before.stack, o));
    let q = choose|q: int| 0 <= q < before.stack.len() && (#[trigger] before.stack[q]).token == o;
    let p = topmost(kinds, before.stack, f.opening());
    lemma_topmost(kinds, before.stack, f.opening());
    assert(q <= p);
    assert(frame_settled(kinds, f, c, q));
    if q < p {
        // a later opener of the family is still unmatched: the balance is not zero
        assert(before.stack.skip(q + 1)[p - q - 1] == before.stack[p]);
        lemma_count_frames_remove(kinds, before.stack.skip(q + 1), p - q - 1, f.opening());
        assert(false);
    }
    let after = match_run(kinds, c + 1);
    let j = before.links.len() as int;
    assert(kinds[c].opener_of() == f.opening());
    assert(after.links[j] == Link { open: o, close: c, depth: before.stack[p].depth });
    assert(links[j] == after.links[j]);
}

/// The pairs are those of each family matched by itself: token `c` closes
/// what token `o` opens exactly when the two are partners within their
/// family. The tokens of the other families, wherever they stand, change
/// nothing in it.
pub proof fn lemma_pairs_are_partners(kinds: Seq<BracketKind>, o: int, c: int)
    ensures
        linked(match_links(kinds), o, c) <==> partners(kinds, o, c),
{
    let links = match_links(kinds);
    if linked(links, o, c) {
        let j = choose|j: int|
            0 <= j < links.len() && (#[trigger] links[j]).open == o && links[j].close == c;
        lemma_taken_in_balance(kinds, j);
    }
    if partners(kinds, o, c) {
        lemma_partners_are_paired(kinds, o, c);
    }
}

} // verus!
