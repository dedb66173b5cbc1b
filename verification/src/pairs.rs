//! From a text to its pairs: what holds when the matcher reads the tokens
//! that the scanner found.

use vstd::prelude::*;
use crate::lexer::bracket::{
    delimiter_kind, scan_tokens, significant, token_at, BracketFamily, BracketKind, Mode, Token,
};
use crate::lexer::laws::{delimiters_from, lemma_plain_text, lemma_scan_in_order, plain_from};
use crate::parser::bracket::{match_links, match_pairs, pair_of, token_kinds, Link, Pair};
use crate::parser::families::{lemma_pairs_are_partners, partners};
use crate::parser::laws::{
    count_kind, count_links, deficit, lemma_nested_depth, lemma_pair_count, lemma_pairs_sound,
    link_ok,
};
use crate::utils::char_position::offset_at;
use crate::utils::utf16::{
    lemma_offset_increases, lemma_unit_at_offset, lemma_units_between, units,
};

verus! {

/// The pairs of the text `s`.
pub open spec fn text_pairs(s: Seq<char>) -> Seq<Pair> {
    match_pairs(scan_tokens(s))
}

/// The kinds of the delimiters of `s`, in the order of the text, whether
/// they count or not.
pub open spec fn delimiter_kinds(s: Seq<char>) -> Seq<BracketKind> {
    delimiters_from(s, 0).map_values(|k: int| delimiter_kind(s[k]).unwrap())
}

/// Number of pairs of family `f` among `pairs`.
pub open spec fn count_family(pairs: Seq<Pair>, f: BracketFamily) -> nat
    decreases pairs.len(),
{
    if pairs.len() == 0 {
        0
    } else if pairs.last().kind.family_of() == f {
        count_family(pairs.drop_last(), f) + 1
    } else {
        count_family(pairs.drop_last(), f)
    }
}

/// The two ends of a pair of a text. Its opener and its closer are
/// delimiters of one family that count, the opener before the closer, each
/// with its own position. In the UTF-16 encoding of the text, the code unit
/// at the offset of each is that delimiter, and the code units from the
/// offset of the opener to the offset of the closer, both included, are the
/// encoding of the text from the opener to the closer: a fragment that
/// starts with the opening delimiter and ends with the closing delimiter of
/// its family.
pub proof fn lemma_pair_ends(s: Seq<char>, j: int) -> (ends: (int, int))
    requires
        0 <= j < text_pairs(s).len(),
    ensures
        ({
            let p = text_pairs(s)[j];
            let (i, k) = ends;
            &&& 0 <= i < k < s.len()
            &&& p.kind.opens()
            &&& delimiter_kind(s[i]) == Some(p.kind)
            &&& delimiter_kind(s[k]) == Some(p.kind.family_of().closing())
            &&& p.open == token_at(s, i)
            &&& p.close == token_at(s, k)
            &&& p.open.position.offset < p.close.position.offset < units(s, s.len() as int).len()
            &&& units(s, s.len() as int)[p.open.position.offset as int] as u32 == s[i] as u32
            &&& units(s, s.len() as int)[p.close.position.offset as int] as u32 == s[k] as u32
            &&& units(s, s.len() as int).subrange(
                p.open.position.offset as int,
                p.close.position.offset as int + 1,
            ) == units(s.subrange(i, k + 1), k + 1 - i)
        }),
{
    let ts = scan_tokens(s);
    let kinds = token_kinds(ts);
    let l = match_links(kinds)[j];
    lemma_pairs_sound(kinds);
    assert(link_ok(kinds, kinds.len() as int, l));
    lemma_scan_in_order(s, 0, Mode::Neutral);
    let i = significant(s)[l.open];
    let k = significant(s)[l.close];
    assert(ts[l.open] == token_at(s, i));
    assert(ts[l.close] == token_at(s, k));
    lemma_offset_increases(s, i, k);
    lemma_units_between(s, i, k + 1, s.len() as int);
    lemma_unit_at_offset(s, i, s.len() as int);
    lemma_unit_at_offset(s, k, s.len() as int);
    (i, k)
}

/// The fragment that a pair of a text cuts out is in balance for the family
/// of the pair: the tokens of the pair are partners, so that between them
/// every closer of the family has its opener and every opener its closer.
/// The pairs of the other families may reach across its ends.
pub proof fn lemma_pair_in_balance(s: Seq<char>, j: int) -> (ends: (int, int))
    requires
        0 <= j < text_pairs(s).len(),
    ensures
        ({
            let p = text_pairs(s)[j];
            let (o, c) = ends;
            &&& 0 <= o < c < scan_tokens(s).len()
            &&& p.open == scan_tokens(s)[o]
            &&& p.close == scan_tokens(s)[c]
            &&& partners(token_kinds(scan_tokens(s)), o, c)
        }),
{
    let kinds = token_kinds(scan_tokens(s));
    let l = match_links(kinds)[j];
    lemma_pairs_sound(kinds);
    assert(link_ok(kinds, kinds.len() as int, l));
    lemma_pairs_are_partners(kinds, l.open, l.close);
    (l.open, l.close)
}

proof fn lemma_count_family(ts: Seq<Token>, links: Seq<Link>, f: BracketFamily)
    requires
        forall|j: int|
            0 <= j < links.len() ==> 0 <= (#[trigger] links[j]).open < ts.len()
                && ts[links[j].open].kind.opens(),
    ensures
        count_family(links.map_values(|l: Link| pair_of(ts, l)), f) == count_links(
            token_kinds(ts),
            links,
            f.opening(),
        ),
    decreases links.len(),
{
    if links.len() > 0 {
        let pairs = links.map_values(|l: Link| pair_of(ts, l));
        assert(pairs.drop_last() =~= links.drop_last().map_values(|l: Link| pair_of(ts, l)));
        assert forall|j: int| 0 <= j < links.drop_last().len() implies 0 <= (
        #[trigger] links.drop_last()[j]).open < ts.len() && ts[links.drop_last()[j].open].kind.opens() by {
            assert(links.drop_last()[j] == links[j]);
        }
        lemma_count_family(ts, links.drop_last(), f);
        assert(pairs.last().kind == token_kinds(ts)[links.last().open]);
    }
}

/// How many pairs of family `f` the tokens `ts` give: the closers of the
/// family less its deficit, which is the lesser of the counts of its openers
/// and of its closers exactly when either none of its closers comes too
/// early, or every one of its openers is closed.
pub proof fn lemma_family_pairs(ts: Seq<Token>, f: BracketFamily)
    ensures
        ({
            let kinds = token_kinds(ts);
            let n = kinds.len() as int;
            let pairs = count_family(match_pairs(ts), f);
            let openers = count_kind(kinds, n, f.opening());
            let closers = count_kind(kinds, n, f.closing());
            let lesser = if openers <= closers {
                openers
            } else {
                closers
            };
            &&& pairs + deficit(kinds, n, f) == closers
            &&& pairs <= openers
            &&& pairs == lesser <==> deficit(kinds, n, f) == 0 || openers + deficit(kinds, n, f)
                == closers
        }),
{
    let kinds = token_kinds(ts);
    lemma_pair_count(kinds, f);
    lemma_pairs_sound(kinds);
    assert forall|j: int| 0 <= j < match_links(kinds).len() implies 0 <= (#[trigger] match_links(
        kinds,
    )[j]).open < ts.len() && ts[match_links(kinds)[j].open].kind.opens() by {
        assert(link_ok(kinds, kinds.len() as int, match_links(kinds)[j]));
    }
    lemma_count_family(ts, match_links(kinds), f);
}

/// In a text without strings and comments every delimiter is a token, so
/// that the pairs of each family are counted over the delimiters of the text
/// themselves.
pub proof fn lemma_plain_text_pairs(s: Seq<char>, f: BracketFamily)
    requires
        plain_from(s, 0),
    ensures
        token_kinds(scan_tokens(s)) == delimiter_kinds(s),
        ({
            let kinds = delimiter_kinds(s);
            let n = kinds.len() as int;
            let pairs = count_family(text_pairs(s), f);
            let openers = count_kind(kinds, n, f.opening());
            let closers = count_kind(kinds, n, f.closing());
            let lesser = if openers <= closers {
                openers
            } else {
                closers
            };
            &&& pairs + deficit(kinds, n, f) == closers
            &&& pairs <= openers
            &&& pairs == lesser <==> deficit(kinds, n, f) == 0 || openers + deficit(kinds, n, f)
                == closers
        }),
{
    lemma_plain_text(s, 0);
    assert(token_kinds(scan_tokens(s)) =~= delimiter_kinds(s));
    lemma_family_pairs(scan_tokens(s), f);
}

/// The tokens of a text stand at growing offsets.
pub proof fn lemma_tokens_in_order(s: Seq<char>, i: int, j: int)
    requires
        0 <= i < j < scan_tokens(s).len(),
    ensures
        scan_tokens(s)[i].position.offset < scan_tokens(s)[j].position.offset,
{
    lemma_scan_in_order(s, 0, Mode::Neutral);
    lemma_offset_increases(s, significant(s)[i], significant(s)[j]);
}

/// Among the pairs of a text, a pair that lies within another is deeper than
/// it, as long as no pair that was opened before the outer one is closed
/// between the two openers.
pub proof fn lemma_nested_pairs(s: Seq<char>, a: int, b: int)
    requires
        0 <= a < text_pairs(s).len(),
        0 <= b < text_pairs(s).len(),
        text_pairs(s)[a].open.position.offset < text_pairs(s)[b].open.position.offset,
        text_pairs(s)[b].close.position.offset < text_pairs(s)[a].close.position.offset,
        forall|c: int|
            0 <= c < text_pairs(s).len() ==> !((#[trigger] text_pairs(s)[c]).open.position.offset
                < text_pairs(s)[a].open.position.offset && text_pairs(s)[a].open.position.offset
                < text_pairs(s)[c].close.position.offset
                < text_pairs(s)[b].open.position.offset),
    ensures
        text_pairs(s)[a].depth < text_pairs(s)[b].depth,
{
    let ts = scan_tokens(s);
    let kinds = token_kinds(ts);
    let links = match_links(kinds);
    lemma_pairs_sound(kinds);
    assert(link_ok(kinds, kinds.len() as int, links[a]));
    assert(link_ok(kinds, kinds.len() as int, links[b]));
    if links[a].open > links[b].open {
        lemma_tokens_in_order(s, links[b].open, links[a].open);
    }
    if links[b].close > links[a].close {
        lemma_tokens_in_order(s, links[a].close, links[b].close);
    }
    assert forall|c: int| 0 <= c < links.len() implies !((#[trigger] links[c]).open < links[a].open
        && links[a].open < links[c].close < links[b].open) by {
        assert(link_ok(kinds, kinds.len() as int, links[c]));
        if links[c].open < links[a].open && links[a].open < links[c].close < links[b].open {
            lemma_tokens_in_order(s, links[c].open, links[a].open);
            lemma_tokens_in_order(s, links[a].open, links[c].close);
            lemma_tokens_in_order(s, links[c].close, links[b].open);
            assert(text_pairs(s)[c].open == ts[links[c].open]);
            assert(false);
        }
    }
    lemma_nested_depth(kinds, a, b);
}

} // verus!
