//! What holds of the delimiters that the scanner finds, whatever the text.

use vstd::prelude::*;
use crate::lexer::bracket::{
    consumed, delimiter_kind, lookahead, scan_from, significant, step, Mode,
};

verus! {

/// Every index that the scanner gives lies in the part of the text that it
/// read, and holds a delimiter; the indices come in the order of the text.
pub proof fn lemma_scan_in_order(s: Seq<char>, i: int, mode: Mode)
    requires
        0 <= i,
    ensures
        forall|j: int|
            0 <= j < scan_from(s, i, mode).len() ==> i <= (#[trigger] scan_from(s, i, mode)[j])
                < s.len() && delimiter_kind(s[scan_from(s, i, mode)[j]]) is Some,
        forall|j: int, k: int|
            0 <= j < k < scan_from(s, i, mode).len() ==> (#[trigger] scan_from(s, i, mode)[j]) < (
            #[trigger] scan_from(s, i, mode)[k]),
    decreases s.len() - i,
{
    if i < s.len() {
        let t = step(mode, s[i], lookahead(s, i));
        lemma_scan_in_order(s, i + consumed(t), t.mode);
    }
}

/// The indices of the delimiters of `s` from character `i` on.
pub open spec fn delimiters_from(s: Seq<char>, i: int) -> Seq<int>
    decreases s.len() - i,
{
    if 0 <= i < s.len() {
        if delimiter_kind(s[i]) is Some {
            seq![i] + delimiters_from(s, i + 1)
        } else {
            delimiters_from(s, i + 1)
        }
    } else {
        Seq::empty()
    }
}

/// Whether `s` holds, from character `i` on, nothing that starts a string or
/// a comment: no double quote, and no slash with a slash or a star after it.
pub open spec fn plain_from(s: Seq<char>, i: int) -> bool {
    forall|k: int|
        i <= k < s.len() ==> #[trigger] s[k] != '"' && !(s[k] == '/' && lookahead(s, k) == Some(
            '/',
        )) && !(s[k] == '/' && lookahead(s, k) == Some('*'))
}

/// In a text without strings and comments every delimiter counts.
pub proof fn lemma_plain_text(s: Seq<char>, i: int)
    requires
        0 <= i,
        plain_from(s, i),
    ensures
        scan_from(s, i, Mode::Neutral) == delimiters_from(s, i),
    decreases s.len() - i,
{
    if i < s.len() {
        assert(s[i] != '"');
        lemma_plain_text(s, i + 1);
    }
}

/// Whether the characters of `s` from `i` up to `j` can be the inside of a
/// string: each is either an ordinary character, or a backslash together with
/// the character after it, whatever that is.
pub open spec fn string_body(s: Seq<char>, i: int, j: int) -> bool
    decreases j - i,
{
    if i >= j {
        i == j
    } else if s[i] == '\\' {
        i + 2 <= j && string_body(s, i + 2, j)
    } else {
        s[i] != '"' && string_body(s, i + 1, j)
    }
}

proof fn lemma_inside_string(s: Seq<char>, i: int, j: int)
    requires
        0 <= i <= j < s.len(),
        string_body(s, i, j),
        s[j] == '"',
    ensures
        scan_from(s, i, Mode::InString { escaped: false }) == scan_from(s, j + 1, Mode::Neutral),
    decreases j - i,
{
    if i < j {
        if s[i] == '\\' {
            lemma_inside_string(s, i + 2, j);
            assert(scan_from(s, i + 1, Mode::InString { escaped: true }) == scan_from(
                s,
                i + 2,
                Mode::InString { escaped: false },
            ));
        } else {
            lemma_inside_string(s, i + 1, j);
        }
    }
}

/// A string gives no token, whatever stands between its quotes, escaped
/// quotes included, and after its closing quote the scanner goes on as
/// before.
pub proof fn lemma_string_is_skipped(s: Seq<char>, i: int, j: int)
    requires
        0 <= i < j < s.len(),
        s[i] == '"',
        string_body(s, i + 1, j),
        s[j] == '"',
    ensures
        scan_from(s, i, Mode::Neutral) == scan_from(s, j + 1, Mode::Neutral),
{
    lemma_inside_string(s, i + 1, j);
}

/// Inside a string that no later quote can close, nothing counts.
pub proof fn lemma_open_string(s: Seq<char>, i: int, escaped: bool)
    requires
        0 <= i,
        forall|k: int| i <= k < s.len() ==> #[trigger] s[k] != '"',
    ensures
        scan_from(s, i, Mode::InString { escaped }) == Seq::<int>::empty(),
    decreases s.len() - i,
{
    if i < s.len() {
        assert(s[i] != '"');
        let t = step(Mode::InString { escaped }, s[i], lookahead(s, i));
        lemma_open_string(s, i + 1, t.mode->escaped);
    }
}

proof fn lemma_inside_line_comment(s: Seq<char>, i: int, j: int)
    requires
        0 <= i <= j <= s.len(),
        forall|k: int| i <= k < j ==> #[trigger] s[k] != '\n',
        j < s.len() ==> s[j] == '\n',
    ensures
        scan_from(s, i, Mode::LineComment) == scan_from(s, j + 1, Mode::Neutral),
    decreases j - i,
{
    if i < j {
        assert(s[i] != '\n');
        lemma_inside_line_comment(s, i + 1, j);
    }
}

/// A line comment gives no token up to the line feed that ends it, or up to
/// the end of the text where none follows; after the line feed the scanner
/// goes on as before.
pub proof fn lemma_line_comment_is_skipped(s: Seq<char>, i: int, j: int)
    requires
        0 <= i,
        i + 2 <= j <= s.len(),
        s[i] == '/',
        s[i + 1] == '/',
        forall|k: int| i + 2 <= k < j ==> #[trigger] s[k] != '\n',
        j < s.len() ==> s[j] == '\n',
    ensures
        scan_from(s, i, Mode::Neutral) == scan_from(s, j + 1, Mode::Neutral),
{
    lemma_inside_line_comment(s, i + 2, j);
}

/// Whether the scanner, inside `depth` block comments before character `i`
/// of `s`, leaves the outermost of them exactly before character `j`: read
/// from left to right, with `/*` and `*/` each taken as one, the comments
/// opened are all closed at `j` and not before.
pub open spec fn block_closes_at(s: Seq<char>, i: int, depth: nat, j: int) -> bool
    decreases s.len() - i,
{
    if 0 <= i && i + 1 < s.len() && s[i] == '*' && s[i + 1] == '/' {
        if depth <= 1 {
            j == i + 2
        } else {
            block_closes_at(s, i + 2, (depth - 1) as nat, j)
        }
    } else if 0 <= i && i + 1 < s.len() && s[i] == '/' && s[i + 1] == '*' {
        block_closes_at(s, i + 2, depth + 1, j)
    } else if 0 <= i < s.len() {
        block_closes_at(s, i + 1, depth, j)
    } else {
        false
    }
}

proof fn lemma_inside_block_comment(s: Seq<char>, i: int, depth: nat, j: int)
    requires
        0 <= i,
        block_closes_at(s, i, depth, j),
    ensures
        i < j <= s.len(),
        scan_from(s, i, Mode::BlockComment { depth }) == scan_from(s, j, Mode::Neutral),
    decreases s.len() - i,
{
    if i + 1 < s.len() && s[i] == '*' && s[i + 1] == '/' {
        if depth > 1 {
            lemma_inside_block_comment(s, i + 2, (depth - 1) as nat, j);
        }
    } else if i + 1 < s.len() && s[i] == '/' && s[i + 1] == '*' {
        lemma_inside_block_comment(s, i + 2, depth + 1, j);
    } else {
        lemma_inside_block_comment(s, i + 1, depth, j);
    }
}

/// Block comments nest: a block comment gives no token until as many
/// comments are closed as were opened, and from there the scanner goes on as
/// before.
pub proof fn lemma_block_comment_is_skipped(s: Seq<char>, i: int, j: int)
    requires
        0 <= i,
        i + 1 < s.len(),
        s[i] == '/',
        s[i + 1] == '*',
        block_closes_at(s, i + 2, 1, j),
    ensures
        i + 2 < j <= s.len(),
        scan_from(s, i, Mode::Neutral) == scan_from(s, j, Mode::Neutral),
{
    lemma_inside_block_comment(s, i + 2, 1, j);
}

/// Inside a comment, of either form, that the text never leaves, nothing
/// counts: a block comment stays open where no `*` follows, a line comment
/// where no line feed follows.
pub proof fn lemma_open_comment(s: Seq<char>, i: int, mode: Mode)
    requires
        0 <= i,
        match mode {
            Mode::LineComment => forall|k: int| i <= k < s.len() ==> #[trigger] s[k] != '\n',
            Mode::BlockComment { depth } => forall|k: int|
                i <= k < s.len() ==> #[trigger] s[k] != '*',
            _ => false,
        },
    ensures
        scan_from(s, i, mode) == Seq::<int>::empty(),
    decreases s.len() - i,
{
    if i < s.len() {
        let t = step(mode, s[i], lookahead(s, i));
        match mode {
            Mode::BlockComment { depth } => {
                assert(s[i] != '*');
                if i + 1 < s.len() {
                    assert(s[i + 1] != '*');
                }
            },
            _ => {
                assert(s[i] != '\n');
            },
        }
        lemma_open_comment(s, i + consumed(t), t.mode);
    }
}

} // verus!
