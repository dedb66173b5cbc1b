//! Where a character stands in a text buffer.
//!
//! A position is a triple: the line, the display column on that line, and the
//! offset from the start of the buffer. Lines and columns count from zero.
//!
//! The encoding is fixed as follows. The offset counts UTF-16 code units, as
//! editors that index their buffer by code units expect it. The column counts
//! display cells: a character takes as many cells as it has UTF-16 code
//! units, but for the characters of the emoji ranges, which always take two.
//! Only membership in those ranges is tested; no wider table of glyph widths
//! is consulted.
//!
//! Positions are resolved from byte indices, in one of two ways that give
//! the same result: from a table built once for the whole text
//! ([`precompute_char_positions`]), or one at a time by walking the text
//! ([`resolve_position`]).

use vstd::prelude::*;
use vstd::utf8::*;

verus! {

/// Number of bytes of `c` in UTF-8.
pub open spec fn utf8_len(c: char) -> nat {
    let v = c as u32;
    if v < 0x80 {
        1
    } else if v < 0x800 {
        2
    } else if v < 0x10000 {
        3
    } else {
        4
    }
}

/// Number of code units of `c` in UTF-16: two for the characters beyond the
/// basic multilingual plane, one for the others.
pub open spec fn utf16_len(c: char) -> nat {
    if (c as u32) < 0x10000 {
        1
    } else {
        2
    }
}

/// Whether `c` lies in one of the emoji ranges.
pub open spec fn is_emoji(c: char) -> bool {
    let v = c as u32;
    ||| 0x1F300 <= v <= 0x1F5FF
    ||| 0x1F600 <= v <= 0x1F64F
    ||| 0x1F680 <= v <= 0x1F6FF
    ||| 0x1F900 <= v <= 0x1F9FF
    ||| 0x2600 <= v <= 0x26FF
    ||| 0x2700 <= v <= 0x27BF
    ||| 0xFE00 <= v <= 0xFE0F
}

/// Number of display cells that `c` takes on its line.
pub open spec fn display_width(c: char) -> nat {
    if is_emoji(c) {
        2
    } else {
        utf16_len(c)
    }
}

/// Number of line feeds among the first `k` characters of `s`.
pub open spec fn line_at(s: Seq<char>, k: int) -> nat
    decreases k,
{
    if k <= 0 {
        0
    } else if s[k - 1] == '\n' {
        line_at(s, k - 1) + 1
    } else {
        line_at(s, k - 1)
    }
}

/// Display cells between the start of the line that holds character `k` of
/// `s` and that character.
pub open spec fn column_at(s: Seq<char>, k: int) -> nat
    decreases k,
{
    if k <= 0 {
        0
    } else if s[k - 1] == '\n' {
        0
    } else {
        column_at(s, k - 1) + display_width(s[k - 1])
    }
}

/// UTF-16 code units of the first `k` characters of `s`.
pub open spec fn offset_at(s: Seq<char>, k: int) -> nat
    decreases k,
{
    if k <= 0 {
        0
    } else {
        offset_at(s, k - 1) + utf16_len(s[k - 1])
    }
}

/// UTF-8 bytes of the first `k` characters of `s`: the byte index at which
/// character `k` starts.
pub open spec fn byte_at(s: Seq<char>, k: int) -> nat
    decreases k,
{
    if k <= 0 {
        0
    } else {
        byte_at(s, k - 1) + utf8_len(s[k - 1])
    }
}

/// A position as mathematics sees it.
pub struct Position {
    pub line: nat,
    pub column: nat,
    pub offset: nat,
}

/// The position of character `k` of `s`.
pub open spec fn position_at(s: Seq<char>, k: int) -> Position {
    Position { line: line_at(s, k), column: column_at(s, k), offset: offset_at(s, k) }
}

/// The table for the first `k` characters of `s`: for each of them in turn,
/// its position, once for every byte of its UTF-8 encoding.
pub open spec fn position_table(s: Seq<char>, k: int) -> Seq<Position>
    decreases k,
{
    if k <= 0 {
        Seq::empty()
    } else {
        position_table(s, k - 1) + Seq::new(utf8_len(s[k - 1]), |j: int| position_at(s, k - 1))
    }
}

/// A position in a text buffer: line, display column (`ch`) and UTF-16
/// offset.
#[derive(Clone, Copy, Debug, PartialEq, Eq)]
pub struct CharPosition {
    pub line: usize,
    pub ch: usize,
    pub offset: usize,
}

impl View for CharPosition {
    type V = Position;

    open spec fn view(&self) -> Position {
        Position { line: self.line as nat, column: self.ch as nat, offset: self.offset as nat }
    }
}

/// The positions that a sequence of records stands for.
pub open spec fn position_views(v: Seq<CharPosition>) -> Seq<Position> {
    v.map_values(|p: CharPosition| p@)
}

/// Why a position could not be resolved.
#[derive(Clone, Copy, Debug, PartialEq, Eq, Structural)]
pub enum PositionError {
    /// The byte index `index` lies beyond a text of `len` bytes.
    OutOfBounds { index: usize, len: usize },
}

/// Number of bytes of `c` in UTF-8.
pub fn char_utf8_len(c: char) -> (n: usize)
    ensures
        n == utf8_len(c),
{
    let v: u32 = c as u32;
    if v < 0x80 {
        1
    } else if v < 0x800 {
        2
    } else if v < 0x10000 {
        3
    } else {
        4
    }
}

/// Number of code units of `c` in UTF-16.
pub fn char_utf16_len(c: char) -> (n: usize)
    ensures
        n == utf16_len(c),
{
    let v: u32 = c as u32;
    if v < 0x10000 {
        1
    } else {
        2
    }
}

/// Whether `c` lies in one of the emoji ranges.
pub fn char_is_emoji(c: char) -> (b: bool)
    ensures
        b == is_emoji(c),
{
    let v: u32 = c as u32;
    (0x1F300 <= v && v <= 0x1F5FF) || (0x1F600 <= v && v <= 0x1F64F) || (0x1F680 <= v && v
        <= 0x1F6FF) || (0x1F900 <= v && v <= 0x1F9FF) || (0x2600 <= v && v <= 0x26FF) || (0x2700
        <= v && v <= 0x27BF) || (0xFE00 <= v && v <= 0xFE0F)
}

/// Number of display cells that `c` takes on its line.
pub fn char_display_width(c: char) -> (n: usize)
    ensures
        n == display_width(c),
{
    if char_is_emoji(c) {
        2
    } else {
        char_utf16_len(c)
    }
}

/// Builds the table that resolves a byte index of `src` to a position: entry
/// `b` is the position of the character whose encoding holds byte `b`.
pub fn precompute_char_positions(src: &str) -> (positions: Vec<CharPosition>)
    ensures
        position_views(positions@) == position_table(src@, src@.len() as int),
{
    let mut positions: Vec<CharPosition> = Vec::new();
    let mut line: usize = 0;
    let mut ch: usize = 0;
    let mut offset: usize = 0;
    for c in it: src.chars()
        invariant
            it.seq() == src@,
            line == line_at(src@, it.index()),
            ch == column_at(src@, it.index()),
            offset == offset_at(src@, it.index()),
            line <= positions.len(),
            ch <= positions.len(),
            offset <= positions.len(),
            position_views(positions@) == position_table(src@, it.index()),
    {
        let ghost k = it.index();
        let here = CharPosition { line, ch, offset };
        let n = char_utf8_len(c);
        let mut j: usize = 0;
        while j < n
            invariant
                j <= n,
                here.line <= positions.len() - j,
                here.ch <= positions.len() - j,
                here.offset <= positions.len() - j,
                position_views(positions@) == position_table(src@, k) + Seq::new(
                    j as nat,
                    |i: int| here@,
                ),
            decreases n - j,
        {
            let ghost before = position_views(positions@);
            positions.push(here);
            j += 1;
            assert(position_views(positions@) =~= before.push(here@));
            assert(before.push(here@) =~= position_table(src@, k) + Seq::new(
                j as nat,
                |i: int| here@,
            ));
        }
        if c == '\n' {
            line += 1;
            ch = 0;
        } else {
            ch += char_display_width(c);
        }
        offset += char_utf16_len(c);
    }
    positions
}

/// Resolves one byte index of `src` without a table, by walking the text
/// from its start: the position of the character whose encoding holds byte
/// `index`, which is entry `index` of the table of `src`. An index beyond
/// the text is an error.
pub fn resolve_position(src: &str, index: usize) -> (resolved: Result<CharPosition, PositionError>)
    ensures
        match resolved {
            Ok(position) => index < byte_at(src@, src@.len() as int) && position@ == position_table(
                src@,
                src@.len() as int,
            )[index as int],
            Err(error) => byte_at(src@, src@.len() as int) <= index && error == (
            PositionError::OutOfBounds { index, len: byte_at(src@, src@.len() as int) as usize }),
        },
{
    let mut line: usize = 0;
    let mut ch: usize = 0;
    let mut offset: usize = 0;
    let mut byte: usize = 0;
    for c in it: src.chars()
        invariant
            it.seq() == src@,
            line == line_at(src@, it.index()),
            ch == column_at(src@, it.index()),
            offset == offset_at(src@, it.index()),
            byte == byte_at(src@, it.index()),
            line <= byte,
            ch <= byte,
            offset <= byte,
            byte <= index,
    {
        let n = char_utf8_len(c);
        if index - byte < n {
            proof {
                lemma_table_entry(src@, src@.len() as int, it.index(), index as int);
            }
            return Ok(CharPosition { line, ch, offset });
        }
        byte += n;
        if c == '\n' {
            line += 1;
            ch = 0;
        } else {
            ch += char_display_width(c);
        }
        offset += char_utf16_len(c);
    }
    Err(PositionError::OutOfBounds { index, len: byte })
}

/// The table for the first `n` characters of `s` has as many entries as
/// those characters have bytes.
pub proof fn lemma_table_len(s: Seq<char>, n: int)
    requires
        n <= s.len(),
    ensures
        position_table(s, n).len() == byte_at(s, n),
    decreases n,
{
    if n > 0 {
        lemma_table_len(s, n - 1);
    }
}

/// The entries of the table for the bytes of character `k` hold the position
/// of character `k`.
pub proof fn lemma_table_entry(s: Seq<char>, n: int, k: int, b: int)
    requires
        0 <= k < n <= s.len(),
        byte_at(s, k) <= b < byte_at(s, k + 1),
    ensures
        b < byte_at(s, n) == position_table(s, n).len(),
        position_table(s, n)[b] == position_at(s, k),
    decreases n,
{
    lemma_table_len(s, n);
    lemma_table_len(s, n - 1);
    if k < n - 1 {
        lemma_table_entry(s, n - 1, k, b);
    }
}

/// Characters start at growing byte indices.
pub proof fn lemma_byte_at_increases(s: Seq<char>, i: int, j: int)
    requires
        0 <= i <= j,
    ensures
        byte_at(s, i) + (j - i) <= byte_at(s, j),
    decreases j - i,
{
    if i < j {
        lemma_byte_at_increases(s, i, j - 1);
    }
}

/// No measure of a position exceeds the byte index of its character: lines,
/// columns and offsets fit wherever the length of the text fits.
pub proof fn lemma_position_bounded(s: Seq<char>, k: int)
    ensures
        line_at(s, k) <= byte_at(s, k),
        column_at(s, k) <= byte_at(s, k),
        offset_at(s, k) <= byte_at(s, k),
    decreases k,
{
    if k > 0 {
        lemma_position_bounded(s, k - 1);
    }
}

/// The UTF-8 encoding of `c` has `utf8_len(c)` bytes.
pub proof fn lemma_utf8_len(c: char)
    ensures
        encode_scalar(c as u32).len() == utf8_len(c),
{
}

proof fn lemma_encode_push(s: Seq<char>, c: char)
    ensures
        encode_utf8(s.push(c)) == encode_utf8(s) + encode_scalar(c as u32),
    decreases s.len(),
{
    if s.len() == 0 {
        assert(s.push(c).drop_first() =~= s);
        assert(encode_utf8(s.push(c)) =~= encode_utf8(s) + encode_scalar(c as u32));
    } else {
        lemma_encode_push(s.drop_first(), c);
        assert(s.push(c).drop_first() =~= s.drop_first().push(c));
        assert(encode_utf8(s.push(c)) =~= encode_utf8(s) + encode_scalar(c as u32));
    }
}

/// Character `k` of `s` starts where the UTF-8 encoding of the characters
/// before it ends, so that the table of a text has one entry for each byte
/// of its encoding.
pub proof fn lemma_byte_at_is_encoded_len(s: Seq<char>, k: int)
    requires
        0 <= k <= s.len(),
    ensures
        byte_at(s, k) == encode_utf8(s.take(k)).len(),
        position_table(s, k).len() == encode_utf8(s.take(k)).len(),
    decreases k,
{
    lemma_table_len(s, k);
    if k > 0 {
        lemma_byte_at_is_encoded_len(s, k - 1);
        lemma_encode_push(s.take(k - 1), s[k - 1]);
        lemma_utf8_len(s[k - 1]);
        assert(s.take(k) =~= s.take(k - 1).push(s[k - 1]));
    }
}

} // verus!
