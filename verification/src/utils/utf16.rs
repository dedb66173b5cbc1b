//! The UTF-16 encoding of a text, and how offsets index it.

use vstd::prelude::*;
use crate::utils::char_position::{offset_at, utf16_len};

verus! {

/// The UTF-16 code units of `c`: the character itself in the basic
/// multilingual plane, a surrogate pair beyond it.
pub open spec fn units_of(c: char) -> Seq<u16> {
    let v = c as u32 as int;
    if v < 0x10000 {
        seq![v as u16]
    } else {
        seq![(0xD800 + (v - 0x10000) / 0x400) as u16, (0xDC00 + (v - 0x10000) % 0x400) as u16]
    }
}

/// The UTF-16 code units of the first `k` characters of `s`.
pub open spec fn units(s: Seq<char>, k: int) -> Seq<u16>
    decreases k,
{
    if k <= 0 {
        Seq::empty()
    } else {
        units(s, k - 1) + units_of(s[k - 1])
    }
}

/// The offset of a character is the number of code units before it.
pub proof fn lemma_offset_is_units(s: Seq<char>, k: int)
    ensures
        units(s, k).len() == offset_at(s, k),
    decreases k,
{
    if k > 0 {
        lemma_offset_is_units(s, k - 1);
    }
}

/// Offsets grow with the index, by at least one for each character.
pub proof fn lemma_offset_increases(s: Seq<char>, i: int, j: int)
    requires
        0 <= i <= j,
    ensures
        offset_at(s, i) + (j - i) <= offset_at(s, j),
    decreases j - i,
{
    if i < j {
        lemma_offset_increases(s, i, j - 1);
    }
}

/// The code units of a longer prefix start with those of a shorter one.
pub proof fn lemma_units_prefix(s: Seq<char>, i: int, j: int)
    requires
        0 <= i <= j,
    ensures
        units(s, i).len() <= units(s, j).len(),
        units(s, j).subrange(0, units(s, i).len() as int) == units(s, i),
    decreases j - i,
{
    if i < j {
        lemma_units_prefix(s, i, j - 1);
        assert(units(s, j).subrange(0, units(s, i).len() as int) =~= units(s, j - 1).subrange(
            0,
            units(s, i).len() as int,
        ));
    } else {
        assert(units(s, j).subrange(0, units(s, i).len() as int) =~= units(s, i));
    }
}

/// The code units between the offsets of two characters are the encoding of
/// the text between them.
pub proof fn lemma_units_between(s: Seq<char>, i: int, j: int, n: int)
    requires
        0 <= i <= j <= n <= s.len(),
    ensures
        offset_at(s, i) <= offset_at(s, j) <= units(s, n).len(),
        units(s, n).subrange(offset_at(s, i) as int, offset_at(s, j) as int) == units(
            s.subrange(i, j),
            j - i,
        ),
    decreases j - i,
{
    lemma_offset_is_units(s, i);
    lemma_offset_is_units(s, j);
    lemma_offset_is_units(s, n);
    lemma_offset_increases(s, i, j);
    lemma_units_prefix(s, j, n);
    lemma_units_prefix(s, i, j);
    let part = s.subrange(i, j);
    let all = units(s, n);
    let a = offset_at(s, i) as int;
    let c = offset_at(s, j) as int;
    if i < j {
        let b = offset_at(s, j - 1) as int;
        lemma_units_between(s, i, j - 1, n);
        lemma_offset_is_units(s, j - 1);
        lemma_same_units(part, s.subrange(i, j - 1), j - i - 1);
        assert(part[j - i - 1] == s[j - 1]);
        assert(all.subrange(0, c) == units(s, j - 1) + units_of(s[j - 1]));
        assert(all.subrange(b, c) =~= units_of(s[j - 1])) by {
            assert forall|t: int| 0 <= t < c - b implies all.subrange(b, c)[t] == units_of(
                s[j - 1],
            )[t] by {
                assert(all.subrange(0, c)[b + t] == all[b + t]);
            }
        }
        assert(all.subrange(a, c) =~= all.subrange(a, b) + all.subrange(b, c));
    } else {
        assert(all.subrange(a, c) =~= units(part, 0));
    }
}

/// Texts that agree on their first `k` characters have the same first code
/// units.
pub proof fn lemma_same_units(a: Seq<char>, b: Seq<char>, k: int)
    requires
        k <= a.len(),
        k <= b.len(),
        forall|i: int| 0 <= i < k ==> a[i] == b[i],
    ensures
        units(a, k) == units(b, k),
    decreases k,
{
    if k > 0 {
        lemma_same_units(a, b, k - 1);
    }
}

/// At the offset of a character of the basic multilingual plane stands the
/// character itself.
pub proof fn lemma_unit_at_offset(s: Seq<char>, k: int, n: int)
    requires
        0 <= k < n <= s.len(),
        (s[k] as u32) < 0x10000,
    ensures
        offset_at(s, k) < units(s, n).len(),
        units(s, n)[offset_at(s, k) as int] as u32 == s[k] as u32,
{
    lemma_units_between(s, k, k + 1, n);
    let part = s.subrange(k, k + 1);
    reveal_with_fuel(units, 2);
    assert(part[0] == s[k]);
    assert(units(part, 1) =~= units_of(s[k]));
    assert(units(s, n).subrange(offset_at(s, k) as int, offset_at(s, k + 1) as int)[0] == units_of(
        s[k],
    )[0]);
}

} // verus!
