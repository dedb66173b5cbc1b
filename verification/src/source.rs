//! The paths under which the editor and the host name sources.
//!
//! A path that starts with `@` names a file of a package:
//! `@namespace/name/version/path`, where the version is three decimal numbers
//! with dots between them and the path may itself hold slashes. Any other
//! path names a file of the project.

use vstd::prelude::*;
use vstd::string::{StrSliceExecFns, StringExecFns};
use crate::ser::package::{decimal, digit_char, push_decimal, version_text};

verus! {

/// The first index from `from` on at which `s` holds `c`, or the length of
/// `s` where it holds none there.
pub open spec fn find(s: Seq<char>, c: char, from: int) -> int
    decreases s.len() - from,
{
    if from >= s.len() {
        s.len() as int
    } else if from >= 0 && s[from] == c {
        from
    } else {
        find(s, c, from + 1)
    }
}

/// Whether `c` is a decimal digit.
pub open spec fn is_digit(c: char) -> bool {
    '0' <= c <= '9'
}

/// The number that the decimal digits `s` write.
pub open spec fn digits_value(s: Seq<char>) -> nat
    decreases s.len(),
{
    if s.len() == 0 {
        0
    } else {
        digits_value(s.drop_last()) * 10 + (s.last() as u32 - '0' as u32) as nat
    }
}

/// Whether `s` holds decimal digits only.
pub open spec fn all_digits(s: Seq<char>) -> bool {
    forall|i: int| 0 <= i < s.len() ==> is_digit(#[trigger] s[i])
}

/// `s` without the plus sign that it may start with.
pub open spec fn unsigned_part(s: Seq<char>) -> Seq<char> {
    if s.len() > 0 && s[0] == '+' {
        s.skip(1)
    } else {
        s
    }
}

/// The number that `s` writes: decimal digits, at least one, after at most
/// one plus sign, with a value that fits in 32 bits.
pub open spec fn number_of(s: Seq<char>) -> Option<u32> {
    let digits = unsigned_part(s);
    if digits.len() > 0 && all_digits(digits) && digits_value(digits) <= u32::MAX {
        Some(digits_value(digits) as u32)
    } else {
        None
    }
}

/// The version that `v` writes: its first three parts between dots, each a
/// number. Further parts are not read.
pub open spec fn version_of(v: Seq<char>) -> Option<(u32, u32, u32)> {
    let x = find(v, '.', 0);
    let y = find(v, '.', x + 1);
    let z = find(v, '.', y + 1);
    if y >= v.len() {
        None
    } else {
        match (
            number_of(v.subrange(0, x)),
            number_of(v.subrange(x + 1, y)),
            number_of(v.subrange(y + 1, z)),
        ) {
            (Some(major), Some(minor), Some(patch)) => Some((major, minor, patch)),
            _ => None,
        }
    }
}

/// What a path names, as mathematics sees it.
pub enum Target {
    /// A file of the project, under the path as it stands.
    Plain,
    /// A file of a package.
    Package {
        namespace: Seq<char>,
        name: Seq<char>,
        major: u32,
        minor: u32,
        patch: u32,
        vpath: Seq<char>,
    },
    /// A path that starts with `@` and is not of the form of a package
    /// file.
    Malformed,
}

/// What the path `p` names.
pub open spec fn target_of(p: Seq<char>) -> Target {
    if p.len() == 0 || p[0] != '@' {
        Target::Plain
    } else {
        let a = find(p, '/', 1);
        let b = find(p, '/', a + 1);
        let c = find(p, '/', b + 1);
        if c >= p.len() {
            Target::Malformed
        } else {
            match version_of(p.subrange(b + 1, c)) {
                Some((major, minor, patch)) => Target::Package {
                    namespace: p.subrange(1, a),
                    name: p.subrange(a + 1, b),
                    major,
                    minor,
                    patch,
                    vpath: p.subrange(c + 1, p.len() as int),
                },
                None => Target::Malformed,
            }
        }
    }
}

/// The path of the file `vpath` of the package `namespace`/`name` in the
/// version `major.minor.patch`.
pub open spec fn package_path(
    namespace: Seq<char>,
    name: Seq<char>,
    major: u32,
    minor: u32,
    patch: u32,
    vpath: Seq<char>,
) -> Seq<char> {
    seq!['@'] + namespace + seq!['/'] + name + seq!['/'] + version_text(major, minor, patch)
        + seq!['/'] + vpath
}

/// What a path names.
#[derive(Clone, Debug, PartialEq, Eq)]
pub enum SourcePath {
    Plain,
    Package { namespace: String, name: String, major: u32, minor: u32, patch: u32, vpath: String },
    Malformed,
}

impl View for SourcePath {
    type V = Target;

    open spec fn view(&self) -> Target {
        match self {
            SourcePath::Plain => Target::Plain,
            SourcePath::Package { namespace, name, major, minor, patch, vpath } => Target::Package {
                namespace: namespace@,
                name: name@,
                major: *major,
                minor: *minor,
                patch: *patch,
                vpath: vpath@,
            },
            SourcePath::Malformed => Target::Malformed,
        }
    }
}

/// The characters of `s`.
fn collect_chars(s: &str) -> (chars: Vec<char>)
    ensures
        chars@ == s@,
{
    let mut chars: Vec<char> = Vec::new();
    for c in it: s.chars()
        invariant
            it.seq() == s@,
            chars@ == s@.take(it.index()),
    {
        proof {
            assert(s@.take(it.index() + 1) =~= s@.take(it.index()).push(c));
        }
        chars.push(c);
    }
    proof {
        assert(s@.take(s@.len() as int) =~= s@);
    }
    chars
}

/// The first index from `from` on at which `chars` holds `c`, or the length
/// of `chars`.
fn find_char(chars: &Vec<char>, c: char, from: usize) -> (at: usize)
    ensures
        at == find(chars@, c, from as int),
        from <= chars@.len() ==> from <= at <= chars@.len(),
{
    if from >= chars.len() {
        return chars.len();
    }
    let mut i = from;
    while i < chars.len()
        invariant
            from <= i <= chars@.len(),
            find(chars@, c, from as int) == find(chars@, c, i as int),
        decreases chars@.len() - i,
    {
        if chars[i] == c {
            return i;
        }
        i += 1;
    }
    i
}

proof fn lemma_digits_grow(s: Seq<char>, k: int)
    requires
        0 <= k <= s.len(),
    ensures
        digits_value(s.take(k)) <= digits_value(s),
    decreases s.len() - k,
{
    if k < s.len() {
        lemma_digits_grow(s, k + 1);
        assert(s.take(k + 1).drop_last() =~= s.take(k));
    } else {
        assert(s.take(k) =~= s);
    }
}

/// The number that the characters of `chars` from `from` up to `to` write.
fn parse_number(chars: &Vec<char>, from: usize, to: usize) -> (number: Option<u32>)
    requires
        from <= to <= chars@.len(),
    ensures
        number == number_of(chars@.subrange(from as int, to as int)),
{
    let ghost s = chars@.subrange(from as int, to as int);
    let start = if from < to && chars[from] == '+' {
        from + 1
    } else {
        from
    };
    let ghost digits = chars@.subrange(start as int, to as int);
    proof {
        if s.len() > 0 {
            assert(s[0] == chars@[from as int]);
        }
        if start == from + 1 {
            assert(s.skip(1) =~= digits);
        } else {
            assert(s =~= digits);
        }
        assert(unsigned_part(s) == digits);
    }
    if start == to {
        return None;
    }
    let mut value: u32 = 0;
    let mut i = start;
    while i < to
        invariant
            from <= start <= i <= to <= chars@.len(),
            digits == chars@.subrange(start as int, to as int),
            unsigned_part(chars@.subrange(from as int, to as int)) == digits,
            forall|j: int| 0 <= j < i - start ==> is_digit(#[trigger] digits[j]),
            value == digits_value(digits.take(i - start)),
        decreases to - i,
    {
        let c = chars[i];
        proof {
            assert(digits[i - start] == c);
            assert(digits.take(i - start + 1).drop_last() =~= digits.take(i - start));
            lemma_digits_grow(digits, i - start + 1);
        }
        if c < '0' || c > '9' {
            assert(!is_digit(digits[i - start]));
            return None;
        }
        let d: u32 = c as u32 - '0' as u32;
        assert(digits_value(digits.take(i - start + 1)) == value * 10 + d) by {
            assert(digits.take(i - start + 1).last() == c);
        }
        if value > (u32::MAX - d) / 10 {
            return None;
        }
        value = value * 10 + d;
        i += 1;
    }
    proof {
        assert(digits.take(to - start) =~= digits);
    }
    Some(value)
}

/// The version that the characters of `chars` from `from` up to `to`
/// write.
fn parse_version(chars: &Vec<char>, from: usize, to: usize) -> (version: Option<(u32, u32, u32)>)
    requires
        from <= to <= chars@.len(),
    ensures
        version == version_of(chars@.subrange(from as int, to as int)),
{
    let ghost v = chars@.subrange(from as int, to as int);
    let x = find_in(chars, '.', from, from, to);
    if x >= to {
        proof {
            lemma_find_at_end(v, '.', (x - from) as int + 1);
        }
        return None;
    }
    let y = find_in(chars, '.', from, x + 1, to);
    if y >= to {
        return None;
    }
    let z = find_in(chars, '.', from, y + 1, to);
    proof {
        assert(v.subrange(0, x - from) =~= chars@.subrange(from as int, x as int));
        assert(v.subrange(x - from + 1, y - from) =~= chars@.subrange(x + 1, y as int));
        assert(v.subrange(y - from + 1, z - from) =~= chars@.subrange(y + 1, z as int));
    }
    let major = parse_number(chars, from, x);
    let minor = parse_number(chars, x + 1, y);
    let patch = parse_number(chars, y + 1, z);
    match (major, minor, patch) {
        (Some(major), Some(minor), Some(patch)) => Some((major, minor, patch)),
        _ => None,
    }
}

proof fn lemma_find_at_end(s: Seq<char>, c: char, from: int)
    requires
        from >= s.len(),
    ensures
        find(s, c, from) == s.len(),
{
}

/// The first index from `at` on, before `to`, at which `chars` holds `c`,
/// or `to`: the search of `find` within the part of `chars` from `base` up
/// to `to`.
fn find_in(chars: &Vec<char>, c: char, base: usize, at: usize, to: usize) -> (found: usize)
    requires
        base <= at <= to <= chars@.len(),
    ensures
        at <= found <= to,
        found - base == find(chars@.subrange(base as int, to as int), c, at - base),
{
    let ghost part = chars@.subrange(base as int, to as int);
    let mut i = at;
    while i < to
        invariant
            base <= at <= i <= to <= chars@.len(),
            part == chars@.subrange(base as int, to as int),
            find(part, c, at - base) == find(part, c, i - base),
        decreases to - i,
    {
        if chars[i] == c {
            assert(part[i - base] == c);
            return i;
        }
        assert(part[i - base] == chars@[i as int]);
        i += 1;
    }
    i
}

/// Reads the path `rpath`.
pub fn parse_source_path(rpath: &str) -> (parsed: SourcePath)
    ensures
        parsed@ == target_of(rpath@),
{
    let chars = collect_chars(rpath);
    let n = chars.len();
    if n == 0 || chars[0] != '@' {
        return SourcePath::Plain;
    }
    let a = find_char(&chars, '/', 1);
    if a >= n {
        proof {
            lemma_find_at_end(chars@, '/', a + 1);
            lemma_find_at_end(chars@, '/', n + 1);
        }
        return SourcePath::Malformed;
    }
    let b = find_char(&chars, '/', a + 1);
    if b >= n {
        proof {
            lemma_find_at_end(chars@, '/', b + 1);
        }
        return SourcePath::Malformed;
    }
    let c = find_char(&chars, '/', b + 1);
    if c >= n {
        return SourcePath::Malformed;
    }
    match parse_version(&chars, b + 1, c) {
        Some((major, minor, patch)) => {
            let namespace = rpath.substring_char(1, a).to_owned();
            let name = rpath.substring_char(a + 1, b).to_owned();
            let vpath = rpath.substring_char(c + 1, n).to_owned();
            SourcePath::Package { namespace, name, major, minor, patch, vpath }
        },
        None => SourcePath::Malformed,
    }
}

/// The path under which the host is asked for the file `vpath` of the
/// package `namespace`/`name` in the version `major.minor.patch`.
pub fn format_package_path(
    namespace: &str,
    name: &str,
    major: u32,
    minor: u32,
    patch: u32,
    vpath: &str,
) -> (path: String)
    ensures
        path@ == package_path(namespace@, name@, major, minor, patch, vpath@),
{
    proof {
        reveal_strlit("@");
        reveal_strlit("/");
        reveal_strlit(".");
    }
    let mut path = "@".to_owned();
    path.append(namespace);
    path.append("/");
    path.append(name);
    path.append("/");
    push_decimal(&mut path, major);
    path.append(".");
    push_decimal(&mut path, minor);
    path.append(".");
    push_decimal(&mut path, patch);
    path.append("/");
    path.append(vpath);
    assert(path@ =~= package_path(namespace@, name@, major, minor, patch, vpath@));
    path
}

/// Where `find` stops: at the first place that holds the character.
pub proof fn lemma_find(s: Seq<char>, c: char, from: int, at: int)
    requires
        0 <= from <= at < s.len(),
        s[at] == c,
        forall|k: int| from <= k < at ==> #[trigger] s[k] != c,
    ensures
        find(s, c, from) == at,
    decreases at - from,
{
    if from < at {
        assert(s[from] != c);
        lemma_find(s, c, from + 1, at);
    }
}

/// Where `find` stops when nothing is found: at the end.
pub proof fn lemma_find_none(s: Seq<char>, c: char, from: int)
    requires
        0 <= from,
        forall|k: int| from <= k < s.len() ==> #[trigger] s[k] != c,
    ensures
        find(s, c, from) == s.len(),
    decreases s.len() - from,
{
    if from < s.len() {
        assert(s[from] != c);
        lemma_find_none(s, c, from + 1);
    }
}

/// The decimal digits of a number are digits, at least one, and write that
/// number.
pub proof fn lemma_decimal(n: nat)
    ensures
        decimal(n).len() > 0,
        all_digits(decimal(n)),
        digits_value(decimal(n)) == n,
    decreases n,
{
    if n < 10 {
        assert(decimal(n).drop_last() =~= Seq::<char>::empty());
        assert(digits_value(decimal(n).drop_last()) == 0);
        assert(decimal(n).last() == digit_char(n));
    } else {
        lemma_decimal(n / 10);
        assert(decimal(n).drop_last() =~= decimal(n / 10));
        assert(decimal(n).last() == digit_char(n % 10));
    }
}

/// A number is read back from its decimal digits.
pub proof fn lemma_number_round_trip(n: u32)
    ensures
        number_of(decimal(n as nat)) == Some(n),
{
    lemma_decimal(n as nat);
    assert(is_digit(decimal(n as nat)[0]));
}

/// A version is read back from its text.
pub proof fn lemma_version_round_trip(major: u32, minor: u32, patch: u32)
    ensures
        version_of(version_text(major, minor, patch)) == Some((major, minor, patch)),
        forall|k: int|
            0 <= k < version_text(major, minor, patch).len() ==> #[trigger] version_text(
                major,
                minor,
                patch,
            )[k] != '/',
{
    let a = decimal(major as nat);
    let b = decimal(minor as nat);
    let c = decimal(patch as nat);
    let v = version_text(major, minor, patch);
    lemma_decimal(major as nat);
    lemma_decimal(minor as nat);
    lemma_decimal(patch as nat);
    lemma_number_round_trip(major);
    lemma_number_round_trip(minor);
    lemma_number_round_trip(patch);
    let x = a.len() as int;
    let y = x + 1 + b.len();
    assert forall|k: int| 0 <= k < v.len() implies (if k < x {
        v[k] == a[k]
    } else if k == x {
        v[k] == '.'
    } else if k < y {
        v[k] == b[k - x - 1]
    } else if k == y {
        v[k] == '.'
    } else {
        v[k] == c[k - y - 1]
    }) by {}
    assert forall|k: int| 0 <= k < x implies #[trigger] v[k] != '.' by {
        assert(is_digit(a[k]));
    }
    assert forall|k: int| x + 1 <= k < y implies #[trigger] v[k] != '.' by {
        assert(is_digit(b[k - x - 1]));
    }
    assert forall|k: int| y + 1 <= k < v.len() implies #[trigger] v[k] != '.' by {
        assert(is_digit(c[k - y - 1]));
    }
    lemma_find(v, '.', 0, x);
    lemma_find(v, '.', x + 1, y);
    lemma_find_none(v, '.', y + 1);
    assert(v.subrange(0, x) =~= a);
    assert(v.subrange(x + 1, y) =~= b);
    assert(v.subrange(y + 1, v.len() as int) =~= c);
    assert forall|k: int| 0 <= k < v.len() implies #[trigger] v[k] != '/' by {
        if k < x {
            assert(is_digit(a[k]));
        } else if x < k < y {
            assert(is_digit(b[k - x - 1]));
        } else if k > y {
            assert(is_digit(c[k - y - 1]));
        }
    }
}

/// The path of a package file is read back as that file, as long as neither
/// the namespace nor the name holds a slash.
pub proof fn lemma_package_path_round_trip(
    namespace: Seq<char>,
    name: Seq<char>,
    major: u32,
    minor: u32,
    patch: u32,
    vpath: Seq<char>,
)
    requires
        forall|k: int| 0 <= k < namespace.len() ==> #[trigger] namespace[k] != '/',
        forall|k: int| 0 <= k < name.len() ==> #[trigger] name[k] != '/',
    ensures
        target_of(package_path(namespace, name, major, minor, patch, vpath)) == (Target::Package {
            namespace,
            name,
            major,
            minor,
            patch,
            vpath,
        }),
{
    let v = version_text(major, minor, patch);
    let p = package_path(namespace, name, major, minor, patch, vpath);
    lemma_version_round_trip(major, minor, patch);
    let a = 1 + namespace.len() as int;
    let b = a + 1 + name.len();
    let c = b + 1 + v.len();
    assert forall|k: int| 0 <= k < p.len() implies (if k == 0 {
        p[k] == '@'
    } else if k < a {
        p[k] == namespace[k - 1]
    } else if k == a {
        p[k] == '/'
    } else if k < b {
        p[k] == name[k - a - 1]
    } else if k == b {
        p[k] == '/'
    } else if k < c {
        p[k] == v[k - b - 1]
    } else if k == c {
        p[k] == '/'
    } else {
        p[k] == vpath[k - c - 1]
    }) by {}
    assert forall|k: int| 1 <= k < a implies #[trigger] p[k] != '/' by {
        assert(p[k] == namespace[k - 1]);
    }
    assert forall|k: int| a + 1 <= k < b implies #[trigger] p[k] != '/' by {
        assert(p[k] == name[k - a - 1]);
    }
    assert forall|k: int| b + 1 <= k < c implies #[trigger] p[k] != '/' by {
        assert(p[k] == v[k - b - 1]);
    }
    assert(p[0] == '@');
    assert(p[a] == '/');
    assert(p[b] == '/');
    assert(p[c] == '/');
    lemma_find(p, '/', 1, a);
    lemma_find(p, '/', a + 1, b);
    lemma_find(p, '/', b + 1, c);
    assert(p.subrange(1, a) =~= namespace);
    assert(p.subrange(a + 1, b) =~= name);
    assert(p.subrange(b + 1, c) =~= v);
    assert(p.subrange(c + 1, p.len() as int) =~= vpath);
}

} // verus!
