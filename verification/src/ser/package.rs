//! Packages: the record of a package, decimal numbers, and versions.

use vstd::prelude::*;
use vstd::string::StringExecFns;

verus! {

/// The character for the digit `d`.
pub open spec fn digit_char(d: nat) -> char {
    if d == 0 {
        '0'
    } else if d == 1 {
        '1'
    } else if d == 2 {
        '2'
    } else if d == 3 {
        '3'
    } else if d == 4 {
        '4'
    } else if d == 5 {
        '5'
    } else if d == 6 {
        '6'
    } else if d == 7 {
        '7'
    } else if d == 8 {
        '8'
    } else {
        '9'
    }
}

/// The decimal digits of `n`, the most significant first, without leading
/// zeros.
pub open spec fn decimal(n: nat) -> Seq<char>
    decreases n,
{
    if n < 10 {
        seq![digit_char(n)]
    } else {
        decimal(n / 10).push(digit_char(n % 10))
    }
}

/// The text of the version `major.minor.patch`.
pub open spec fn version_text(major: u32, minor: u32, patch: u32) -> Seq<char> {
    decimal(major as nat) + seq!['.'] + decimal(minor as nat) + seq!['.'] + decimal(patch as nat)
}

fn digit_str(d: u32) -> (s: &'static str)
    requires
        d < 10,
    ensures
        s@ == seq![digit_char(d as nat)],
{
    proof {
        reveal_strlit("0");
        reveal_strlit("1");
        reveal_strlit("2");
        reveal_strlit("3");
        reveal_strlit("4");
        reveal_strlit("5");
        reveal_strlit("6");
        reveal_strlit("7");
        reveal_strlit("8");
        reveal_strlit("9");
    }
    let s = match d {
        0 => "0",
        1 => "1",
        2 => "2",
        3 => "3",
        4 => "4",
        5 => "5",
        6 => "6",
        7 => "7",
        8 => "8",
        _ => "9",
    };
    assert(s@ =~= seq![digit_char(d as nat)]);
    s
}

/// Appends the decimal digits of `n` to `out`.
pub fn push_decimal(out: &mut String, n: u32)
    ensures
        final(out)@ == old(out)@ + decimal(n as nat),
    decreases n,
{
    if n >= 10 {
        push_decimal(out, n / 10);
    }
    out.append(digit_str(n % 10));
    proof {
        if n >= 10 {
            assert(old(out)@ + decimal(n as nat / 10) + seq![digit_char(n as nat % 10)] =~= old(
                out,
            )@ + decimal(n as nat));
        }
    }
}

/// The text of the version `major.minor.patch`.
pub fn format_version(major: u32, minor: u32, patch: u32) -> (text: String)
    ensures
        text@ == version_text(major, minor, patch),
{
    proof {
        reveal_strlit(".");
    }
    let mut text = String::new();
    push_decimal(&mut text, major);
    text.append(".");
    push_decimal(&mut text, minor);
    text.append(".");
    push_decimal(&mut text, patch);
    assert(text@ =~= version_text(major, minor, patch));
    text
}

/// The record of a package: its namespace, its name and its version as
/// text.
#[derive(Clone, Debug, PartialEq, Eq)]
pub struct PackageSpecSer {
    pub namespace: String,
    pub name: String,
    pub version: String,
}

impl PackageSpecSer {
    /// The record of the package `namespace`/`name` in the version
    /// `major.minor.patch`.
    pub fn new(namespace: String, name: String, major: u32, minor: u32, patch: u32) -> (spec:
        PackageSpecSer)
        ensures
            spec.namespace == namespace,
            spec.name == name,
            spec.version@ == version_text(major, minor, patch),
    {
        PackageSpecSer { namespace, name, version: format_version(major, minor, patch) }
    }
}

} // verus!
