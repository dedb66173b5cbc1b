//! Scans a text for the delimiters `(`, `)`, `[`, `]`, `{`, `}` that stand
//! outside string literals and comments, and resolves the position of each.
//!
//! The scanner is a state machine with four modes that exclude one another.
//! Nothing makes it fail: a string or a comment that the text never closes
//! suppresses the delimiters up to the end of the text.

use vstd::prelude::*;
use vstd::std_specs::iter::IteratorSpec;
use crate::utils::char_position::{
    byte_at, char_utf8_len, lemma_byte_at_increases, lemma_table_entry, lemma_table_len,
    position_at, position_table, position_views, precompute_char_positions, CharPosition,
    Position,
};

verus! {

/// The three families of delimiters.
#[derive(Clone, Copy, Debug, PartialEq, Eq, Structural)]
pub enum BracketFamily {
    Paren,
    Bracket,
    Brace,
}

/// What a delimiter is: its family, and whether it opens or closes.
#[derive(Clone, Copy, Debug, PartialEq, Eq, Structural)]
pub enum BracketKind {
    ParenOpen,
    ParenClose,
    BracketOpen,
    BracketClose,
    BraceOpen,
    BraceClose,
}

impl BracketFamily {
    /// The kind that opens the family.
    pub open spec fn opening(self) -> BracketKind {
        match self {
            BracketFamily::Paren => BracketKind::ParenOpen,
            BracketFamily::Bracket => BracketKind::BracketOpen,
            BracketFamily::Brace => BracketKind::BraceOpen,
        }
    }

    /// The kind that closes the family.
    pub open spec fn closing(self) -> BracketKind {
        match self {
            BracketFamily::Paren => BracketKind::ParenClose,
            BracketFamily::Bracket => BracketKind::BracketClose,
            BracketFamily::Brace => BracketKind::BraceClose,
        }
    }
}

impl BracketKind {
    /// Whether the delimiter opens.
    pub open spec fn opens(self) -> bool {
        self == BracketKind::ParenOpen || self == BracketKind::BracketOpen || self
            == BracketKind::BraceOpen
    }

    /// The family of the delimiter.
    pub open spec fn family_of(self) -> BracketFamily {
        match self {
            BracketKind::ParenOpen | BracketKind::ParenClose => BracketFamily::Paren,
            BracketKind::BracketOpen | BracketKind::BracketClose => BracketFamily::Bracket,
            BracketKind::BraceOpen | BracketKind::BraceClose => BracketFamily::Brace,
        }
    }

    /// The kind that opens the family of the delimiter.
    pub open spec fn opener_of(self) -> BracketKind {
        match self {
            BracketKind::ParenOpen | BracketKind::ParenClose => BracketKind::ParenOpen,
            BracketKind::BracketOpen | BracketKind::BracketClose => BracketKind::BracketOpen,
            BracketKind::BraceOpen | BracketKind::BraceClose => BracketKind::BraceOpen,
        }
    }

    /// Whether the delimiter opens.
    #[verifier::when_used_as_spec(opens)]
    pub fn is_open(self) -> (b: bool)
        ensures
            b == self.opens(),
    {
        match self {
            BracketKind::ParenOpen | BracketKind::BracketOpen | BracketKind::BraceOpen => true,
            _ => false,
        }
    }

    /// The family of the delimiter.
    #[verifier::when_used_as_spec(family_of)]
    pub fn family(self) -> (f: BracketFamily)
        ensures
            f == self.family_of(),
    {
        match self {
            BracketKind::ParenOpen | BracketKind::ParenClose => BracketFamily::Paren,
            BracketKind::BracketOpen | BracketKind::BracketClose => BracketFamily::Bracket,
            BracketKind::BraceOpen | BracketKind::BraceClose => BracketFamily::Brace,
        }
    }

    /// The kind that opens the family of the delimiter: the kind that a
    /// closer looks for.
    #[verifier::when_used_as_spec(opener_of)]
    pub fn opener(self) -> (k: BracketKind)
        ensures
            k == self.opener_of(),
    {
        match self {
            BracketKind::ParenOpen | BracketKind::ParenClose => BracketKind::ParenOpen,
            BracketKind::BracketOpen | BracketKind::BracketClose => BracketKind::BracketOpen,
            BracketKind::BraceOpen | BracketKind::BraceClose => BracketKind::BraceOpen,
        }
    }
}

/// The kind of delimiter that `c` is, if it is one.
pub open spec fn delimiter_kind(c: char) -> Option<BracketKind> {
    if c == '(' {
        Some(BracketKind::ParenOpen)
    } else if c == ')' {
        Some(BracketKind::ParenClose)
    } else if c == '[' {
        Some(BracketKind::BracketOpen)
    } else if c == ']' {
        Some(BracketKind::BracketClose)
    } else if c == '{' {
        Some(BracketKind::BraceOpen)
    } else if c == '}' {
        Some(BracketKind::BraceClose)
    } else {
        None
    }
}

/// The kind of delimiter that `c` is, if it is one.
#[verifier::when_used_as_spec(delimiter_kind)]
pub fn classify(c: char) -> (k: Option<BracketKind>)
    ensures
        k == delimiter_kind(c),
{
    match c {
        '(' => Some(BracketKind::ParenOpen),
        ')' => Some(BracketKind::ParenClose),
        '[' => Some(BracketKind::BracketOpen),
        ']' => Some(BracketKind::BracketClose),
        '{' => Some(BracketKind::BraceOpen),
        '}' => Some(BracketKind::BraceClose),
        _ => None,
    }
}

/// The mode of the scanner before it reads a character.
pub enum Mode {
    /// Outside strings and comments.
    Neutral,
    /// Inside a string; `escaped` when the character before was an
    /// unescaped backslash.
    InString { escaped: bool },
    /// Inside a comment that the next line feed ends.
    LineComment,
    /// Inside `depth` block comments, one within the other.
    BlockComment { depth: nat },
}

/// What the scanner does at one character.
pub struct Step {
    /// The mode after the character.
    pub mode: Mode,
    /// Whether the character after it is consumed with it.
    pub pair: bool,
    /// The kind of the delimiter, where the character counts as one.
    pub emit: Option<BracketKind>,
}

/// The step at character `c` in mode `mode`, where `next` is the character
/// after `c`, if the text has one.
pub open spec fn step(mode: Mode, c: char, next: Option<char>) -> Step {
    match mode {
        Mode::InString { escaped } => {
            let after = if escaped {
                Mode::InString { escaped: false }
            } else if c == '"' {
                Mode::Neutral
            } else if c == '\\' {
                Mode::InString { escaped: true }
            } else {
                Mode::InString { escaped: false }
            };
            Step { mode: after, pair: false, emit: None }
        },
        Mode::LineComment => {
            let after = if c == '\n' {
                Mode::Neutral
            } else {
                Mode::LineComment
            };
            Step { mode: after, pair: false, emit: None }
        },
        Mode::BlockComment { depth } => {
            if c == '*' && next == Some('/') {
                let after = if depth <= 1 {
                    Mode::Neutral
                } else {
                    Mode::BlockComment { depth: (depth - 1) as nat }
                };
                Step { mode: after, pair: true, emit: None }
            } else if c == '/' && next == Some('*') {
                Step { mode: Mode::BlockComment { depth: depth + 1 }, pair: true, emit: None }
            } else {
                Step { mode: mode, pair: false, emit: None }
            }
        },
        Mode::Neutral => {
            if c == '/' && next == Some('/') {
                Step { mode: Mode::LineComment, pair: true, emit: None }
            } else if c == '/' && next == Some('*') {
                Step { mode: Mode::BlockComment { depth: 1 }, pair: true, emit: None }
            } else if c == '"' {
                Step { mode: Mode::InString { escaped: false }, pair: false, emit: None }
            } else {
                Step { mode: Mode::Neutral, pair: false, emit: delimiter_kind(c) }
            }
        },
    }
}

/// The character after character `i` of `s`, if there is one.
pub open spec fn lookahead(s: Seq<char>, i: int) -> Option<char> {
    if 0 <= i + 1 < s.len() {
        Some(s[i + 1])
    } else {
        None
    }
}

/// How many characters the step `t` consumes.
pub open spec fn consumed(t: Step) -> int {
    if t.pair {
        2
    } else {
        1
    }
}

/// The indices of the characters of `s` that count as delimiters, when the
/// scanner stands before character `i` in mode `mode`.
pub open spec fn scan_from(s: Seq<char>, i: int, mode: Mode) -> Seq<int>
    decreases s.len() - i,
{
    if 0 <= i < s.len() {
        let t = step(mode, s[i], lookahead(s, i));
        let rest = scan_from(s, i + consumed(t), t.mode);
        if t.emit is Some {
            seq![i] + rest
        } else {
            rest
        }
    } else {
        Seq::empty()
    }
}

/// The indices of the characters of `s` that count as delimiters.
pub open spec fn significant(s: Seq<char>) -> Seq<int> {
    scan_from(s, 0, Mode::Neutral)
}

/// A token as mathematics sees it.
pub struct Token {
    pub kind: BracketKind,
    pub position: Position,
}

/// The token for character `k` of `s`, which is a delimiter.
pub open spec fn token_at(s: Seq<char>, k: int) -> Token {
    Token { kind: delimiter_kind(s[k]).unwrap(), position: position_at(s, k) }
}

/// The tokens of `s`: one for each delimiter that counts, in the order of the
/// text.
pub open spec fn scan_tokens(s: Seq<char>) -> Seq<Token> {
    significant(s).map_values(|k: int| token_at(s, k))
}

/// One delimiter that counts, with its position.
#[derive(Clone, Copy, Debug, PartialEq, Eq)]
pub struct BracketToken {
    pub kind: BracketKind,
    pub position: CharPosition,
}

impl View for BracketToken {
    type V = Token;

    open spec fn view(&self) -> Token {
        Token { kind: self.kind, position: self.position@ }
    }
}

impl BracketToken {
    /// Whether the token opens.
    pub fn is_open(&self) -> (b: bool)
        ensures
            b == self.kind.opens(),
    {
        self.kind.is_open()
    }
}

/// The tokens that a sequence of records stands for.
pub open spec fn token_views(v: Seq<BracketToken>) -> Seq<Token> {
    v.map_values(|t: BracketToken| t@)
}

/// The mode of the scanner, as it is held while scanning.
#[derive(Clone, Copy, Debug, PartialEq, Eq)]
pub enum ScanMode {
    Neutral,
    InString { escaped: bool },
    LineComment,
    BlockComment { depth: usize },
}

impl View for ScanMode {
    type V = Mode;

    open spec fn view(&self) -> Mode {
        match *self {
            ScanMode::Neutral => Mode::Neutral,
            ScanMode::InString { escaped } => Mode::InString { escaped },
            ScanMode::LineComment => Mode::LineComment,
            ScanMode::BlockComment { depth } => Mode::BlockComment { depth: depth as nat },
        }
    }
}

/// What the scanner does at one character, as it is held while scanning.
#[derive(Clone, Copy, Debug, PartialEq, Eq)]
pub struct ScanStep {
    pub mode: ScanMode,
    pub pair: bool,
    pub emit: Option<BracketKind>,
}

impl View for ScanStep {
    type V = Step;

    open spec fn view(&self) -> Step {
        Step { mode: self.mode@, pair: self.pair, emit: self.emit }
    }
}

/// One step of the scanner: at character `c` in mode `mode`, with `next` the
/// character after `c`, if the text has one.
pub fn scan_step(mode: ScanMode, c: char, next: Option<char>) -> (t: ScanStep)
    requires
        mode matches ScanMode::BlockComment { depth } ==> depth < usize::MAX,
    ensures
        t@ == step(mode@, c, next),
{
    match mode {
        ScanMode::InString { escaped } => {
            let after = if escaped {
                ScanMode::InString { escaped: false }
            } else if c == '"' {
                ScanMode::Neutral
            } else if c == '\\' {
                ScanMode::InString { escaped: true }
            } else {
                ScanMode::InString { escaped: false }
            };
            ScanStep { mode: after, pair: false, emit: None }
        },
        ScanMode::LineComment => {
            let after = if c == '\n' {
                ScanMode::Neutral
            } else {
                ScanMode::LineComment
            };
            ScanStep { mode: after, pair: false, emit: None }
        },
        ScanMode::BlockComment { depth } => {
            if c == '*' && next == Some('/') {
                let after = if depth <= 1 {
                    ScanMode::Neutral
                } else {
                    ScanMode::BlockComment { depth: depth - 1 }
                };
                ScanStep { mode: after, pair: true, emit: None }
            } else if c == '/' && next == Some('*') {
                let deeper = ScanMode::BlockComment { depth: depth + 1 };
                ScanStep { mode: deeper, pair: true, emit: None }
            } else {
                ScanStep { mode: mode, pair: false, emit: None }
            }
        },
        ScanMode::Neutral => {
            if c == '/' && next == Some('/') {
                ScanStep { mode: ScanMode::LineComment, pair: true, emit: None }
            } else if c == '/' && next == Some('*') {
                ScanStep { mode: ScanMode::BlockComment { depth: 1 }, pair: true, emit: None }
            } else if c == '"' {
                ScanStep { mode: ScanMode::InString { escaped: false }, pair: false, emit: None }
            } else {
                ScanStep { mode: ScanMode::Neutral, pair: false, emit: classify(c) }
            }
        },
    }
}

/// Scans `src` and returns its tokens: one for each delimiter outside strings
/// and comments, in the order of the text, each with its position.
pub fn bracket_lexer(src: &str) -> (tokens: Vec<BracketToken>)
    ensures
        token_views(tokens@) == scan_tokens(src@),
{
    let positions = precompute_char_positions(src);
    let total = positions.len();
    let mut tokens: Vec<BracketToken> = Vec::new();
    let mut mode = ScanMode::Neutral;
    let mut byte: usize = 0;
    let mut chars = src.chars();
    let mut cur = chars.next();
    let ghost mut k: int = 0;
    let ghost mut found: Seq<int> = Seq::empty();
    proof {
        lemma_table_len(src@, src@.len() as int);
    }
    while cur.is_some()
        invariant
            0 <= k <= src@.len(),
            cur == (if k < src@.len() {
                Some(src@[k])
            } else {
                None
            }),
            chars.remaining() == (if k < src@.len() {
                src@.skip(k + 1)
            } else {
                Seq::empty()
            }),
            byte == byte_at(src@, k),
            position_views(positions@) == position_table(src@, src@.len() as int),
            total == byte_at(src@, src@.len() as int),
            total == positions@.len(),
            mode matches ScanMode::BlockComment { depth } ==> depth <= k,
            significant(src@) == found + scan_from(src@, k, mode@),
            token_views(tokens@) == found.map_values(|i: int| token_at(src@, i)),
        decreases src@.len() - k,
    {
        let c = cur.unwrap();
        let next = chars.next();
        assert(next == lookahead(src@, k));
        proof {
            lemma_byte_at_increases(src@, 0, src@.len() as int);
            lemma_byte_at_increases(src@, k + 1, src@.len() as int);
        }
        let t = scan_step(mode, c, next);
        if let Some(kind) = t.emit {
            proof {
                lemma_table_entry(src@, src@.len() as int, k, byte as int);
            }
            let token = BracketToken { kind, position: positions[byte] };
            let ghost before = token_views(tokens@);
            tokens.push(token);
            proof {
                assert(token_views(tokens@) =~= before.push(token@));
                assert(found.push(k).map_values(|i: int| token_at(src@, i)) =~= before.push(
                    token_at(src@, k),
                ));
                assert(found + (seq![k] + scan_from(src@, k + 1, t.mode@)) =~= found.push(k)
                    + scan_from(src@, k + 1, t.mode@));
                found = found.push(k);
            }
        }
        byte += char_utf8_len(c);
        if t.pair {
            proof {
                lemma_byte_at_increases(src@, k + 2, src@.len() as int);
                assert(byte_at(src@, k + 2) == byte_at(src@, k + 1) + 1);
            }
            byte += 1;
            cur = chars.next();
            proof {
                k = k + 2;
            }
        } else {
            cur = next;
            proof {
                k = k + 1;
            }
        }
        mode = t.mode;
    }
    tokens
}

} // verus!
