//! The record of a matched pair, as the editor receives it.
//!
//! The family is given by name: `paren`, `bracket` or `brace`. Each end has
//! its UTF-16 offset and its line and display column.

use vstd::prelude::*;
use crate::lexer::bracket::BracketKind;
use crate::parser::bracket::{BracketPair, Pair};
use crate::utils::char_position::Position;

verus! {

/// Line and display column of one end of a pair.
#[derive(Clone, Copy, Debug, PartialEq, Eq)]
pub struct CharPos {
    pub line: usize,
    pub ch: usize,
}

/// The record of a matched pair.
#[derive(Clone, Debug, PartialEq, Eq)]
pub struct BracketPairSer {
    pub kind: String,
    pub depth: usize,
    pub open_offset: usize,
    pub open_pos: CharPos,
    pub close_offset: usize,
    pub close_pos: CharPos,
}

/// A record as mathematics sees it.
pub struct PairRecord {
    pub kind: Seq<char>,
    pub depth: nat,
    pub open: Position,
    pub close: Position,
}

impl View for BracketPairSer {
    type V = PairRecord;

    open spec fn view(&self) -> PairRecord {
        PairRecord {
            kind: self.kind@,
            depth: self.depth as nat,
            open: Position {
                line: self.open_pos.line as nat,
                column: self.open_pos.ch as nat,
                offset: self.open_offset as nat,
            },
            close: Position {
                line: self.close_pos.line as nat,
                column: self.close_pos.ch as nat,
                offset: self.close_offset as nat,
            },
        }
    }
}

/// The name under which a pair whose opener has kind `kind` is recorded. A
/// pair is made with the kind of an opener; any other kind is recorded as
/// `unknown`.
pub open spec fn family_name(kind: BracketKind) -> Seq<char> {
    match kind {
        BracketKind::ParenOpen => "paren"@,
        BracketKind::BracketOpen => "bracket"@,
        BracketKind::BraceOpen => "brace"@,
        _ => "unknown"@,
    }
}

/// The record of the pair `p`.
pub open spec fn record_of(p: Pair) -> PairRecord {
    PairRecord {
        kind: family_name(p.kind),
        depth: p.depth,
        open: p.open.position,
        close: p.close.position,
    }
}

impl BracketPairSer {
    /// The record of `pair`.
    pub fn from_pair(pair: &BracketPair) -> (record: BracketPairSer)
        ensures
            record@ == record_of(pair@),
    {
        let kind = match pair.kind {
            BracketKind::ParenOpen => "paren".to_owned(),
            BracketKind::BracketOpen => "bracket".to_owned(),
            BracketKind::BraceOpen => "brace".to_owned(),
            _ => "unknown".to_owned(),
        };
        BracketPairSer {
            kind,
            depth: pair.depth,
            open_offset: pair.open.position.offset,
            open_pos: CharPos { line: pair.open.position.line, ch: pair.open.position.ch },
            close_offset: pair.close.position.offset,
            close_pos: CharPos { line: pair.close.position.line, ch: pair.close.position.ch },
        }
    }
}

impl vstd::std_specs::convert::FromSpecImpl<&BracketPair> for BracketPairSer {
    /// A record holds a string, of which ghost code knows the view only: what
    /// `from` returns is stated in its own `ensures`, over views, and not by
    /// `from_spec`.
    open spec fn obeys_from_spec() -> bool {
        false
    }

    open spec fn from_spec(pair: &BracketPair) -> BracketPairSer {
        arbitrary()
    }
}

impl From<&BracketPair> for BracketPairSer {
    fn from(pair: &BracketPair) -> (record: BracketPairSer)
        ensures
            record@ == record_of(pair@),
    {
        BracketPairSer::from_pair(pair)
    }
}

} // verus!
