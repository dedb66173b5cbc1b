//! What an editing session decides between two renderings.
//!
//! A session renders one source at a time, the one of the processor that
//! was asked for last. As long as the same processor is asked for, the new
//! code replaces the text of that source. When another processor is asked
//! for, its file is looked up and takes the place of the main source.

use vstd::prelude::*;
use crate::ser::processor::{processor_file, processor_file_name};
use crate::utils::text::same_text;

verus! {

/// The processor that was rendered last, by kind and id.
#[derive(Clone, Debug, PartialEq, Eq)]
pub struct Session {
    pub last_kind: String,
    pub last_id: String,
}

/// What to do with new code.
#[derive(Clone, Debug, PartialEq, Eq)]
pub enum UpdatePlan {
    /// Put the code in the place of the text of the main source.
    Replace,
    /// Look up `file`. Where it exists, its source, with the code put in the
    /// place of its text, becomes the main source; where it does not, the
    /// code replaces the text of the main source.
    Switch { file: String },
}

impl Session {
    /// A session that has rendered nothing yet.
    pub fn new() -> (session: Session)
        ensures
            session.last_kind@ == Seq::<char>::empty(),
            session.last_id@ == Seq::<char>::empty(),
    {
        Session { last_kind: String::new(), last_id: String::new() }
    }

    /// Decides what to do with new code for the processor `kind`, `id`, and
    /// remembers that processor.
    pub fn request(&mut self, kind: &str, id: &str) -> (plan: UpdatePlan)
        ensures
            final(self).last_kind@ == kind@,
            final(self).last_id@ == id@,
            match plan {
                UpdatePlan::Replace => old(self).last_kind@ == kind@ && old(self).last_id@ == id@,
                UpdatePlan::Switch { file } => !(old(self).last_kind@ == kind@ && old(
                    self,
                ).last_id@ == id@) && file@ == processor_file(kind@, id@),
            },
    {
        if same_text(self.last_kind.as_str(), kind) && same_text(self.last_id.as_str(), id) {
            UpdatePlan::Replace
        } else {
            self.last_kind = kind.to_owned();
            self.last_id = id.to_owned();
            UpdatePlan::Switch { file: processor_file_name(kind, id) }
        }
    }
}

/// `s` with every occurrence of `from` replaced by `to`, the occurrences
/// taken from left to right and without overlap.
pub open spec fn replace_all(s: Seq<char>, from: Seq<char>, to: Seq<char>) -> Seq<char>
    decreases s.len(),
{
    if from.len() == 0 || s.len() < from.len() {
        s
    } else if s.subrange(0, from.len() as int) == from {
        to + replace_all(s.skip(from.len() as int), from, to)
    } else {
        seq![s[0]] + replace_all(s.skip(1), from, to)
    }
}

/// `str::replace` of the standard library, for a pattern that is not empty:
/// every occurrence of `from` in `s`, found from left to right and without
/// overlap, is replaced by `to`.
#[verifier::external_body]
fn replace_text(s: &str, from: &str, to: &str) -> (replaced: String)
    requires
        from@.len() > 0,
    ensures
        replaced@ == replace_all(s@, from@, to@),
{
    s.replace(from, to)
}

/// The start of the root element of a rendered page.
pub open spec fn svg_root() -> Seq<char> {
    "<svg class"@
}

/// The start of the root element with the style that lets the drawing reach
/// beyond the page.
pub open spec fn svg_root_styled() -> Seq<char> {
    "<svg style=\"overflow: visible;\" class"@
}

/// What becomes of the rendering of the first page, if the document has
/// one.
pub open spec fn finished_svg(first_page: Option<Seq<char>>) -> Result<Seq<char>, Seq<char>> {
    match first_page {
        Some(svg) => Ok(replace_all(svg, svg_root(), svg_root_styled())),
        None => Err("document has no pages"@),
    }
}

/// The text that a result of strings holds.
pub open spec fn result_text(r: Result<String, String>) -> Result<Seq<char>, Seq<char>> {
    match r {
        Ok(s) => Ok(s@),
        Err(e) => Err(e@),
    }
}

/// The text that an optional string slice holds.
pub open spec fn slice_text(s: Option<&str>) -> Option<Seq<char>> {
    match s {
        Some(s) => Some(s@),
        None => None,
    }
}

/// Finishes the rendering of the first page of a document: the root element
/// gets the style that lets the drawing reach beyond the page. A document
/// without pages is an error.
pub fn finish_svg(first_page: Option<&str>) -> (finished: Result<String, String>)
    ensures
        result_text(finished) == finished_svg(slice_text(first_page)),
{
    match first_page {
        Some(svg) => {
            proof {
                reveal_strlit("<svg class");
            }
            Ok(replace_text(svg, "<svg class", "<svg style=\"overflow: visible;\" class"))
        },
        None => Err("document has no pages".to_owned()),
    }
}

} // verus!
