//! Processors: named sources that the editor registers, each kept in a file
//! of its own.

use vstd::prelude::*;
use vstd::string::StringExecFns;

verus! {

/// A processor as the editor sends it: its kind, its id and its source.
#[derive(Clone, Debug, PartialEq, Eq)]
pub struct ProcessorDes {
    pub kind: String,
    pub id: String,
    pub format: String,
}

/// The name of the file that holds the processor of kind `kind` and id `id`.
pub open spec fn processor_file(kind: Seq<char>, id: Seq<char>) -> Seq<char> {
    kind + "--"@ + id + ".typ"@
}

/// The name of the file that holds the processor of kind `kind` and id `id`.
pub fn processor_file_name(kind: &str, id: &str) -> (name: String)
    ensures
        name@ == processor_file(kind@, id@),
{
    let mut name = kind.to_owned();
    name.append("--");
    name.append(id);
    name.append(".typ");
    name
}

impl ProcessorDes {
    /// The name of the file that holds this processor.
    pub fn file_name(&self) -> (name: String)
        ensures
            name@ == processor_file(self.kind@, self.id@),
    {
        processor_file_name(self.kind.as_str(), self.id.as_str())
    }
}

} // verus!
