//! The dispatch rule: which responder answers for a resolved target.

use vstd::prelude::*;
use crate::paths::chars_of;
use crate::resolver::{NotFound, ResolvedTarget, TargetKind};

verus! {

/// The responders, in the order of their priority.
#[derive(Clone, Copy, Debug, PartialEq, Eq, Structural)]
pub enum Responder {
    /// Renders a document of a recognized markup to a page.
    Document,
    /// Streams the bytes of a file as they are.
    RawFile,
    /// Renders the listing of a directory.
    Listing,
}

/// The name ends in a dot and the extension, and something stands before the
/// dot.
pub open spec fn has_extension(name: Seq<char>, extension: Seq<char>) -> bool {
    &&& name.len() > extension.len() + 1
    &&& name.subrange(name.len() - extension.len() - 1, name.len() as int) == seq!['.']
        + extension
}

/// The name of a document that is rendered: its extension is `md` or
/// `markdown`, in lower case.
pub open spec fn is_document_name(name: Seq<char>) -> bool {
    has_extension(name, "md"@) || has_extension(name, "markdown"@)
}

/// The responder for a location of the given kind and name (the last name of
/// its path, where it has one): none where nothing is; the listing for a
/// directory; for a file the document responder where the name is a
/// document's, else the raw file responder.
pub open spec fn responder_for(kind: TargetKind, name: Option<Seq<char>>) -> Option<Responder> {
    match kind {
        TargetKind::Missing => None,
        TargetKind::Directory => Some(Responder::Listing),
        TargetKind::File => if name is Some && is_document_name(name.unwrap()) {
            Some(Responder::Document)
        } else {
            Some(Responder::RawFile)
        },
    }
}

/// Whether the name ends in a dot and the extension, behind something.
pub fn ends_with_extension(name: &str, extension: &str) -> (b: bool)
    ensures
        b == has_extension(name@, extension@),
{
    let text = chars_of(name);
    let end = chars_of(extension);
    let n: usize = text.len();
    let m: usize = end.len();
    if n <= m || n - m <= 1 {
        return false;
    }
    let from: usize = n - m - 1;
    let ghost tail = name@.subrange(from as int, n as int);
    if text[from] != '.' {
        proof {
            assert(tail[0] == name@[from as int]);
            assert((seq!['.'] + extension@)[0] == '.');
        }
        return false;
    }
    let mut i: usize = 0;
    while i < m
        invariant
            n == text.len(),
            m == end.len(),
            text@ == name@,
            end@ == extension@,
            from + 1 + m == n,
            i <= m,
            tail == name@.subrange(from as int, n as int),
            forall|j: int| 0 <= j < i ==> name@[from + 1 + j] == extension@[j],
        decreases m - i,
    {
        if text[from + 1 + i] != end[i] {
            proof {
                assert(tail[1 + i] == name@[from + 1 + i]);
                assert((seq!['.'] + extension@)[1 + i] == extension@[i as int]);
            }
            return false;
        }
        i = i + 1;
    }
    proof {
        assert(tail =~= seq!['.'] + extension@);
    }
    true
}

/// Whether the name is that of a document that is rendered.
pub fn is_document(name: &str) -> (b: bool)
    ensures
        b == is_document_name(name@),
{
    ends_with_extension(name, "md") || ends_with_extension(name, "markdown")
}

/// Picks the responder for a target. A file whose name is a document's goes
/// to the document responder and never to the raw file responder; a directory
/// is listed; where nothing is, nothing answers.
pub fn routes(target: &ResolvedTarget) -> (r: Result<Responder, NotFound>)
    ensures
        r is Ok <==> target.classification() != TargetKind::Missing,
        r is Ok ==> Some(r.unwrap()) == responder_for(
            target.classification(),
            target.name_segment(),
        ),
{
    match target.kind() {
        TargetKind::Missing => Err(NotFound),
        TargetKind::Directory => Ok(Responder::Listing),
        TargetKind::File => match target.file_name() {
            Some(name) => if is_document(name.as_str()) {
                Ok(Responder::Document)
            } else {
                Ok(Responder::RawFile)
            },
            None => Ok(Responder::RawFile),
        },
    }
}

} // verus!
