//! The answer to a `GET` request, from the request path and what the
//! filesystem shows at the place it leads to.

use vstd::prelude::*;
use crate::handlers::markdown::{document_page, handle_markdown_file, markdown_html};
use crate::listing::{found, listing, Child, Found};
use crate::paths::{all_plain, is_plain, path_text, Segments};
use crate::resolver::{
    destination, lemma_destination_plain, locate, relative_part, stays_inside, NotFound,
    ResolvedTarget, Root, TargetKind,
};
use crate::route_utils::{listing_page, path_to_html};
use crate::routes::{is_document_name, responder_for, routes, Responder};

verus! {

/// What the filesystem shows at a location, as a value of the model.
pub struct Sight {
    /// What is there.
    pub kind: TargetKind,
    /// The text of the file, where it was read.
    pub text: Option<Seq<char>>,
    /// The children of the directory, where it was enumerated.
    pub children: Option<Seq<Found>>,
}

/// What the filesystem shows at a location. Only what the responder of the
/// location asks for is looked at: the text for a document, the children for
/// a directory.
#[derive(Clone, Debug, PartialEq, Eq)]
pub struct Seen {
    /// What is there.
    pub kind: TargetKind,
    /// The text of the file, or nothing where it was not read.
    pub text: Option<String>,
    /// The children of the directory, or nothing where it was not enumerated.
    pub children: Option<Vec<Child>>,
}

impl View for Seen {
    type V = Sight;

    open spec fn view(&self) -> Sight {
        Sight {
            kind: self.kind,
            text: match self.text {
                Some(text) => Some(text@),
                None => None,
            },
            children: match self.children {
                Some(children) => Some(found(children@)),
                None => None,
            },
        }
    }
}

/// A successful answer, as a value of the model.
pub enum Reply {
    /// A page, with its text.
    Page(Seq<char>),
    /// The bytes of the file at this absolute path.
    File(Seq<char>),
}

/// A successful answer to a request.
#[derive(Clone, Debug, PartialEq, Eq)]
pub enum Response {
    /// This page as the body.
    Page(String),
    /// The bytes of the file at this absolute path, which the static file
    /// server streams with the content type of the extension.
    File(String),
}

impl View for Response {
    type V = Reply;

    open spec fn view(&self) -> Reply {
        match self {
            Response::Page(page) => Reply::Page(page@),
            Response::File(path) => Reply::File(path@),
        }
    }
}

/// An answer as a value of the model: the reply, or nothing for an answer
/// that found nothing.
pub open spec fn answer(r: Result<Response, NotFound>) -> Option<Reply> {
    match r {
        Ok(response) => Some(response@),
        Err(_) => None,
    }
}

/// The status code of an answer: `200` with a body, `404` without.
pub open spec fn status_of(reply: Option<Reply>) -> u16 {
    if reply is Some {
        200
    } else {
        404
    }
}

/// The status code of an answer.
pub fn status(r: &Result<Response, NotFound>) -> (code: u16)
    ensures
        code == status_of(answer(*r)),
{
    match r {
        Ok(_) => 200,
        Err(_) => 404,
    }
}

/// The last name of a path, where it has one.
pub open spec fn last_name(path: Segments) -> Option<Seq<char>> {
    if path.len() == 0 {
        None
    } else {
        Some(path.last())
    }
}

/// The answer for a file at the absolute path `path`, from its responder and
/// its text (where that was read): the rendered page for a document that
/// could be read, the file itself for any other file, nothing for a document
/// that could not be read and for what is no file.
pub open spec fn file_reply(
    responder: Option<Responder>,
    path: Segments,
    text: Option<Seq<char>>,
) -> Option<Reply> {
    match responder {
        Some(Responder::Document) => match text {
            Some(text) => Some(Reply::Page(document_page(markdown_html(text)))),
            None => None,
        },
        Some(Responder::RawFile) => Some(Reply::File(path_text(path))),
        _ => None,
    }
}

/// The answer to a request: nothing for a path that leaves the root or leads
/// to nothing; for a file what its responder gives; the listing page for a
/// directory that could be enumerated.
pub open spec fn reply(root: Segments, request: Seq<char>, sight: Sight) -> Option<Reply> {
    if !stays_inside(root, request) {
        None
    } else {
        let below = relative_part(root, request);
        match responder_for(sight.kind, last_name(below)) {
            None => None,
            Some(Responder::Listing) => match sight.children {
                Some(children) => Some(Reply::Page(listing_page(request, listing(below, children)))),
                None => None,
            },
            Some(responder) => file_reply(Some(responder), root + below, sight.text),
        }
    }
}

/// Answers for a file. `text` is the text of the file, or nothing where it
/// was not read; only a document is read. A document is rendered and never
/// streamed; any other file is streamed as it is; what is no file gets no
/// answer here.
pub fn render_file(target: &ResolvedTarget, text: Option<&str>) -> (r: Result<Response, NotFound>)
    ensures
        answer(r) == file_reply(
            responder_for(target.classification(), target.name_segment()),
            target.path_segments(),
            match text {
                Some(text) => Some(text@),
                None => None,
            },
        ),
{
    match routes(target) {
        Ok(Responder::Document) => match handle_markdown_file(target, text) {
            Ok(page) => Ok(Response::Page(page)),
            Err(e) => Err(e),
        },
        Ok(Responder::RawFile) => Ok(Response::File(target.path())),
        _ => Err(NotFound),
    }
}

/// Answers a request.
pub fn respond(root: &Root, request: &str, seen: &Seen) -> (r: Result<Response, NotFound>)
    ensures
        answer(r) == reply(root@, request@, seen@),
{
    let target = match locate(root, request) {
        Ok(candidate) => match candidate.classify(seen.kind) {
            Ok(target) => target,
            Err(e) => {
                return Err(e);
            },
        },
        Err(e) => {
            return Err(e);
        },
    };
    match routes(&target) {
        Ok(Responder::Listing) => {
            let children: Option<&Vec<Child>> = match &seen.children {
                Some(children) => Some(children),
                None => None,
            };
            match path_to_html(root, request, &target, children) {
                Ok(page) => Ok(Response::Page(page)),
                Err(e) => Err(e),
            }
        },
        _ => {
            let text: Option<&str> = match &seen.text {
                Some(text) => Some(text.as_str()),
                None => None,
            };
            render_file(&target, text)
        },
    }
}

/// A request path that leads out of the root is answered with nothing,
/// whatever the filesystem shows.
pub proof fn lemma_escape_is_not_found(root: Segments, request: Seq<char>, sight: Sight)
    requires
        !root.is_prefix_of(destination(root, request)),
    ensures
        reply(root, request, sight) is None,
{
}

/// A file that is served lies at the root or below it: its path is the root
/// followed by plain names, with no `.` or `..` left in it.
pub proof fn lemma_served_file_is_inside_root(root: Segments, request: Seq<char>, sight: Sight)
    requires
        all_plain(root),
        reply(root, request, sight) is Some,
        reply(root, request, sight).unwrap() is File,
    ensures
        reply(root, request, sight).unwrap()->File_0 == path_text(
            root + relative_part(root, request),
        ),
        root + relative_part(root, request) == destination(root, request),
        root.is_prefix_of(destination(root, request)),
        all_plain(relative_part(root, request)),
{
    lemma_destination_plain(root, request);
    let reached = destination(root, request);
    let below = relative_part(root, request);
    assert(root + below =~= reached);
    assert forall|i: int| 0 <= i < below.len() implies is_plain(#[trigger] below[i]) by {
        assert(below[i] == reached[i + root.len()]);
    }
}

/// A file with the name of a document is answered by the document
/// responder: with the rendered page, or with nothing where its text could
/// not be read, and never with its raw bytes.
pub proof fn lemma_document_takes_priority(root: Segments, request: Seq<char>, sight: Sight)
    requires
        stays_inside(root, request),
        sight.kind == TargetKind::File,
        last_name(relative_part(root, request)) is Some,
        is_document_name(last_name(relative_part(root, request)).unwrap()),
    ensures
        !(reply(root, request, sight) is Some && reply(root, request, sight).unwrap() is File),
        sight.text is Some ==> reply(root, request, sight) == Some(
            Reply::Page(document_page(markdown_html(sight.text.unwrap()))),
        ),
        sight.text is None ==> reply(root, request, sight) is None,
{
}

/// The same request, while the filesystem shows the same, gets the same
/// answer: the same status and the same body.
pub proof fn lemma_same_request_same_response(
    root: Segments,
    request: Seq<char>,
    sight: Sight,
    first: Result<Response, NotFound>,
    second: Result<Response, NotFound>,
)
    requires
        answer(first) == reply(root, request, sight),
        answer(second) == reply(root, request, sight),
    ensures
        answer(first) == answer(second),
        status_of(answer(first)) == status_of(answer(second)),
{
}

} // verus!
