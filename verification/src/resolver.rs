//! The path resolver: from an untrusted request path to a location that is
//! confined to the served root, and its classification.
//!
//! Resolution is lexical. The request path is joined onto the root as the
//! operating system would join it (a path that is absolute after its leading
//! separator is taken off replaces the root), `.` and `..` are followed in the
//! component model, and only then is the result held against the root.
//! Symbolic links are not looked at here: a link inside the root that points
//! out of it is followed by whoever opens the resolved path.

use vstd::prelude::*;
use crate::paths::{
    all_plain, chain, components, follow, is_plain, lemma_components_shape, lemma_walk_plain,
    path_text, split, starts_with, tail, texts, to_text, walk, Segments,
};

verus! {

/// The one error of the resolver and the renderers. A missing entry, an
/// attempt to leave the root and an unreadable entry all give it, so that a
/// client cannot tell them apart.
#[derive(Clone, Copy, Debug, PartialEq, Eq, Structural)]
pub struct NotFound;

/// What a resolved location is.
#[derive(Clone, Copy, Debug, PartialEq, Eq, Structural)]
pub enum TargetKind {
    /// Anything that exists and is no directory.
    File,
    /// A directory.
    Directory,
    /// Nothing is there, or nothing is known yet.
    Missing,
}

/// What a query for the metadata of a path tells: nothing where no entry is
/// there, else whether the entry is a directory. A directory is classified
/// as one, anything else that exists as a file.
pub open spec fn kind_of(is_dir: Option<bool>) -> TargetKind {
    match is_dir {
        None => TargetKind::Missing,
        Some(true) => TargetKind::Directory,
        Some(false) => TargetKind::File,
    }
}

impl TargetKind {
    /// The classification of what a query for metadata found: nothing where
    /// no entry is there, else whether the entry is a directory.
    pub fn of(is_dir: Option<bool>) -> (kind: TargetKind)
        ensures
            kind == kind_of(is_dir),
    {
        match is_dir {
            None => TargetKind::Missing,
            Some(true) => TargetKind::Directory,
            Some(false) => TargetKind::File,
        }
    }
}

/// A text that begins with a separator.
pub open spec fn is_rooted(text: Seq<char>) -> bool {
    text.len() > 0 && text[0] == '/'
}

/// Where a request path leads from `root`: the path without its leading
/// separator is walked from the root, or from the top directory if it is
/// still absolute.
pub open spec fn destination(root: Segments, request: Seq<char>) -> Segments {
    let rest = request.drop_first();
    let from = if is_rooted(rest) {
        Segments::empty()
    } else {
        root
    };
    walk(from, components(rest))
}

/// The request path begins with a separator and leads to the root or to
/// something below it.
pub open spec fn stays_inside(root: Segments, request: Seq<char>) -> bool {
    is_rooted(request) && root.is_prefix_of(destination(root, request))
}

/// The part of the destination below the root.
pub open spec fn relative_part(root: Segments, request: Seq<char>) -> Segments {
    destination(root, request).skip(root.len() as int)
}

/// Where a request path leads, from a root of plain names, is a path of plain
/// names: no `.`, no `..` and no empty name is left in it.
pub proof fn lemma_destination_plain(root: Segments, request: Seq<char>)
    requires
        all_plain(root),
    ensures
        all_plain(destination(root, request)),
{
    let rest = request.drop_first();
    lemma_components_shape(rest);
    if is_rooted(rest) {
        lemma_walk_plain(Segments::empty(), components(rest));
    } else {
        lemma_walk_plain(root, components(rest));
    }
}

/// The served directory: an absolute path, fixed when the server starts.
#[derive(Debug, PartialEq, Eq)]
pub struct Root {
    names: Vec<String>,
}

impl View for Root {
    type V = Segments;

    closed spec fn view(&self) -> Segments {
        texts(self.names@)
    }
}

impl Root {
    /// Every name of the root is plain.
    #[verifier::type_invariant]
    pub closed spec fn wf(&self) -> bool {
        all_plain(texts(self.names@))
    }

    /// The root at an absolute path. A path that does not begin with a
    /// separator is refused.
    pub fn new(path: &str) -> (root: Option<Root>)
        ensures
            root is Some <==> is_rooted(path@),
            root is Some ==> root.unwrap().wf() && root.unwrap()@ == walk(
                Segments::empty(),
                components(path@),
            ),
    {
        if path.unicode_len() == 0 || path.get_char(0) != '/' {
            return None;
        }
        let parts = split(path);
        let top: Vec<String> = Vec::new();
        proof {
            lemma_components_shape(path@);
            assert(texts(top@) == Segments::empty());
            lemma_walk_plain(Segments::empty(), components(path@));
        }
        let names = follow(top, &parts);
        Some(Root { names })
    }

    /// The names of the root, outermost first.
    pub fn names(&self) -> (names: &Vec<String>)
        ensures
            texts(names@) == self@,
    {
        &self.names
    }

    /// The root as a path text.
    pub fn path(&self) -> (text: String)
        ensures
            text@ == path_text(self@),
    {
        to_text(&self.names)
    }
}

/// A request path after it was held against the root: where it leads, and
/// what is there.
#[derive(Debug, PartialEq, Eq)]
pub struct ResolvedTarget {
    base: Vec<String>,
    relative: Vec<String>,
    kind: TargetKind,
}

impl ResolvedTarget {
    /// Every name of the location is plain.
    #[verifier::type_invariant]
    pub closed spec fn wf(&self) -> bool {
        all_plain(texts(self.base@)) && all_plain(texts(self.relative@))
    }

    /// The root that the location was resolved against.
    pub closed spec fn base_segments(&self) -> Segments {
        texts(self.base@)
    }

    /// The names from the root down to the location; empty for the root
    /// itself.
    pub closed spec fn relative_segments(&self) -> Segments {
        texts(self.relative@)
    }

    /// The classification of the location.
    pub closed spec fn classification(&self) -> TargetKind {
        self.kind
    }

    /// The absolute path of the location: the root, then the relative part.
    pub open spec fn path_segments(&self) -> Segments {
        self.base_segments() + self.relative_segments()
    }

    /// The last name of the path from the root; none for the root itself.
    pub open spec fn name_segment(&self) -> Option<Seq<char>> {
        if self.relative_segments().len() == 0 {
            None
        } else {
            Some(self.relative_segments().last())
        }
    }

    /// The location was resolved against `root`, and so lies at the root or
    /// below it.
    pub open spec fn is_under(&self, root: &Root) -> bool {
        self.base_segments() == root@
    }

    /// The classification of the location.
    pub fn kind(&self) -> (kind: TargetKind)
        ensures
            kind == self.classification(),
    {
        self.kind
    }

    /// The names from the root down to the location.
    pub fn relative(&self) -> (names: &Vec<String>)
        ensures
            texts(names@) == self.relative_segments(),
    {
        &self.relative
    }

    /// The last name of the path from the root; none for the root itself.
    pub fn file_name(&self) -> (name: Option<&String>)
        ensures
            match name {
                Some(name) => self.name_segment() == Some(name@),
                None => self.name_segment() is None,
            },
    {
        let n: usize = self.relative.len();
        if n == 0 {
            None
        } else {
            Some(&self.relative[n - 1])
        }
    }

    /// Whether the location is the root itself.
    pub fn is_root(&self) -> (b: bool)
        ensures
            b == (self.relative_segments().len() == 0),
    {
        self.relative.len() == 0
    }

    /// Whether the location was resolved against `root`.
    pub fn resolved_against(&self, root: &Root) -> (b: bool)
        ensures
            b == self.is_under(root),
    {
        let b = self.base.len() == root.names.len() && starts_with(&self.base, &root.names);
        proof {
            let mine = texts(self.base@);
            let theirs = texts(root.names@);
            if b {
                assert(mine =~= theirs);
            } else if mine == theirs {
                assert(mine.len() == self.base.len() && theirs.len() == root.names.len());
                assert(theirs =~= mine.subrange(0, theirs.len() as int));
            }
        }
        b
    }

    /// The absolute path of the location as text, for whoever opens it.
    pub fn path(&self) -> (text: String)
        ensures
            text@ == path_text(self.path_segments()),
    {
        let all = chain(&self.base, &self.relative);
        to_text(&all)
    }

    /// The location with what was found there. Where nothing was found, there
    /// is no target.
    pub fn classify(self, found: TargetKind) -> (r: Result<ResolvedTarget, NotFound>)
        ensures
            r is Ok <==> found != TargetKind::Missing,
            r is Ok ==> {
                let t = r.unwrap();
                &&& t.wf()
                &&& t.base_segments() == self.base_segments()
                &&& t.relative_segments() == self.relative_segments()
                &&& t.classification() == found
            },
    {
        proof {
            use_type_invariant(&self);
        }
        match found {
            TargetKind::Missing => Err(NotFound),
            _ => Ok(ResolvedTarget { base: self.base, relative: self.relative, kind: found }),
        }
    }
}

/// Where a request path leads, before anything is known of what is there.
/// The path is refused when it does not begin with a separator, and when it
/// leads out of the root.
pub fn locate(root: &Root, request: &str) -> (r: Result<ResolvedTarget, NotFound>)
    ensures
        r is Ok <==> stays_inside(root@, request@),
        r is Ok ==> {
            let t = r.unwrap();
            &&& t.wf()
            &&& t.is_under(root)
            &&& t.relative_segments() == relative_part(root@, request@)
            &&& t.classification() == TargetKind::Missing
        },
{
    proof {
        use_type_invariant(root);
    }
    let n: usize = request.unicode_len();
    if n == 0 || request.get_char(0) != '/' {
        return Err(NotFound);
    }
    let rest = request.substring_char(1, n);
    proof {
        assert(rest@ == request@.drop_first());
    }
    let absolute = n > 1 && rest.get_char(0) == '/';
    let from: Vec<String> = if absolute {
        Vec::new()
    } else {
        tail(&root.names, 0)
    };
    proof {
        assert(texts(root.names@).skip(0) == texts(root.names@));
        assert(absolute ==> texts(from@) == Segments::empty());
        lemma_components_shape(rest@);
        lemma_walk_plain(texts(from@), components(rest@));
    }
    let parts = split(rest);
    let reached = follow(from, &parts);
    if !starts_with(&reached, &root.names) {
        return Err(NotFound);
    }
    let base = tail(&root.names, 0);
    let relative = tail(&reached, root.names.len());
    proof {
        let all = texts(reached@);
        let below = all.skip(root@.len() as int);
        assert forall|i: int| 0 <= i < below.len() implies is_plain(#[trigger] below[i]) by {
            assert(below[i] == all[i + root@.len()]);
        }
    }
    Ok(ResolvedTarget { base, relative, kind: TargetKind::Missing })
}

/// Resolves a request path against the root and classifies what is there.
/// `stat` is the query for the metadata of a path: it tells nothing where no
/// entry is there, else whether the entry is a directory. It is asked once,
/// for the absolute path of the location, and only if the path stays inside
/// the root.
pub fn resolve<F: Fn(&str) -> Option<bool>>(root: &Root, request: &str, stat: F) -> (r: Result<
    ResolvedTarget,
    NotFound,
>)
    requires
        forall|path: &str| call_requires(stat, (path,)),
    ensures
        !stays_inside(root@, request@) ==> r is Err,
        r is Ok ==> {
            let t = r.unwrap();
            &&& t.wf()
            &&& t.is_under(root)
            &&& t.relative_segments() == relative_part(root@, request@)
            &&& t.classification() != TargetKind::Missing
        },
        stays_inside(root@, request@) ==> exists|path: &str, is_dir: Option<bool>|
            {
                &&& path@ == path_text(root@ + relative_part(root@, request@))
                &&& call_ensures(stat, (path,), is_dir)
                &&& r is Ok <==> is_dir is Some
                &&& r is Ok ==> r.unwrap().classification() == kind_of(is_dir)
            },
{
    match locate(root, request) {
        Err(e) => Err(e),
        Ok(candidate) => {
            let text = candidate.path();
            let found = TargetKind::of(stat(text.as_str()));
            candidate.classify(found)
        },
    }
}

/// A target lies at the root it was resolved against or below it: its
/// absolute path begins with the names of the root, the names that follow are
/// its relative part, and no `.`, `..` or empty name stands in it.
pub proof fn lemma_target_is_confined(target: ResolvedTarget, root: Root)
    requires
        target.wf(),
        root.wf(),
        target.is_under(&root),
    ensures
        root@.is_prefix_of(target.path_segments()),
        target.path_segments().skip(root@.len() as int) == target.relative_segments(),
        all_plain(target.path_segments()),
{
    let path = target.path_segments();
    assert(root@ =~= path.subrange(0, root@.len() as int));
    assert(path.skip(root@.len() as int) =~= target.relative_segments());
    assert forall|i: int| 0 <= i < path.len() implies is_plain(#[trigger] path[i]) by {
        if i < root@.len() {
            assert(path[i] == root@[i]);
        } else {
            assert(path[i] == target.relative_segments()[i - root@.len()]);
        }
    }
}

} // verus!
