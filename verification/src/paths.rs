//! The component model of paths: how a path text falls into components, and
//! what walking a list of components from a starting directory leads to.

use vstd::prelude::*;

verus! {

/// A path as a list of directory and file names, outermost first.
pub type Segments = Seq<Seq<char>>;

/// The texts of a list of strings.
pub open spec fn texts(v: Seq<String>) -> Segments {
    v.map_values(|s: String| s@)
}

/// A name that can stand for one entry of a directory: not empty, neither `.`
/// nor `..`, and without a separator in it.
pub open spec fn is_plain(name: Seq<char>) -> bool {
    &&& name.len() > 0
    &&& name != seq!['.']
    &&& name != seq!['.', '.']
    &&& !name.contains('/')
}

/// Every name of the list is plain.
pub open spec fn all_plain(names: Segments) -> bool {
    forall|i: int| 0 <= i < names.len() ==> is_plain(#[trigger] names[i])
}

/// The components of a path text: the runs of characters between its
/// separators, empty runs included. A text without a separator is one
/// component.
pub open spec fn components(text: Seq<char>) -> Segments
    decreases text.len(),
{
    if text.len() == 0 {
        seq![Seq::empty()]
    } else {
        let before = components(text.drop_last());
        if text.last() == '/' {
            before.push(Seq::empty())
        } else {
            before.drop_last().push(before.last().push(text.last()))
        }
    }
}

/// One step of a walk: an empty component and `.` stay where they are, `..`
/// goes to the parent (the top directory is its own parent), any other
/// component goes down into the entry of that name.
pub open spec fn step(at: Segments, component: Seq<char>) -> Segments {
    if component.len() == 0 || component == seq!['.'] {
        at
    } else if component == seq!['.', '.'] {
        if at.len() > 0 {
            at.drop_last()
        } else {
            at
        }
    } else {
        at.push(component)
    }
}

/// Where the components lead, one step after another, starting at `from`.
pub open spec fn walk(from: Segments, components: Segments) -> Segments
    decreases components.len(),
{
    if components.len() == 0 {
        from
    } else {
        step(walk(from, components.drop_last()), components.last())
    }
}

/// The names one after another, each behind a separator.
pub open spec fn joined(path: Segments) -> Seq<char>
    decreases path.len(),
{
    if path.len() == 0 {
        Seq::empty()
    } else {
        joined(path.drop_last()) + seq!['/'] + path.last()
    }
}

/// A path as text: every name behind a separator; the top directory is a
/// lone separator.
pub open spec fn path_text(path: Segments) -> Seq<char> {
    if path.len() == 0 {
        seq!['/']
    } else {
        joined(path)
    }
}

/// The components of a text are never empty as a list, and none of them
/// holds a separator.
pub proof fn lemma_components_shape(text: Seq<char>)
    ensures
        components(text).len() >= 1,
        forall|i: int|
            0 <= i < components(text).len() ==> !(#[trigger] components(text)[i]).contains('/'),
    decreases text.len(),
{
    if text.len() > 0 {
        lemma_components_shape(text.drop_last());
        let before = components(text.drop_last());
        if text.last() != '/' {
            let grown = before.last().push(text.last());
            assert forall|j: int| 0 <= j < grown.len() implies grown[j] != '/' by {
                if j < before.last().len() && grown[j] == '/' {
                    assert(before.last()[j] == '/');
                    assert(before.last().contains('/'));
                }
            }
            assert(!grown.contains('/'));
        } else {
            assert(!Seq::<char>::empty().contains('/'));
        }
    } else {
        assert(!Seq::<char>::empty().contains('/'));
    }
}

/// A step from a list of plain names, with a component that holds no
/// separator, leads to a list of plain names.
pub proof fn lemma_step_plain(at: Segments, component: Seq<char>)
    requires
        all_plain(at),
        !component.contains('/'),
    ensures
        all_plain(step(at, component)),
{
}

/// A walk from a list of plain names, over components that hold no separator,
/// leads to a list of plain names.
pub proof fn lemma_walk_plain(from: Segments, components: Segments)
    requires
        all_plain(from),
        forall|i: int| 0 <= i < components.len() ==> !(#[trigger] components[i]).contains('/'),
    ensures
        all_plain(walk(from, components)),
    decreases components.len(),
{
    if components.len() > 0 {
        lemma_walk_plain(from, components.drop_last());
        lemma_step_plain(walk(from, components.drop_last()), components.last());
    }
}

/// The characters of `s`, in order.
pub fn chars_of(s: &str) -> (out: Vec<char>)
    ensures
        out@ == s@,
{
    let mut out: Vec<char> = Vec::new();
    for c in it: s.chars()
        invariant
            out@ == it.seq().take(it.index() as int),
            it.seq() == s@,
    {
        out.push(c);
    }
    out
}

/// Splits a path text at its separators.
pub fn split(text: &str) -> (out: Vec<String>)
    ensures
        texts(out@) == components(text@),
{
    let chars = chars_of(text);
    let n: usize = chars.len();
    let mut out: Vec<String> = Vec::new();
    let mut start: usize = 0;
    let mut i: usize = 0;
    proof {
        assert(text@.take(0) == Seq::<char>::empty());
        assert(text@.subrange(0, 0) == Seq::<char>::empty());
        assert(texts(out@).push(Seq::<char>::empty()) == seq![Seq::<char>::empty()]);
    }
    while i < n
        invariant
            chars@ == text@,
            n == chars.len(),
            start <= i <= n,
            texts(out@).push(text@.subrange(start as int, i as int)) == components(
                text@.take(i as int),
            ),
        decreases n - i,
    {
        proof {
            assert(text@.take(i + 1).drop_last() == text@.take(i as int));
            assert(text@.take(i + 1).last() == text@[i as int]);
            assert(texts(out@).push(text@.subrange(start as int, i as int)).drop_last() == texts(
                out@,
            ));
        }
        if chars[i] == '/' {
            let piece = String::from_str(text.substring_char(start, i));
            proof {
                assert(texts(out@.push(piece)) == texts(out@).push(piece@));
                assert(text@.subrange(i + 1, i + 1) == Seq::<char>::empty());
            }
            out.push(piece);
            start = i + 1;
        } else {
            proof {
                assert(text@.subrange(start as int, i as int).push(text@[i as int])
                    == text@.subrange(start as int, i + 1));
            }
        }
        i = i + 1;
    }
    let piece = String::from_str(text.substring_char(start, n));
    proof {
        assert(texts(out@.push(piece)) == texts(out@).push(piece@));
        assert(text@.take(n as int) == text@);
    }
    out.push(piece);
    out
}

/// Whether the text is the single character `.`.
pub fn is_dot(text: &str) -> (b: bool)
    ensures
        b == (text@ == seq!['.']),
{
    let n: usize = text.unicode_len();
    if n == 1 {
        let c = text.get_char(0);
        proof {
            if c == '.' {
                assert(text@ =~= seq!['.']);
            } else {
                assert(seq!['.'][0] == '.');
            }
        }
        c == '.'
    } else {
        proof {
            assert(seq!['.'].len() == 1);
        }
        false
    }
}

/// Whether the text is `..`.
pub fn is_dot_dot(text: &str) -> (b: bool)
    ensures
        b == (text@ == seq!['.', '.']),
{
    let n: usize = text.unicode_len();
    if n == 2 {
        let c = text.get_char(0);
        let d = text.get_char(1);
        proof {
            if c == '.' && d == '.' {
                assert(text@ =~= seq!['.', '.']);
            } else {
                assert(seq!['.', '.'][0] == '.');
                assert(seq!['.', '.'][1] == '.');
            }
        }
        c == '.' && d == '.'
    } else {
        proof {
            assert(seq!['.', '.'].len() == 2);
        }
        false
    }
}

/// Takes one step of a walk from `at`.
pub fn advance(at: &mut Vec<String>, component: &String)
    ensures
        texts(final(at)@) == step(texts(old(at)@), component@),
{
    if component.as_str().unicode_len() == 0 || is_dot(component.as_str()) {
    } else if is_dot_dot(component.as_str()) {
        if at.len() > 0 {
            at.pop();
            proof {
                assert(texts(at@) == texts(old(at)@).drop_last());
            }
        }
    } else {
        let name = component.clone();
        at.push(name);
        proof {
            assert(texts(at@) == texts(old(at)@).push(component@));
        }
    }
}

/// Walks the components from `from`.
pub fn follow(from: Vec<String>, components: &Vec<String>) -> (out: Vec<String>)
    ensures
        texts(out@) == walk(texts(from@), texts(components@)),
{
    let mut at = from;
    let n: usize = components.len();
    let mut i: usize = 0;
    proof {
        assert(texts(components@).take(0) == Segments::empty());
    }
    while i < n
        invariant
            n == components.len(),
            i <= n,
            texts(at@) == walk(texts(from@), texts(components@).take(i as int)),
        decreases n - i,
    {
        proof {
            let upto = texts(components@).take(i + 1);
            assert(upto.drop_last() == texts(components@).take(i as int));
            assert(upto.last() == components@[i as int]@);
        }
        advance(&mut at, &components[i]);
        i = i + 1;
    }
    proof {
        assert(texts(components@).take(n as int) == texts(components@));
    }
    at
}

/// Whether `path` begins with all the names of `prefix`.
pub fn starts_with(path: &Vec<String>, prefix: &Vec<String>) -> (b: bool)
    ensures
        b == texts(prefix@).is_prefix_of(texts(path@)),
{
    if prefix.len() > path.len() {
        return false;
    }
    let n: usize = prefix.len();
    let mut i: usize = 0;
    while i < n
        invariant
            n == prefix.len(),
            n <= path.len(),
            i <= n,
            forall|j: int| 0 <= j < i ==> path@[j]@ == prefix@[j]@,
        decreases n - i,
    {
        if path[i] != prefix[i] {
            proof {
                assert(texts(path@)[i as int] == path@[i as int]@);
                assert(texts(prefix@)[i as int] == prefix@[i as int]@);
            }
            return false;
        }
        i = i + 1;
    }
    proof {
        assert(texts(prefix@) =~= texts(path@).subrange(0, n as int));
    }
    true
}

/// Writes a path as text.
pub fn to_text(path: &Vec<String>) -> (out: String)
    ensures
        out@ == path_text(texts(path@)),
{
    let n: usize = path.len();
    if n == 0 {
        proof {
            reveal_strlit("/");
            assert("/"@ =~= seq!['/']);
        }
        return String::from_str("/");
    }
    let mut out = String::new();
    let mut i: usize = 0;
    proof {
        assert(texts(path@).take(0) == Segments::empty());
    }
    while i < n
        invariant
            n == path.len(),
            i <= n,
            out@ == joined(texts(path@).take(i as int)),
        decreases n - i,
    {
        proof {
            reveal_strlit("/");
            assert("/"@ =~= seq!['/']);
            let upto = texts(path@).take(i + 1);
            assert(upto.drop_last() == texts(path@).take(i as int));
            assert(upto.last() == path@[i as int]@);
        }
        out.append("/");
        out.append(path[i].as_str());
        i = i + 1;
    }
    proof {
        assert(texts(path@).take(n as int) == texts(path@));
    }
    out
}

/// The names of `path` from position `from` on.
pub(crate) fn tail(path: &Vec<String>, from: usize) -> (out: Vec<String>)
    requires
        from <= path.len(),
    ensures
        texts(out@) == texts(path@).skip(from as int),
{
    let n: usize = path.len();
    let mut out: Vec<String> = Vec::new();
    let mut i: usize = from;
    while i < n
        invariant
            n == path.len(),
            from <= i <= n,
            texts(out@) == texts(path@).subrange(from as int, i as int),
        decreases n - i,
    {
        let name = path[i].clone();
        proof {
            assert(texts(out@.push(name)) == texts(out@).push(name@));
            assert(texts(path@).subrange(from as int, i as int).push(texts(path@)[i as int])
                == texts(path@).subrange(from as int, i + 1));
        }
        out.push(name);
        i = i + 1;
    }
    proof {
        assert(texts(path@).subrange(from as int, n as int) == texts(path@).skip(from as int));
    }
    out
}

/// The first `upto` names of `path`.
pub(crate) fn head(path: &Vec<String>, upto: usize) -> (out: Vec<String>)
    requires
        upto <= path.len(),
    ensures
        texts(out@) == texts(path@).take(upto as int),
{
    let mut out: Vec<String> = Vec::new();
    let mut i: usize = 0;
    while i < upto
        invariant
            upto <= path.len(),
            i <= upto,
            texts(out@) == texts(path@).take(i as int),
        decreases upto - i,
    {
        let name = path[i].clone();
        proof {
            assert(texts(out@.push(name)) == texts(out@).push(name@));
            assert(texts(path@).take(i as int).push(texts(path@)[i as int]) == texts(path@).take(
                i + 1,
            ));
        }
        out.push(name);
        i = i + 1;
    }
    out
}

/// Whether the name is plain.
pub fn is_plain_name(name: &str) -> (b: bool)
    ensures
        b == is_plain(name@),
{
    let chars = chars_of(name);
    let n: usize = chars.len();
    if n == 0 || is_dot(name) || is_dot_dot(name) {
        return false;
    }
    let mut i: usize = 0;
    while i < n
        invariant
            n == chars.len(),
            chars@ == name@,
            i <= n,
            forall|j: int| 0 <= j < i ==> name@[j] != '/',
        decreases n - i,
    {
        if chars[i] == '/' {
            proof {
                assert(name@.contains('/'));
            }
            return false;
        }
        i = i + 1;
    }
    true
}

/// The names of `first`, then those of `second`.
pub fn chain(first: &Vec<String>, second: &Vec<String>) -> (out: Vec<String>)
    ensures
        texts(out@) == texts(first@) + texts(second@),
{
    let mut out = tail(first, 0);
    let n: usize = second.len();
    let mut i: usize = 0;
    proof {
        assert(texts(first@).skip(0) == texts(first@));
        assert(texts(first@) + texts(second@).take(0) == texts(first@));
    }
    while i < n
        invariant
            n == second.len(),
            i <= n,
            texts(out@) == texts(first@) + texts(second@).take(i as int),
        decreases n - i,
    {
        let name = second[i].clone();
        proof {
            assert(texts(out@.push(name)) == texts(out@).push(name@));
            assert((texts(first@) + texts(second@).take(i as int)).push(texts(second@)[i as int])
                == texts(first@) + texts(second@).take(i + 1));
        }
        out.push(name);
        i = i + 1;
    }
    proof {
        assert(texts(second@).take(n as int) == texts(second@));
    }
    out
}

} // verus!
