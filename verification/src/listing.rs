//! Directory listings as data: which children of a directory are listed, under
//! which link, and in which order.

use vstd::prelude::*;
use vstd::seq_lib::*;
use crate::links::{all_url_safe, lemma_link_path_is_url_safe, link_path, to_link};
use crate::order::{
    lemma_precedes_antisymmetric, lemma_precedes_total, lemma_precedes_transitive, precedes,
    precedes_exec, strictly_precedes,
};
use crate::paths::{chars_of, head, is_plain, is_plain_name, tail, texts, Segments};
use crate::resolver::{NotFound, ResolvedTarget, Root};

verus! {

/// One line of a listing, as a value of the model.
pub struct Entry {
    /// The link path of the entry: its path from the root, written for a URL.
    pub link: Seq<char>,
    /// The display name.
    pub name: Seq<char>,
    /// Whether the entry is a directory.
    pub is_dir: bool,
}

/// What enumerating a directory found of one child, as a value of the model.
pub struct Found {
    /// The name, where it could be read as text.
    pub name: Option<Seq<char>>,
    /// Whether the child is a directory, where that could be asked.
    pub is_dir: Option<bool>,
}

/// What enumerating a directory found of one child.
#[derive(Clone, Debug, PartialEq, Eq)]
pub struct Child {
    /// The name, or nothing where it is no valid text.
    pub name: Option<String>,
    /// Whether the child is a directory, or nothing where it could not be
    /// asked.
    pub is_dir: Option<bool>,
}

impl View for Child {
    type V = Found;

    open spec fn view(&self) -> Found {
        Found {
            name: match self.name {
                Some(name) => Some(name@),
                None => None,
            },
            is_dir: self.is_dir,
        }
    }
}

/// One line of a listing.
#[derive(Clone, Debug, PartialEq, Eq)]
pub struct ListingEntry {
    /// The link path of the entry: its path from the root, rooted at a
    /// separator and written for a URL.
    pub link: String,
    /// The display name: the base name of the entry, or `..` for the parent.
    pub name: String,
    /// Whether the entry is a directory.
    pub is_dir: bool,
}

impl View for ListingEntry {
    type V = Entry;

    open spec fn view(&self) -> Entry {
        Entry { link: self.link@, name: self.name@, is_dir: self.is_dir }
    }
}

/// The model values of a list of children.
pub open spec fn found(children: Seq<Child>) -> Seq<Found> {
    children.map_values(|c: Child| c@)
}

/// The model values of a list of entries.
pub open spec fn entries(list: Seq<ListingEntry>) -> Seq<Entry> {
    list.map_values(|e: ListingEntry| e@)
}

/// The display name of the parent entry.
pub open spec fn parent_name() -> Seq<char> {
    seq!['.', '.']
}

/// The entry of a child of the directory `dir` (a path from the root): none
/// where the name or the kind is unknown, or where the name is not plain.
pub open spec fn entry_for(dir: Segments, child: Found) -> Option<Entry> {
    if child.name is Some && child.is_dir is Some && is_plain(child.name.unwrap()) {
        Some(
            Entry {
                link: link_path(dir.push(child.name.unwrap())),
                name: child.name.unwrap(),
                is_dir: child.is_dir.unwrap(),
            },
        )
    } else {
        None
    }
}

/// The entries of the children that have one, in the order of the children.
pub open spec fn retained(dir: Segments, children: Seq<Found>) -> Seq<Entry>
    decreases children.len(),
{
    if children.len() == 0 {
        Seq::empty()
    } else {
        let before = retained(dir, children.drop_last());
        match entry_for(dir, children.last()) {
            Some(e) => before.push(e),
            None => before,
        }
    }
}

/// The names of the list ascend: each entry's name precedes the names of
/// all entries behind it.
pub open spec fn ascending(list: Seq<Entry>) -> bool {
    forall|i: int, j: int| 0 <= i < j < list.len() ==> precedes(list[i].name, list[j].name)
}

/// The names of the list ascend and no two are the same.
pub open spec fn strictly_ascending(list: Seq<Entry>) -> bool {
    forall|i: int, j: int|
        0 <= i < j < list.len() ==> strictly_precedes(list[i].name, list[j].name)
}

/// Where an entry goes in an ascending list: behind the last entry whose name
/// precedes its own.
pub open spec fn position(list: Seq<Entry>, e: Entry) -> int
    decreases list.len(),
{
    if list.len() == 0 || precedes(list.last().name, e.name) {
        list.len() as int
    } else {
        position(list.drop_last(), e)
    }
}

/// The list with the entry put at its position.
pub open spec fn placed(list: Seq<Entry>, e: Entry) -> Seq<Entry> {
    list.insert(position(list, e), e)
}

/// The entries ordered by name. Entries of one name keep the order in which
/// they came.
pub open spec fn sorted_by_name(list: Seq<Entry>) -> Seq<Entry>
    decreases list.len(),
{
    if list.len() == 0 {
        Seq::empty()
    } else {
        placed(sorted_by_name(list.drop_last()), list.last())
    }
}

/// The entry that leads from the directory `dir` to its parent.
pub open spec fn parent_entry(dir: Segments) -> Entry {
    Entry { link: link_path(dir.drop_last()), name: parent_name(), is_dir: true }
}

/// The listing of the directory `dir` (a path from the root) with the given
/// children: the parent entry, unless the directory is the root, then the
/// children's entries by name.
pub open spec fn listing(dir: Segments, children: Seq<Found>) -> Seq<Entry> {
    let below = sorted_by_name(retained(dir, children));
    if dir.len() == 0 {
        below
    } else {
        seq![parent_entry(dir)] + below
    }
}

/// The position of an entry lies in the list or at its end; no entry from it
/// on precedes the new one by name, and the entry before it does.
pub proof fn lemma_position(list: Seq<Entry>, e: Entry)
    ensures
        0 <= position(list, e) <= list.len(),
        forall|k: int| position(list, e) <= k < list.len() ==> !precedes(list[k].name, e.name),
        position(list, e) > 0 ==> precedes(list[position(list, e) - 1].name, e.name),
    decreases list.len(),
{
    if list.len() == 0 || precedes(list.last().name, e.name) {
    } else {
        let before = list.drop_last();
        lemma_position(before, e);
        assert forall|k: int| position(list, e) <= k < list.len() implies !precedes(
            list[k].name,
            e.name,
        ) by {
            if k < before.len() {
                assert(list[k] == before[k]);
            }
        }
        if position(list, e) > 0 {
            assert(list[position(list, e) - 1] == before[position(before, e) - 1]);
        }
    }
}

/// No other place in the list is such a position.
pub proof fn lemma_position_found(list: Seq<Entry>, e: Entry, at: int)
    requires
        0 <= at <= list.len(),
        forall|k: int| at <= k < list.len() ==> !precedes(list[k].name, e.name),
        at > 0 ==> precedes(list[at - 1].name, e.name),
    ensures
        position(list, e) == at,
    decreases list.len(),
{
    if list.len() == 0 || precedes(list.last().name, e.name) {
        if at < list.len() {
            assert(!precedes(list[list.len() - 1].name, e.name));
        }
    } else {
        let before = list.drop_last();
        assert forall|k: int| at <= k < before.len() implies !precedes(before[k].name, e.name) by {
            assert(before[k] == list[k]);
        }
        if at > 0 {
            assert(before[at - 1] == list[at - 1]);
        }
        lemma_position_found(before, e, at);
    }
}

/// An ascending list with an entry placed is ascending.
pub proof fn lemma_placed_ascending(list: Seq<Entry>, e: Entry)
    requires
        ascending(list),
    ensures
        ascending(placed(list, e)),
{
    lemma_position(list, e);
    let at = position(list, e);
    let out = placed(list, e);
    assert forall|i: int, j: int| 0 <= i < j < out.len() implies precedes(
        out[i].name,
        out[j].name,
    ) by {
        if j < at {
            assert(out[i] == list[i] && out[j] == list[j]);
        } else if j == at {
            assert(out[i] == list[i]);
            if i < at - 1 {
                lemma_precedes_transitive(list[i].name, list[at - 1].name, e.name);
            }
        } else if i == at {
            assert(out[j] == list[j - 1]);
            lemma_precedes_total(list[j - 1].name, e.name);
        } else if i < at {
            assert(out[i] == list[i] && out[j] == list[j - 1]);
        } else {
            assert(out[i] == list[i - 1] && out[j] == list[j - 1]);
        }
    }
}

/// The listed children are in ascending order of their names.
pub proof fn lemma_sorted_ascending(list: Seq<Entry>)
    ensures
        ascending(sorted_by_name(list)),
    decreases list.len(),
{
    if list.len() > 0 {
        lemma_sorted_ascending(list.drop_last());
        lemma_placed_ascending(sorted_by_name(list.drop_last()), list.last());
    }
}

/// Ordering by name neither drops nor adds nor changes an entry.
pub proof fn lemma_sorted_permutes(list: Seq<Entry>)
    ensures
        sorted_by_name(list).len() == list.len(),
        sorted_by_name(list).to_multiset() == list.to_multiset(),
    decreases list.len(),
{
    if list.len() == 0 {
        assert(list =~= Seq::<Entry>::empty());
    } else {
        let before = list.drop_last();
        lemma_sorted_permutes(before);
        lemma_position(sorted_by_name(before), list.last());
        to_multiset_insert(sorted_by_name(before), position(sorted_by_name(before), list.last()),
            list.last());
        to_multiset_build(before, list.last());
        assert(before.push(list.last()) == list);
    }
}

/// A list that ascends already is left as it is.
pub proof fn lemma_ascending_kept(list: Seq<Entry>)
    requires
        ascending(list),
    ensures
        sorted_by_name(list) == list,
    decreases list.len(),
{
    if list.len() > 0 {
        let before = list.drop_last();
        assert(ascending(before)) by {
            assert forall|i: int, j: int| 0 <= i < j < before.len() implies precedes(
                before[i].name,
                before[j].name,
            ) by {
                assert(before[i] == list[i] && before[j] == list[j]);
            }
        }
        lemma_ascending_kept(before);
        if before.len() > 0 {
            assert(before.last() == list[list.len() - 2]);
        }
        assert(position(before, list.last()) == before.len());
        assert(before.insert(before.len() as int, list.last()) == list);
    }
}

/// Entries of different names come out in the ascending order of their
/// names, in whatever order they went in.
pub proof fn lemma_sorted_is_the_ascending_order(list: Seq<Entry>, expected: Seq<Entry>)
    requires
        strictly_ascending(expected),
        list.to_multiset() == expected.to_multiset(),
    ensures
        sorted_by_name(list) == expected,
    decreases list.len(),
{
    list.to_multiset_ensures();
    expected.to_multiset_ensures();
    if list.len() == 0 {
        assert(expected =~= Seq::<Entry>::empty());
    } else {
        let last = list.last();
        assert(list[list.len() - 1] == last);
        assert(list.contains(last));
        assert(list.to_multiset().count(last) > 0);
        assert(expected.to_multiset().count(last) > 0);
        assert(expected.contains(last));
        let k = choose|k: int| 0 <= k < expected.len() && expected[k] == last;
        let before = list.drop_last();
        let rest = expected.remove(k);
        assert(before =~= list.remove(list.len() - 1));
        assert(before.to_multiset() == rest.to_multiset());
        assert(strictly_ascending(rest)) by {
            assert forall|i: int, j: int| 0 <= i < j < rest.len() implies strictly_precedes(
                rest[i].name,
                rest[j].name,
            ) by {
                let a = if i < k { i } else { i + 1 };
                let b = if j < k { j } else { j + 1 };
                assert(rest[i] == expected[a] && rest[j] == expected[b]);
            }
        }
        lemma_sorted_is_the_ascending_order(before, rest);
        assert forall|j: int| k <= j < rest.len() implies !precedes(rest[j].name, last.name) by {
            assert(rest[j] == expected[j + 1]);
            assert(strictly_precedes(expected[k].name, expected[j + 1].name));
            if precedes(rest[j].name, last.name) {
                lemma_precedes_antisymmetric(rest[j].name, last.name);
            }
        }
        if k > 0 {
            assert(rest[k - 1] == expected[k - 1]);
            assert(strictly_precedes(expected[k - 1].name, expected[k].name));
        }
        lemma_position_found(rest, last, k);
        assert(rest.insert(k, last) =~= expected);
    }
}

/// The order of a listing: the parent entry comes first unless the
/// directory is the root, and behind it the children's entries stand in the
/// ascending order of their names, none lost and none added. Where the names
/// ascend as the children come, the children's entries stay as they are.
pub proof fn lemma_listing_order(dir: Segments, children: Seq<Found>)
    ensures
        dir.len() == 0 ==> listing(dir, children) == sorted_by_name(retained(dir, children)),
        dir.len() > 0 ==> listing(dir, children).first() == parent_entry(dir) && listing(
            dir,
            children,
        ).drop_first() == sorted_by_name(retained(dir, children)),
        ascending(sorted_by_name(retained(dir, children))),
        sorted_by_name(retained(dir, children)).to_multiset() == retained(
            dir,
            children,
        ).to_multiset(),
        ascending(retained(dir, children)) ==> sorted_by_name(retained(dir, children))
            == retained(dir, children),
{
    let kept = retained(dir, children);
    lemma_sorted_ascending(kept);
    lemma_sorted_permutes(kept);
    if ascending(kept) {
        lemma_ascending_kept(kept);
    }
    if dir.len() > 0 {
        assert((seq![parent_entry(dir)] + sorted_by_name(kept)).drop_first() == sorted_by_name(
            kept,
        ));
    }
}

/// A directory whose children have the entries `expected`, of different
/// names and written in the ascending order of the names, is listed in
/// exactly that order, behind the parent entry unless it is the root. The
/// order in which the children were enumerated does not matter.
pub proof fn lemma_listing_is_the_ascending_order(
    dir: Segments,
    children: Seq<Found>,
    expected: Seq<Entry>,
)
    requires
        strictly_ascending(expected),
        retained(dir, children).to_multiset() == expected.to_multiset(),
    ensures
        dir.len() == 0 ==> listing(dir, children) == expected,
        dir.len() > 0 ==> listing(dir, children) == seq![parent_entry(dir)] + expected,
{
    lemma_sorted_is_the_ascending_order(retained(dir, children), expected);
}

/// The link of the entry begins with a separator and holds only characters
/// that are safe in a URL.
pub open spec fn is_well_linked(e: Entry) -> bool {
    e.link.len() > 0 && e.link[0] == '/' && all_url_safe(e.link)
}

/// Every entry that is retained is well linked.
pub proof fn lemma_retained_links(dir: Segments, children: Seq<Found>)
    ensures
        forall|i: int|
            0 <= i < retained(dir, children).len() ==> is_well_linked(
                #[trigger] retained(dir, children)[i],
            ),
    decreases children.len(),
{
    if children.len() > 0 {
        let before = retained(dir, children.drop_last());
        lemma_retained_links(dir, children.drop_last());
        if entry_for(dir, children.last()) is Some {
            let e = entry_for(dir, children.last()).unwrap();
            let path = dir.push(children.last().name.unwrap());
            lemma_link_path_is_url_safe(path);
            assert(path.len() > 0);
            assert(e.link == link_path(path));
            assert(is_well_linked(e));
        }
        assert forall|i: int| 0 <= i < retained(dir, children).len() implies is_well_linked(
            #[trigger] retained(dir, children)[i],
        ) by {
            if i < before.len() {
                assert(retained(dir, children)[i] == before[i]);
            }
        }
    }
}

/// Every link of a listing is rooted at a separator and safe in a URL.
pub proof fn lemma_listing_links_are_url_safe(dir: Segments, children: Seq<Found>)
    ensures
        forall|i: int|
            0 <= i < listing(dir, children).len() ==> is_well_linked(
                #[trigger] listing(dir, children)[i],
            ),
{
    let kept = retained(dir, children);
    let below = sorted_by_name(kept);
    lemma_retained_links(dir, children);
    lemma_sorted_permutes(kept);
    kept.to_multiset_ensures();
    below.to_multiset_ensures();
    assert forall|i: int| 0 <= i < below.len() implies is_well_linked(#[trigger] below[i]) by {
        assert(below.contains(below[i]));
        assert(below.to_multiset().count(below[i]) > 0);
        assert(kept.contains(below[i]));
        let k = choose|k: int| 0 <= k < kept.len() && kept[k] == below[i];
        assert(is_well_linked(kept[k]));
    }
    if dir.len() > 0 {
        lemma_link_path_is_url_safe(dir.drop_last());
        assert forall|i: int| 0 <= i < listing(dir, children).len() implies is_well_linked(
            #[trigger] listing(dir, children)[i],
        ) by {
            if i > 0 {
                assert(listing(dir, children)[i] == below[i - 1]);
            }
        }
    }
}

/// The entry of one child of the directory `dir`, a path from the root.
/// There is none for a child whose name or kind is unknown, nor for a name
/// that is not plain.
pub fn format_path(dir: &Vec<String>, child: &Child) -> (r: Option<ListingEntry>)
    ensures
        match r {
            Some(e) => entry_for(texts(dir@), child@) == Some(e@),
            None => entry_for(texts(dir@), child@) is None,
        },
{
    match (&child.name, child.is_dir) {
        (Some(name), Some(is_dir)) => {
            if is_plain_name(name.as_str()) {
                let mut path = tail(dir, 0);
                let last = name.clone();
                proof {
                    assert(texts(dir@).skip(0) == texts(dir@));
                    assert(texts(path@.push(last)) == texts(path@).push(last@));
                }
                path.push(last);
                Some(ListingEntry { link: to_link(&path), name: name.clone(), is_dir })
            } else {
                None
            }
        },
        _ => None,
    }
}

/// The keys and the entries belong together: one key for each entry, the
/// characters of its name.
spec fn keyed(keys: Seq<Vec<char>>, list: Seq<ListingEntry>) -> bool {
    &&& keys.len() == list.len()
    &&& forall|i: int| 0 <= i < keys.len() ==> (#[trigger] keys[i])@ == list[i].name@
}

/// Puts an entry at its position in a list that is kept with its keys.
fn place(list: &mut Vec<ListingEntry>, keys: &mut Vec<Vec<char>>, e: ListingEntry)
    requires
        keyed(old(keys)@, old(list)@),
    ensures
        keyed(final(keys)@, final(list)@),
        entries(final(list)@) == placed(entries(old(list)@), e@),
{
    let key = chars_of(e.name.as_str());
    let mut at: usize = list.len();
    while at > 0 && !precedes_exec(&keys[at - 1], &key)
        invariant
            at <= list.len(),
            keyed(keys@, list@),
            key@ == e.name@,
            forall|k: int| at <= k < list.len() ==> !precedes(list@[k].name@, e.name@),
        decreases at,
    {
        at = at - 1;
    }
    proof {
        let before = entries(list@);
        assert forall|k: int| at <= k < before.len() implies !precedes(
            before[k].name,
            e@.name,
        ) by {
            assert(before[k] == list@[k]@);
        }
        if at > 0 {
            assert(before[at - 1] == list@[at - 1]@);
        }
        lemma_position_found(before, e@, at as int);
        assert(entries(list@.insert(at as int, e)) =~= before.insert(at as int, e@));
    }
    list.insert(at, e);
    keys.insert(at, key);
}

/// A copy of the entries, ordered by name. Entries of one name keep the order
/// in which they came.
pub fn sort_by_name(list: &Vec<ListingEntry>) -> (out: Vec<ListingEntry>)
    ensures
        entries(out@) == sorted_by_name(entries(list@)),
        ascending(entries(out@)),
        entries(out@).to_multiset() == entries(list@).to_multiset(),
{
    let mut out: Vec<ListingEntry> = Vec::new();
    let mut keys: Vec<Vec<char>> = Vec::new();
    let n: usize = list.len();
    let mut i: usize = 0;
    proof {
        assert(entries(list@).take(0) == Seq::<Entry>::empty());
        assert(entries(out@) == Seq::<Entry>::empty());
    }
    while i < n
        invariant
            n == list.len(),
            i <= n,
            keyed(keys@, out@),
            entries(out@) == sorted_by_name(entries(list@).take(i as int)),
        decreases n - i,
    {
        let e = ListingEntry {
            link: list[i].link.clone(),
            name: list[i].name.clone(),
            is_dir: list[i].is_dir,
        };
        proof {
            let upto = entries(list@).take(i + 1);
            assert(upto.drop_last() == entries(list@).take(i as int));
            assert(upto.last() == e@);
        }
        place(&mut out, &mut keys, e);
        i = i + 1;
    }
    proof {
        assert(entries(list@).take(n as int) == entries(list@));
        lemma_sorted_ascending(entries(list@));
        lemma_sorted_permutes(entries(list@));
    }
    out
}

/// The listing of a directory: the entries of its children by name, behind an
/// entry for the parent unless the directory is the root. A target that was
/// not resolved against `root` has no listing.
pub fn directory_listing(root: &Root, target: &ResolvedTarget, children: &Vec<Child>) -> (r:
    Result<Vec<ListingEntry>, NotFound>)
    ensures
        r is Ok <==> target.is_under(root),
        r is Ok ==> entries(r.unwrap()@) == listing(target.relative_segments(), found(children@)),
{
    if !target.resolved_against(root) {
        return Err(NotFound);
    }
    let dir = target.relative();
    let mut kept: Vec<ListingEntry> = Vec::new();
    let n: usize = children.len();
    let mut i: usize = 0;
    proof {
        assert(found(children@).take(0) == Seq::<Found>::empty());
        assert(entries(kept@) == Seq::<Entry>::empty());
    }
    while i < n
        invariant
            n == children.len(),
            i <= n,
            entries(kept@) == retained(texts(dir@), found(children@).take(i as int)),
        decreases n - i,
    {
        proof {
            let upto = found(children@).take(i + 1);
            assert(upto.drop_last() == found(children@).take(i as int));
            assert(upto.last() == children@[i as int]@);
        }
        match format_path(dir, &children[i]) {
            Some(e) => {
                proof {
                    assert(entries(kept@.push(e)) == entries(kept@).push(e@));
                }
                kept.push(e);
            },
            None => {},
        }
        i = i + 1;
    }
    proof {
        assert(found(children@).take(n as int) == found(children@));
    }
    let mut out = sort_by_name(&kept);
    if dir.len() > 0 {
        let up = head(dir, dir.len() - 1);
        let parent = ListingEntry { link: to_link(&up), name: String::from_str(".."), is_dir: true };
        proof {
            reveal_strlit("..");
            assert(".."@ =~= parent_name());
            assert(texts(dir@).take(dir.len() - 1) == texts(dir@).drop_last());
            assert(parent@ == parent_entry(texts(dir@)));
            assert(entries(out@.insert(0, parent)) =~= seq![parent@] + entries(out@));
        }
        out.insert(0, parent);
    }
    Ok(out)
}

} // verus!
