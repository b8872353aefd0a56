//! A draft crate as a map from file path to file content.

use crate::order::{before, lemma_order_total, lemma_order_transitive, precedes};
use crate::text::same;
use vstd::prelude::*;

verus! {

/// A path and the content of the file there.
pub type Listed = (Seq<char>, Seq<char>);

/// Whether the paths of `list` come in order, none of them twice.
pub open spec fn strictly_ordered(list: Seq<Listed>) -> bool {
    forall|i: int, j: int|
        0 <= i < j < list.len() ==> before(#[trigger] list[i].0, #[trigger] list[j].0)
}

/// Whether `list` is what `files` holds, in the order of paths.
pub open spec fn is_listing(list: Seq<Listed>, files: Map<Seq<char>, Seq<char>>) -> bool {
    &&& strictly_ordered(list)
    &&& forall|i: int|
        0 <= i < list.len() ==> files.contains_key(#[trigger] list[i].0) && files[list[i].0]
            == list[i].1
    &&& forall|p: Seq<char>| #[trigger]
        files.contains_key(p) ==> exists|i: int| 0 <= i < list.len() && #[trigger] list[i].0 == p
}

/// What `files` holds, in the order of paths.
pub open spec fn listing(files: Map<Seq<char>, Seq<char>>) -> Seq<Listed> {
    choose|list: Seq<Listed>| is_listing(list, files)
}

/// There is only one listing of a map.
pub proof fn lemma_listing_unique(
    a: Seq<Listed>,
    b: Seq<Listed>,
    files: Map<Seq<char>, Seq<char>>,
)
    requires
        is_listing(a, files),
        is_listing(b, files),
    ensures
        a == b,
    decreases a.len(),
{
    if a.len() == 0 {
        if b.len() > 0 {
            assert(files.contains_key(b[0].0));
        }
        assert(a =~= b);
    } else {
        assert(files.contains_key(a[0].0));
        assert(b.len() > 0);
        let x = a.last();
        let y = b.last();
        assert(files.contains_key(a[a.len() - 1].0));
        assert(files.contains_key(b[b.len() - 1].0));
        let i = choose|i: int| 0 <= i < b.len() && #[trigger] b[i].0 == x.0;
        let j = choose|j: int| 0 <= j < a.len() && #[trigger] a[j].0 == y.0;
        lemma_order_total(x.0, y.0);
        if i < b.len() - 1 {
            assert(before(b[i].0, b[b.len() - 1].0));
        }
        if j < a.len() - 1 {
            assert(before(a[j].0, a[a.len() - 1].0));
        }
        assert(x.0 == y.0);
        assert(x == y);
        let less = files.remove(x.0);
        lemma_listing_drop(a, files);
        lemma_listing_drop(b, files);
        lemma_listing_unique(a.drop_last(), b.drop_last(), less);
        assert(a =~= a.drop_last().push(x));
        assert(b =~= b.drop_last().push(y));
    }
}

proof fn lemma_listing_drop(a: Seq<Listed>, files: Map<Seq<char>, Seq<char>>)
    requires
        is_listing(a, files),
        a.len() > 0,
    ensures
        is_listing(a.drop_last(), files.remove(a.last().0)),
{
    let b = a.drop_last();
    let less = files.remove(a.last().0);
    assert forall|i: int, j: int| 0 <= i < j < b.len() implies before(
        #[trigger] b[i].0,
        #[trigger] b[j].0,
    ) by {
        assert(before(a[i].0, a[j].0));
    }
    assert forall|i: int| 0 <= i < b.len() implies less.contains_key(#[trigger] b[i].0)
        && less[b[i].0] == b[i].1 by {
        assert(files.contains_key(a[i].0));
        assert(before(a[i].0, a[a.len() - 1].0));
        lemma_order_total(a[i].0, a.last().0);
    }
    assert forall|p: Seq<char>| #[trigger] less.contains_key(p) implies exists|i: int|
        0 <= i < b.len() && #[trigger] b[i].0 == p by {
        let i = choose|i: int| 0 <= i < a.len() && #[trigger] a[i].0 == p;
        assert(b[i].0 == p);
    }
}

/// A listing is *the* listing.
pub proof fn lemma_listing(list: Seq<Listed>, files: Map<Seq<char>, Seq<char>>)
    requires
        is_listing(list, files),
    ensures
        listing(files) == list,
{
    lemma_listing_unique(list, listing(files), files);
}

/// One file: its path and its content.
#[derive(Debug, PartialEq)]
pub struct Section {
    pub path: String,
    pub content: String,
}

impl View for Section {
    type V = Listed;

    open spec fn view(&self) -> Listed {
        (self.path@, self.content@)
    }
}

spec fn listed(files: Seq<Section>) -> Seq<Listed> {
    files.map_values(|s: Section| s@)
}

spec fn map_of(list: Seq<Listed>) -> Map<Seq<char>, Seq<char>> {
    Map::new(
        |p: Seq<char>| exists|i: int| 0 <= i < list.len() && #[trigger] list[i].0 == p,
        |p: Seq<char>| list[choose|i: int| 0 <= i < list.len() && #[trigger] list[i].0 == p].1,
    )
}

proof fn lemma_map_of(list: Seq<Listed>)
    requires
        strictly_ordered(list),
    ensures
        is_listing(list, map_of(list)),
{
    let files = map_of(list);
    assert forall|i: int| 0 <= i < list.len() implies files.contains_key(#[trigger] list[i].0)
        && files[list[i].0] == list[i].1 by {
        let j = choose|j: int| 0 <= j < list.len() && #[trigger] list[j].0 == list[i].0;
        if i < j {
            assert(before(list[i].0, list[j].0));
        } else if j < i {
            assert(before(list[j].0, list[i].0));
        }
        lemma_order_total(list[i].0, list[j].0);
    }
}

/// The files of a draft crate, each under its path.
#[derive(Debug, PartialEq)]
pub struct Sections {
    files: Vec<Section>,
}

impl View for Sections {
    type V = Map<Seq<char>, Seq<char>>;

    closed spec fn view(&self) -> Map<Seq<char>, Seq<char>> {
        map_of(listed(self.files@))
    }
}

impl Sections {
    #[verifier::type_invariant]
    spec fn ordered(self) -> bool {
        strictly_ordered(listed(self.files@))
    }

    /// No files.
    pub fn new() -> (r: Sections)
        ensures
            r@ == Map::<Seq<char>, Seq<char>>::empty(),
    {
        let r = Sections { files: Vec::new() };
        assert(r@ =~= Map::<Seq<char>, Seq<char>>::empty());
        r
    }

    /// How many files there are.
    pub fn len(&self) -> (r: usize)
        ensures
            r == listing(self@).len(),
            is_listing(listing(self@), self@),
    {
        proof {
            use_type_invariant(self);
            lemma_map_of(listed(self.files@));
            lemma_listing(listed(self.files@), self@);
        }
        self.files.len()
    }

    /// Whether there are no files.
    pub fn is_empty(&self) -> (r: bool)
        ensures
            r == (self@ == Map::<Seq<char>, Seq<char>>::empty()),
    {
        proof {
            use_type_invariant(self);
            lemma_map_of(listed(self.files@));
            if self.files@.len() > 0 {
                assert(self@.contains_key(listed(self.files@)[0].0));
            } else {
                assert(self@ =~= Map::<Seq<char>, Seq<char>>::empty());
            }
        }
        self.files.len() == 0
    }

    /// The file at position `i` in the order of paths.
    pub fn at(&self, i: usize) -> (r: &Section)
        requires
            i < listing(self@).len(),
        ensures
            r@ == listing(self@)[i as int],
    {
        proof {
            use_type_invariant(self);
            lemma_map_of(listed(self.files@));
            lemma_listing(listed(self.files@), self@);
        }
        &self.files[i]
    }

    /// The content of the file at `path`, if there is one.
    pub fn get(&self, path: &str) -> (r: Option<&String>)
        ensures
            match r {
                Some(s) => self@.contains_key(path@) && self@[path@] == s@,
                None => !self@.contains_key(path@),
            },
    {
        proof {
            use_type_invariant(self);
            lemma_map_of(listed(self.files@));
        }
        let mut i: usize = 0;
        while i < self.files.len()
            invariant
                i <= self.files@.len(),
                is_listing(listed(self.files@), self@),
                forall|j: int| 0 <= j < i ==> (#[trigger] listed(self.files@)[j]).0 != path@,
            decreases self.files@.len() - i,
        {
            if same(self.files[i].path.as_str(), path) {
                assert(listed(self.files@)[i as int].0 == path@);
                return Some(&self.files[i].content);
            }
            i += 1;
        }
        None
    }

    /// Whether there is a file at `path`.
    pub fn contains_key(&self, path: &str) -> (r: bool)
        ensures
            r == self@.contains_key(path@),
    {
        self.get(path).is_some()
    }

    /// Puts a file at `path`, in place of the one that may be there.
    pub fn insert(&mut self, path: String, content: String)
        ensures
            final(self)@ == old(self)@.insert(path@, content@),
    {
        proof {
            use_type_invariant(&*self);
            lemma_map_of(listed(self.files@));
        }
        let ghost start = listed(self.files@);
        let ghost map = self@;
        let mut files: Vec<Section> = Vec::new();
        std::mem::swap(&mut files, &mut self.files);
        let mut at: usize = 0;
        while at < files.len() && precedes(files[at].path.as_str(), path.as_str())
            invariant
                at <= files@.len(),
                listed(files@) == start,
                forall|j: int| 0 <= j < at ==> before((#[trigger] start[j]).0, path@),
            decreases files@.len() - at,
        {
            assert(start[at as int].0 == files@[at as int].path@);
            at += 1;
        }
        let ghost entry: Listed = (path@, content@);
        let replace = at < files.len() && same(files[at].path.as_str(), path.as_str());
        if replace {
            files.set(at, Section { path, content });
        } else {
            files.insert(at, Section { path, content });
        }
        proof {
            let list = listed(files@);
            if replace {
                assert(list =~= start.update(at as int, entry));
            } else {
                assert(list =~= start.insert(at as int, entry));
                if at < start.len() {
                    assert(start[at as int].0 != entry.0);
                    lemma_order_total(start[at as int].0, entry.0);
                }
            }
            lemma_inserted(start, at as int, entry, replace);
            lemma_listing_insert(start, list, at as int, entry, replace, map);
            lemma_map_of(list);
            lemma_same_map(list, map.insert(entry.0, entry.1), map_of(list));
        }
        self.files = files;
    }

    /// Takes over all files of `other`, in place of those here under the same paths.
    pub fn extend(&mut self, other: &Sections)
        ensures
            final(self)@ == old(self)@.union_prefer_right(other@),
    {
        proof {
            use_type_invariant(other);
            lemma_map_of(listed(other.files@));
            lemma_listing(listed(other.files@), other@);
        }
        let ghost start = self@;
        let ghost list = listing(other@);
        let mut i: usize = 0;
        assert(start.union_prefer_right(partial(list, 0)) =~= start);
        while i < other.files.len()
            invariant
                i <= other.files@.len(),
                list == listed(other.files@),
                strictly_ordered(list),
                self@ == start.union_prefer_right(partial(list, i as int)),
            decreases other.files@.len() - i,
        {
            self.insert(other.files[i].path.clone(), other.files[i].content.clone());
            proof {
                assert(list[i as int] == other.files@[i as int]@);
                assert(partial(list, i + 1) =~= partial(list, i as int).insert(
                    list[i as int].0,
                    list[i as int].1,
                )) by {
                    lemma_partial(list, i as int);
                }
                assert(start.union_prefer_right(partial(list, i + 1))
                    =~= start.union_prefer_right(partial(list, i as int)).insert(
                    list[i as int].0,
                    list[i as int].1,
                ));
            }
            i += 1;
        }
        proof {
            assert(list.take(i as int) =~= list);
            lemma_same_map(list, other@, partial(list, i as int));
        }
    }

    /// The paths, in order.
    pub fn paths(&self) -> (r: Vec<String>)
        ensures
            r@.len() == listing(self@).len(),
            forall|i: int| 0 <= i < r@.len() ==> (#[trigger] r@[i])@ == listing(self@)[i].0,
    {
        let n: usize = self.len();
        let mut out: Vec<String> = Vec::new();
        let mut i: usize = 0;
        while i < n
            invariant
                n == listing(self@).len(),
                i <= n,
                out@.len() == i,
                forall|j: int| 0 <= j < i ==> (#[trigger] out@[j])@ == listing(self@)[j].0,
            decreases n - i,
        {
            out.push(self.at(i).path.clone());
            i += 1;
        }
        out
    }
}

impl Clone for Sections {
    fn clone(&self) -> (r: Sections)
        ensures
            r@ == self@,
    {
        let mut r = Sections::new();
        r.extend(self);
        assert(r@ =~= self@);
        r
    }
}

spec fn partial(list: Seq<Listed>, n: int) -> Map<Seq<char>, Seq<char>> {
    map_of(list.take(n))
}

proof fn lemma_partial(list: Seq<Listed>, n: int)
    requires
        strictly_ordered(list),
        0 <= n < list.len(),
    ensures
        partial(list, n + 1) =~= partial(list, n).insert(list[n].0, list[n].1),
{
    let a = list.take(n);
    let b = list.take(n + 1);
    assert(strictly_ordered(a)) by {
        assert forall|i: int, j: int| 0 <= i < j < a.len() implies before(
            #[trigger] a[i].0,
            #[trigger] a[j].0,
        ) by {
            assert(before(list[i].0, list[j].0));
        }
    }
    assert(b =~= a.insert(n, list[n]));
    assert(forall|j: int| 0 <= j < n ==> before((#[trigger] a[j]).0, list[n].0)) by {
        assert forall|j: int| 0 <= j < n implies before((#[trigger] a[j]).0, list[n].0) by {
            assert(before(list[j].0, list[n].0));
        }
    }
    lemma_map_of(a);
    lemma_inserted(a, n, list[n], false);
    lemma_listing_insert(a, b, n, list[n], false, map_of(a));
    lemma_map_of(b);
    lemma_same_map(b, map_of(a).insert(list[n].0, list[n].1), map_of(b));
}

proof fn lemma_same_map(
    list: Seq<Listed>,
    a: Map<Seq<char>, Seq<char>>,
    b: Map<Seq<char>, Seq<char>>,
)
    requires
        is_listing(list, a),
        is_listing(list, b),
    ensures
        a == b,
{
    assert forall|p: Seq<char>| a.contains_key(p) == b.contains_key(p) && (a.contains_key(p)
        ==> a[p] == b[p]) by {
        if a.contains_key(p) {
            let i = choose|i: int| 0 <= i < list.len() && #[trigger] list[i].0 == p;
            assert(b.contains_key(list[i].0));
        }
        if b.contains_key(p) {
            let i = choose|i: int| 0 <= i < list.len() && #[trigger] list[i].0 == p;
            assert(a.contains_key(list[i].0));
        }
    }
    assert(a =~= b);
}

proof fn lemma_inserted(start: Seq<Listed>, at: int, entry: Listed, replace: bool)
    requires
        strictly_ordered(start),
        0 <= at <= start.len(),
        forall|j: int| 0 <= j < at ==> before((#[trigger] start[j]).0, entry.0),
        replace ==> at < start.len() && start[at].0 == entry.0,
        !replace && at < start.len() ==> before(entry.0, start[at].0),
    ensures
        replace ==> strictly_ordered(start.update(at, entry)),
        !replace ==> strictly_ordered(start.insert(at, entry)),
{
    if replace {
        let list = start.update(at, entry);
        assert forall|i: int, j: int| 0 <= i < j < list.len() implies before(
            #[trigger] list[i].0,
            #[trigger] list[j].0,
        ) by {
            assert(before(start[i].0, start[j].0));
        }
    } else {
        let list = start.insert(at, entry);
        assert forall|i: int, j: int| 0 <= i < j < list.len() implies before(
            #[trigger] list[i].0,
            #[trigger] list[j].0,
        ) by {
            let a = if i < at { i } else { i - 1 };
            let b = if j < at { j } else { j - 1 };
            if i == at {
                assert(list[j] == start[b]);
                if b > at {
                    assert(before(start[at].0, start[b].0));
                    lemma_order_transitive(entry.0, start[at].0, start[b].0);
                }
            } else if j == at {
                assert(list[i] == start[i]);
            } else {
                assert(list[i] == start[a] && list[j] == start[b]);
                assert(before(start[a].0, start[b].0));
            }
        }
    }
}

proof fn lemma_listing_insert(
    start: Seq<Listed>,
    list: Seq<Listed>,
    at: int,
    entry: Listed,
    replace: bool,
    files: Map<Seq<char>, Seq<char>>,
)
    requires
        is_listing(start, files),
        strictly_ordered(list),
        0 <= at <= start.len(),
        replace ==> at < start.len() && start[at].0 == entry.0 && list == start.update(at, entry),
        !replace ==> list == start.insert(at, entry),
    ensures
        is_listing(list, files.insert(entry.0, entry.1)),
{
    let more = files.insert(entry.0, entry.1);
    assert(list[at] == entry);
    assert forall|i: int| 0 <= i < list.len() implies more.contains_key(#[trigger] list[i].0)
        && more[list[i].0] == list[i].1 by {
        if i != at {
            let a = if replace || i < at { i } else { i - 1 };
            assert(list[i] == start[a]);
            assert(files.contains_key(start[a].0));
            if i < at {
                assert(before(list[i].0, list[at].0));
            } else {
                assert(before(list[at].0, list[i].0));
            }
            lemma_order_total(list[i].0, list[at].0);
        }
    }
    assert forall|p: Seq<char>| #[trigger] more.contains_key(p) implies exists|i: int|
        0 <= i < list.len() && #[trigger] list[i].0 == p by {
        if p == entry.0 {
            assert(list[at].0 == p);
        } else {
            let a = choose|a: int| 0 <= a < start.len() && #[trigger] start[a].0 == p;
            let i = if replace || a < at { a } else { a + 1 };
            assert(list[i].0 == p);
        }
    }
}

} // verus!
