//! Tables keyed by repo-relative paths.

use vstd::hash_map::StringHashMap;
use vstd::prelude::*;

verus! {

/// A map from paths to values that can be walked in the order in which its paths came in.
pub struct FileTable<T> {
    entries: Vec<(String, T)>,
    index: StringHashMap<usize>,
}

impl<T: DeepView> View for FileTable<T> {
    type V = Map<Seq<char>, T::V>;

    closed spec fn view(&self) -> Map<Seq<char>, T::V> {
        Map::new(
            |path: Seq<char>| self.index@.contains_key(path),
            |path: Seq<char>| self.entries@[self.index@[path] as int].1.deep_view(),
        )
    }
}

impl<T: DeepView> FileTable<T> {
    /// The index leads from each path to its one entry.
    pub closed spec fn wf(&self) -> bool {
        &&& forall|i: int|
            0 <= i < self.entries@.len() ==> #[trigger] self.index@.contains_key(
                self.entries@[i].0@,
            ) && self.index@[self.entries@[i].0@] == i
        &&& forall|path: Seq<char>| #[trigger]
            self.index@.contains_key(path) ==> self.index@[path] < self.entries@.len()
                && self.entries@[self.index@[path] as int].0@ == path
    }

    /// The paths of the table, in the order in which they came in.
    pub closed spec fn paths(&self) -> Seq<Seq<char>> {
        self.entries@.map_values(|e: (String, T)| e.0@)
    }

    /// The list of paths holds each path of the table once.
    pub proof fn paths_are_domain(&self)
        requires
            self.wf(),
        ensures
            self.paths().no_duplicates(),
            self.paths().to_set() == self@.dom(),
            self@.dom().finite(),
            self@.dom().len() == self.paths().len(),
            forall|i: int| 0 <= i < self.paths().len() ==> self@.contains_key(#[trigger] self.paths()[i]),
            forall|path: Seq<char>| #[trigger] self@.contains_key(path) ==> self.paths().contains(path),
    {
        let paths = self.paths();
        assert forall|i: int| 0 <= i < paths.len() implies self@.contains_key(#[trigger] paths[i]) by {
            assert(paths[i] == self.entries@[i].0@);
        }
        assert forall|path: Seq<char>| #[trigger] self@.contains_key(path) implies paths.contains(path) by {
            let i = self.index@[path] as int;
            assert(paths[i] == path);
        }
        assert(paths.no_duplicates()) by {
            assert forall|i: int, j: int| 0 <= i < paths.len() && 0 <= j < paths.len() && i != j implies paths[i]
                != paths[j] by {
                assert(paths[i] == self.entries@[i].0@);
                assert(paths[j] == self.entries@[j].0@);
            }
        }
        assert(paths.to_set() =~= self@.dom());
        paths.unique_seq_to_set();
    }

    /// A table without entries.
    pub fn new() -> (r: Self)
        ensures
            r.wf(),
            r@ == Map::<Seq<char>, T::V>::empty(),
            r.paths() == Seq::<Seq<char>>::empty(),
    {
        let r = FileTable { entries: Vec::new(), index: StringHashMap::new() };
        assert(r@ =~= Map::<Seq<char>, T::V>::empty());
        assert(r.paths() =~= Seq::<Seq<char>>::empty());
        r
    }

    /// The number of paths.
    pub fn len(&self) -> (r: usize)
        requires
            self.wf(),
        ensures
            r == self.paths().len(),
            r == self@.dom().len(),
    {
        proof {
            self.paths_are_domain();
        }
        self.entries.len()
    }

    /// The path that came in at place `i`.
    pub fn path_at(&self, i: usize) -> (r: &String)
        requires
            self.wf(),
            i < self.paths().len(),
        ensures
            r@ == self.paths()[i as int],
            self@.contains_key(r@),
    {
        let r = &self.entries[i].0;
        assert(self.paths()[i as int] == r@);
        r
    }

    /// The value of the path that came in at place `i`.
    pub fn value_at(&self, i: usize) -> (r: &T)
        requires
            self.wf(),
            i < self.paths().len(),
        ensures
            self@.contains_key(self.paths()[i as int]),
            r.deep_view() == self@[self.paths()[i as int]],
    {
        assert(self.paths()[i as int] == self.entries@[i as int].0@);
        &self.entries[i].1
    }

    /// The value of a path.
    pub fn get(&self, path: &str) -> (r: Option<&T>)
        requires
            self.wf(),
        ensures
            r is Some == self@.contains_key(path@),
            r is Some ==> r->0.deep_view() == self@[path@],
    {
        match self.index.get(path) {
            Some(i) => Some(&self.entries[*i].1),
            None => None,
        }
    }

    /// Whether the table has a value for the path.
    pub fn contains(&self, path: &str) -> (r: bool)
        requires
            self.wf(),
        ensures
            r == self@.contains_key(path@),
    {
        self.index.contains_key(path)
    }

    /// Sets the value of a path.
    pub fn insert(&mut self, path: String, value: T)
        requires
            old(self).wf(),
        ensures
            final(self).wf(),
            final(self)@ == old(self)@.insert(path@, value.deep_view()),
            final(self).paths() == if old(self)@.contains_key(path@) {
                old(self).paths()
            } else {
                old(self).paths().push(path@)
            },
    {
        let ghost before = *self;
        let found: Option<usize> = match self.index.get(path.as_str()) {
            Some(i) => Some(*i),
            None => None,
        };
        match found {
            Some(i) => {
                let key = self.entries[i].0.clone();
                self.entries.set(i, (key, value));
                assert(self.index@ == before.index@);
                assert(forall|j: int| 0 <= j < self.entries@.len() ==> self.entries@[j].0@ == before.entries@[j].0@);
                assert forall|j: int| 0 <= j < self.entries@.len() implies #[trigger] self.index@.contains_key(
                    self.entries@[j].0@,
                ) && self.index@[self.entries@[j].0@] == j by {
                    assert(before.index@.contains_key(before.entries@[j].0@));
                }
                assert forall|p: Seq<char>| #[trigger] self.index@.contains_key(p) implies self.index@[p]
                    < self.entries@.len() && self.entries@[self.index@[p] as int].0@ == p by {
                    assert(before.index@.contains_key(p));
                    assert(before.entries@[before.index@[p] as int].0@ == p);
                }
                assert(self.paths() =~= before.paths());
            },
            None => {
                let i = self.entries.len();
                self.index.insert(path.clone(), i);
                self.entries.push((path, value));
                assert(forall|j: int| 0 <= j < i ==> self.entries@[j] == before.entries@[j]);
                assert(self.entries@[i as int].0@ == path@);
                assert forall|j: int| 0 <= j < self.entries@.len() implies #[trigger] self.index@.contains_key(
                    self.entries@[j].0@,
                ) && self.index@[self.entries@[j].0@] == j by {
                    if j < i {
                        assert(before.index@.contains_key(before.entries@[j].0@));
                    }
                }
                assert forall|p: Seq<char>| #[trigger] self.index@.contains_key(p) implies self.index@[p]
                    < self.entries@.len() && self.entries@[self.index@[p] as int].0@ == p by {
                    if p != path@ {
                        assert(before.index@.contains_key(p));
                        assert(before.entries@[before.index@[p] as int].0@ == p);
                    }
                }
                assert(self.paths() =~= before.paths().push(path@));
            },
        }
        assert(self@ =~= before@.insert(path@, value.deep_view()));
    }
}

} // verus!
