//! Hash collections keyed by path or by table, held in `hashbrown` maps and sets.

use vstd::prelude::*;

use crate::files::{DbId, ParquetFile, TableId};
use crate::text::texts;
use crate::tombstone::{opt_text, still_needed, TombstoneGc, TombstoneKey};
use crate::watermarks::NodeMarks;

verus! {

/// Files by database and table.
pub type FileMap = Map<(DbId, TableId), Seq<ParquetFile>>;

/// Tombstones by path.
pub type TombstoneMap = Map<Seq<char>, TombstoneKey>;

/// The files of each table.
#[verifier::external_body]
pub struct FileIndex {
    map: hashbrown::HashMap<(DbId, TableId), Vec<ParquetFile>>,
}

/// What a [`FileIndex`] holds.
pub uninterp spec fn indexed_files(index: FileIndex) -> FileMap;

impl FileIndex {
    /// `hashbrown::HashMap::new`: an empty map.
    #[verifier::external_body]
    pub(crate) fn new() -> (r: FileIndex)
        ensures
            indexed_files(r) == FileMap::empty(),
    {
        FileIndex { map: hashbrown::HashMap::new() }
    }

    /// `hashbrown::HashMap::get`: the value under the key, if the map has it.
    #[verifier::external_body]
    pub(crate) fn get(&self, key: (DbId, TableId)) -> (r: Option<&Vec<ParquetFile>>)
        ensures
            r is Some <==> indexed_files(*self).contains_key(key),
            r is Some ==> r->0@ == indexed_files(*self)[key],
    {
        self.map.get(&key)
    }

    /// `hashbrown::HashMap::insert`: puts the value under the key, in place of
    /// what was there.
    #[verifier::external_body]
    pub(crate) fn insert(&mut self, key: (DbId, TableId), files: Vec<ParquetFile>)
        ensures
            indexed_files(*final(self)) == indexed_files(*old(self)).insert(key, files@),
    {
        self.map.insert(key, files);
    }

    /// `hashbrown::HashMap::remove`: takes out the value under the key, if the
    /// map has it.
    #[verifier::external_body]
    pub(crate) fn remove(&mut self, key: (DbId, TableId)) -> (r: Option<Vec<ParquetFile>>)
        ensures
            indexed_files(*final(self)) == indexed_files(*old(self)).remove(key),
            r is Some <==> indexed_files(*old(self)).contains_key(key),
            r is Some ==> r->0@ == indexed_files(*old(self))[key],
    {
        self.map.remove(&key)
    }

    /// `hashbrown::HashMap::keys`: every key of the map once, in no stated order.
    #[verifier::external_body]
    pub(crate) fn keys(&self) -> (r: Vec<(DbId, TableId)>)
        ensures
            forall|k: (DbId, TableId)| r@.contains(k) <==> indexed_files(*self).contains_key(k),
            r@.no_duplicates(),
    {
        self.map.keys().copied().collect()
    }
}

/// A set of paths.
#[verifier::external_body]
pub struct PathSet {
    set: hashbrown::HashSet<String>,
}

/// What a [`PathSet`] holds.
pub uninterp spec fn paths_in(set: PathSet) -> Set<Seq<char>>;

impl PathSet {
    /// `hashbrown::HashSet::new`: an empty set.
    #[verifier::external_body]
    pub(crate) fn new() -> (r: PathSet)
        ensures
            paths_in(r) == Set::<Seq<char>>::empty(),
    {
        PathSet { set: hashbrown::HashSet::new() }
    }

    /// `hashbrown::HashSet::contains`: whether the set has the path.
    #[verifier::external_body]
    pub(crate) fn contains(&self, path: &str) -> (r: bool)
        ensures
            r == paths_in(*self).contains(path@),
    {
        self.set.contains(path)
    }

    /// `hashbrown::HashSet::insert`: adds the path, and says whether it was new.
    #[verifier::external_body]
    pub(crate) fn insert(&mut self, path: String) -> (r: bool)
        ensures
            paths_in(*final(self)) == paths_in(*old(self)).insert(path@),
            r == !paths_in(*old(self)).contains(path@),
    {
        self.set.insert(path)
    }
}

/// Deletion marks: on a whole database (no table named) or on one table of it.
#[verifier::external_body]
pub struct MarkSet {
    set: hashbrown::HashSet<(DbId, Option<TableId>)>,
}

/// What a [`MarkSet`] holds.
pub uninterp spec fn marks_in(set: MarkSet) -> Set<(DbId, Option<TableId>)>;

impl MarkSet {
    /// `hashbrown::HashSet::new`: an empty set.
    #[verifier::external_body]
    pub(crate) fn new() -> (r: MarkSet)
        ensures
            marks_in(r) == Set::<(DbId, Option<TableId>)>::empty(),
    {
        MarkSet { set: hashbrown::HashSet::new() }
    }

    /// `hashbrown::HashSet::contains`: whether the set has the mark.
    #[verifier::external_body]
    pub(crate) fn contains(&self, mark: (DbId, Option<TableId>)) -> (r: bool)
        ensures
            r == marks_in(*self).contains(mark),
    {
        self.set.contains(&mark)
    }

    /// `hashbrown::HashSet::insert`: adds the mark.
    #[verifier::external_body]
    pub(crate) fn insert(&mut self, mark: (DbId, Option<TableId>))
        ensures
            marks_in(*final(self)) == marks_in(*old(self)).insert(mark),
    {
        self.set.insert(mark);
    }
}

/// The tombstone of each path that has one.
#[verifier::external_body]
pub struct TombstoneIndex {
    map: hashbrown::HashMap<String, TombstoneGc>,
}

/// What a [`TombstoneIndex`] holds.
pub uninterp spec fn tombstones_in(index: TombstoneIndex) -> TombstoneMap;

impl TombstoneIndex {
    /// `hashbrown::HashMap::new`: an empty map.
    #[verifier::external_body]
    pub(crate) fn new() -> (r: TombstoneIndex)
        ensures
            tombstones_in(r) == TombstoneMap::empty(),
    {
        TombstoneIndex { map: hashbrown::HashMap::new() }
    }

    /// `hashbrown::HashMap::get`: the tombstone of the path, if it has one.
    #[verifier::external_body]
    pub(crate) fn get(&self, path: &str) -> (r: Option<&TombstoneGc>)
        ensures
            r is Some <==> tombstones_in(*self).contains_key(path@),
            r is Some ==> r->0@ == tombstones_in(*self)[path@],
    {
        self.map.get(path)
    }

    /// `hashbrown::HashMap::insert`: gives the path a tombstone, in place of the
    /// one that it had.
    #[verifier::external_body]
    pub(crate) fn insert(&mut self, path: String, gc: TombstoneGc)
        ensures
            tombstones_in(*final(self)) == tombstones_in(*old(self)).insert(path@, gc@),
    {
        self.map.insert(path, gc);
    }

    /// `hashbrown::HashMap::remove`: takes the tombstone of the path away.
    #[verifier::external_body]
    pub(crate) fn remove(&mut self, path: &str)
        ensures
            tombstones_in(*final(self)) == tombstones_in(*old(self)).remove(path@),
    {
        self.map.remove(path);
    }

    /// `hashbrown::HashMap::len`: how many paths have a tombstone.
    #[verifier::external_body]
    pub(crate) fn len(&self) -> (r: usize)
        ensures
            r == tombstones_in(*self).len(),
    {
        self.map.len()
    }

    /// `hashbrown::HashMap::keys`: every path that has a tombstone, once, in no
    /// stated order.
    #[verifier::external_body]
    pub(crate) fn keys(&self) -> (r: Vec<String>)
        ensures
            forall|p: Seq<char>| texts(r@).contains(p) <==> tombstones_in(*self).contains_key(p),
            texts(r@).no_duplicates(),
    {
        self.map.keys().cloned().collect()
    }

    /// `hashbrown::HashMap::retain`: keeps the entries that the predicate accepts,
    /// here those that are still needed, and drops the rest.
    #[verifier::external_body]
    pub(crate) fn retain_needed(&mut self, wal: &NodeMarks, compactions: Option<&str>)
        ensures
            tombstones_in(*final(self)) == Map::new(
                |p: Seq<char>|
                    tombstones_in(*old(self)).contains_key(p) && still_needed(
                        tombstones_in(*old(self))[p],
                        wal@,
                        opt_text(compactions),
                    ),
                |p: Seq<char>| tombstones_in(*old(self))[p],
            ),
    {
        self.map.retain(|_path, gc| gc.is_needed(wal, compactions));
    }
}

} // verus!
