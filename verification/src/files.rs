//! Parquet files, the manifests that list them, and the time filter that
//! queries put on them.

use vstd::prelude::*;

verus! {

/// Identifies a database.
pub type DbId = u32;

/// Identifies a table within its database.
pub type TableId = u32;

/// A parquet file in object storage.
#[derive(Debug, PartialEq, Eq)]
pub struct ParquetFile {
    /// A counter local to the process that wrote the file.
    pub id: u64,
    /// The object-store path. Paths are written once, so this is the identity of
    /// the file across nodes.
    pub path: String,
    pub size_bytes: u64,
    pub row_count: u64,
    pub chunk_time: i64,
    pub min_time: i64,
    pub max_time: i64,
}

impl ParquetFile {
    /// An equal file.
    pub fn duplicate(&self) -> (r: ParquetFile)
        ensures
            r == *self,
    {
        ParquetFile {
            id: self.id,
            path: self.path.clone(),
            size_bytes: self.size_bytes,
            row_count: self.row_count,
            chunk_time: self.chunk_time,
            min_time: self.min_time,
            max_time: self.max_time,
        }
    }

    /// The two agree in every field.
    pub open spec fn matches(self, other: ParquetFile) -> bool {
        &&& self.id == other.id
        &&& self.path@ == other.path@
        &&& self.size_bytes == other.size_bytes
        &&& self.row_count == other.row_count
        &&& self.chunk_time == other.chunk_time
        &&& self.min_time == other.min_time
        &&& self.max_time == other.max_time
    }

    /// Whether the two agree in every field.
    pub fn same_as(&self, other: &ParquetFile) -> (r: bool)
        ensures
            r == self.matches(*other),
    {
        self.id == other.id && self.path == other.path && self.size_bytes == other.size_bytes
            && self.row_count == other.row_count && self.chunk_time == other.chunk_time
            && self.min_time == other.min_time && self.max_time == other.max_time
    }
}

/// An equal list of files.
pub fn copy_files(files: &Vec<ParquetFile>) -> (r: Vec<ParquetFile>)
    ensures
        r@ == files@,
{
    let mut out: Vec<ParquetFile> = Vec::new();
    let mut i: usize = 0;
    while i < files.len()
        invariant
            i <= files.len(),
            out@ == files@.take(i as int),
        decreases files.len() - i,
    {
        out.push(files[i].duplicate());
        i += 1;
        proof {
            assert(out@ =~= files@.take(i as int));
        }
    }
    proof {
        assert(files@.take(i as int) =~= files@);
    }
    out
}

/// A file with this path is in the list.
pub open spec fn has_path(files: Seq<ParquetFile>, path: Seq<char>) -> bool {
    exists|i: int| 0 <= i < files.len() && (#[trigger] files[i]).path@ == path
}

/// The paths of the files in the list.
pub open spec fn path_set(files: Seq<ParquetFile>) -> Set<Seq<char>> {
    Set::new(|p: Seq<char>| has_path(files, p))
}

/// The files of one table, as a manifest lists them.
#[derive(Debug, PartialEq, Eq)]
pub struct TableFiles {
    pub db_id: DbId,
    pub table_id: TableId,
    pub files: Vec<ParquetFile>,
}

/// What a [`TableFiles`] holds.
pub struct TableEntry {
    pub key: (DbId, TableId),
    pub files: Seq<ParquetFile>,
}

impl View for TableFiles {
    type V = TableEntry;

    open spec fn view(&self) -> TableEntry {
        TableEntry { key: (self.db_id, self.table_id), files: self.files@ }
    }
}

/// What a list of [`TableFiles`] holds.
pub open spec fn entries(tables: Seq<TableFiles>) -> Seq<TableEntry> {
    Seq::new(tables.len(), |i: int| tables[i]@)
}

/// `list` with `file` added to the files of table `key`: behind those the list
/// already has for the table, or as a new entry at the end.
pub open spec fn with_file(
    list: Seq<TableEntry>,
    key: (DbId, TableId),
    file: ParquetFile,
) -> Seq<TableEntry>
    decreases list.len(),
{
    if list.len() == 0 {
        seq![TableEntry { key, files: seq![file] }]
    } else if list[0].key == key {
        seq![TableEntry { key, files: list[0].files.push(file) }] + list.skip(1)
    } else {
        seq![list[0]] + with_file(list.skip(1), key, file)
    }
}

/// [`with_file`] for each of `files` in turn.
pub open spec fn with_files(
    list: Seq<TableEntry>,
    key: (DbId, TableId),
    files: Seq<ParquetFile>,
) -> Seq<TableEntry>
    decreases files.len(),
{
    if files.len() == 0 {
        list
    } else {
        with_file(with_files(list, key, files.drop_last()), key, files.last())
    }
}

/// The first entry for `key` is at `i`.
spec fn first_entry(list: Seq<TableEntry>, key: (DbId, TableId), i: int) -> bool {
    0 <= i < list.len() && list[i].key == key && forall|j: int| 0 <= j < i ==> list[j].key != key
}

proof fn with_file_at(
    list: Seq<TableEntry>,
    key: (DbId, TableId),
    file: ParquetFile,
    i: int,
)
    requires
        first_entry(list, key, i),
    ensures
        with_file(list, key, file) == list.update(
            i,
            TableEntry { key, files: list[i].files.push(file) },
        ),
    decreases list.len(),
{
    let rest = list.skip(1);
    if i == 0 {
        assert(with_file(list, key, file) =~= list.update(
            0,
            TableEntry { key, files: list[0].files.push(file) },
        ));
    } else {
        assert forall|j: int| 0 <= j < i - 1 implies rest[j].key != key by {
            assert(rest[j] == list[j + 1]);
        }
        with_file_at(rest, key, file, i - 1);
        assert(with_file(list, key, file) =~= list.update(
            i,
            TableEntry { key, files: list[i].files.push(file) },
        ));
    }
}

proof fn with_file_absent(list: Seq<TableEntry>, key: (DbId, TableId), file: ParquetFile)
    requires
        forall|j: int| 0 <= j < list.len() ==> (#[trigger] list[j]).key != key,
    ensures
        with_file(list, key, file) == list.push(TableEntry { key, files: seq![file] }),
    decreases list.len(),
{
    if list.len() > 0 {
        let rest = list.skip(1);
        assert forall|j: int| 0 <= j < rest.len() implies (#[trigger] rest[j]).key != key by {
            assert(rest[j] == list[j + 1]);
        }
        assert(list[0].key != key);
        with_file_absent(rest, key, file);
    }
    assert(with_file(list, key, file) =~= list.push(TableEntry { key, files: seq![file] }));
}

/// Adds `file` to the files that `tables` lists for the table.
pub fn push_table_file(
    tables: &mut Vec<TableFiles>,
    db_id: DbId,
    table_id: TableId,
    file: ParquetFile,
)
    ensures
        entries(final(tables)@) == with_file(entries(old(tables)@), (db_id, table_id), file),
{
    let ghost list = entries(tables@);
    let ghost key = (db_id, table_id);
    let mut i: usize = 0;
    while i < tables.len()
        invariant
            i <= tables.len(),
            tables@ == old(tables)@,
            list == entries(tables@),
            key == (db_id, table_id),
            forall|j: int| 0 <= j < i ==> (#[trigger] list[j]).key != key,
        decreases tables.len() - i,
    {
        if tables[i].db_id == db_id && tables[i].table_id == table_id {
            proof {
                assert(list[i as int].key == key);
                with_file_at(list, key, file, i as int);
            }
            tables[i].files.push(file);
            proof {
                assert(entries(tables@) =~= list.update(
                    i as int,
                    TableEntry { key, files: list[i as int].files.push(file) },
                ));
            }
            return;
        }
        proof {
            assert(list[i as int].key != key);
        }
        i += 1;
    }
    proof {
        with_file_absent(list, key, file);
    }
    let mut files: Vec<ParquetFile> = Vec::new();
    files.push(file);
    tables.push(TableFiles { db_id, table_id, files });
    proof {
        assert(files@ =~= seq![file]);
        assert(entries(tables@) =~= list.push(TableEntry { key, files: seq![file] }));
    }
}

/// An equal list of table entries.
pub fn copy_tables(tables: &Vec<TableFiles>) -> (r: Vec<TableFiles>)
    ensures
        entries(r@) == entries(tables@),
{
    let mut out: Vec<TableFiles> = Vec::new();
    let mut i: usize = 0;
    while i < tables.len()
        invariant
            i <= tables.len(),
            entries(out@) == entries(tables@).take(i as int),
        decreases tables.len() - i,
    {
        let t = &tables[i];
        let ghost before = entries(out@);
        out.push(
            TableFiles { db_id: t.db_id, table_id: t.table_id, files: copy_files(&t.files) },
        );
        proof {
            assert(entries(out@) =~= before.push(out@.last()@));
            assert(entries(tables@).take(i + 1) =~= entries(tables@).take(i as int).push(
                tables@[i as int]@,
            ));
        }
        i += 1;
    }
    proof {
        assert(entries(tables@).take(i as int) =~= entries(tables@));
    }
    out
}

/// A manifest: the files that one write-ahead-log snapshot or one compaction
/// adds, and those that it removes.
#[derive(Debug, PartialEq, Eq)]
pub struct PersistedSnapshot {
    pub node_id: String,
    pub snapshot_sequence_number: u64,
    pub wal_file_sequence_number: u64,
    pub catalog_sequence_number: u64,
    pub databases: Vec<TableFiles>,
    pub removed_files: Vec<TableFiles>,
}

/// What a [`PersistedSnapshot`] holds.
pub struct Manifest {
    pub node_id: Seq<char>,
    pub snapshot_sequence_number: u64,
    pub wal_file_sequence_number: u64,
    pub catalog_sequence_number: u64,
    pub added: Seq<TableEntry>,
    pub removed: Seq<TableEntry>,
}

impl View for PersistedSnapshot {
    type V = Manifest;

    open spec fn view(&self) -> Manifest {
        Manifest {
            node_id: self.node_id@,
            snapshot_sequence_number: self.snapshot_sequence_number,
            wal_file_sequence_number: self.wal_file_sequence_number,
            catalog_sequence_number: self.catalog_sequence_number,
            added: entries(self.databases@),
            removed: entries(self.removed_files@),
        }
    }
}

/// A manifest that lists nothing.
pub open spec fn empty_manifest(
    node_id: Seq<char>,
    snapshot_sequence_number: u64,
    wal_file_sequence_number: u64,
    catalog_sequence_number: u64,
) -> Manifest {
    Manifest {
        node_id,
        snapshot_sequence_number,
        wal_file_sequence_number,
        catalog_sequence_number,
        added: Seq::empty(),
        removed: Seq::empty(),
    }
}

impl PersistedSnapshot {
    /// A manifest that lists nothing.
    pub fn new(
        node_id: String,
        snapshot_sequence_number: u64,
        wal_file_sequence_number: u64,
        catalog_sequence_number: u64,
    ) -> (r: PersistedSnapshot)
        ensures
            r@ == empty_manifest(
                node_id@,
                snapshot_sequence_number,
                wal_file_sequence_number,
                catalog_sequence_number,
            ),
    {
        let r = PersistedSnapshot {
            node_id,
            snapshot_sequence_number,
            wal_file_sequence_number,
            catalog_sequence_number,
            databases: Vec::new(),
            removed_files: Vec::new(),
        };
        proof {
            assert(entries(r.databases@) =~= Seq::empty());
            assert(entries(r.removed_files@) =~= Seq::empty());
        }
        r
    }

    /// Lists `file` among the files that the manifest adds to a table.
    pub fn add_parquet_file(&mut self, db_id: DbId, table_id: TableId, file: ParquetFile)
        ensures
            final(self)@ == (Manifest {
                added: with_file(old(self)@.added, (db_id, table_id), file),
                ..old(self)@
            }),
    {
        push_table_file(&mut self.databases, db_id, table_id, file);
    }

    /// An equal manifest.
    pub fn duplicate(&self) -> (r: PersistedSnapshot)
        ensures
            r@ == self@,
    {
        PersistedSnapshot {
            node_id: self.node_id.clone(),
            snapshot_sequence_number: self.snapshot_sequence_number,
            wal_file_sequence_number: self.wal_file_sequence_number,
            catalog_sequence_number: self.catalog_sequence_number,
            databases: copy_tables(&self.databases),
            removed_files: copy_tables(&self.removed_files),
        }
    }
}

/// What a list of manifests holds.
pub open spec fn manifests(snapshots: Seq<PersistedSnapshot>) -> Seq<Manifest> {
    Seq::new(snapshots.len(), |i: int| snapshots[i]@)
}

/// The merged content of one month of manifests.
#[derive(Debug, PartialEq, Eq)]
pub struct PersistedSnapshotCheckpoint {
    /// The month, as a number that grows with time.
    pub year_month: u64,
    pub databases: Vec<TableFiles>,
    /// Removals of files that an earlier month lists.
    pub pending_removed_files: Vec<TableFiles>,
    pub parquet_size_bytes: u64,
    pub row_count: u64,
}

/// The time range that a query asks for, both ends included. A missing bound
/// leaves that side open.
#[derive(Debug, Clone, Copy, PartialEq, Eq)]
pub struct ChunkFilter {
    pub time_lower_bound_ns: Option<i64>,
    pub time_upper_bound_ns: Option<i64>,
}

impl Default for ChunkFilter {
    fn default() -> (r: ChunkFilter)
        ensures
            r.time_lower_bound_ns is None,
            r.time_upper_bound_ns is None,
    {
        ChunkFilter { time_lower_bound_ns: None, time_upper_bound_ns: None }
    }
}

impl ChunkFilter {
    /// The range from `min_time` to `max_time` meets the range of the query.
    pub open spec fn admits(self, min_time: i64, max_time: i64) -> bool {
        &&& self.time_lower_bound_ns is Some ==> self.time_lower_bound_ns->0 <= max_time
        &&& self.time_upper_bound_ns is Some ==> min_time <= self.time_upper_bound_ns->0
    }

    /// Whether data between `min_time` and `max_time` can matter to the query.
    pub fn test_time_stamp_min_max(&self, min_time_ns: i64, max_time_ns: i64) -> (r: bool)
        ensures
            r == self.admits(min_time_ns, max_time_ns),
    {
        let above: bool = match self.time_lower_bound_ns {
            Some(lower) => lower <= max_time_ns,
            None => true,
        };
        let below: bool = match self.time_upper_bound_ns {
            Some(upper) => min_time_ns <= upper,
            None => true,
        };
        above && below
    }
}

impl ChunkFilter {
    /// The query asks for this time.
    pub open spec fn asks_for(self, x: int) -> bool {
        &&& match self.time_lower_bound_ns {
            Some(lower) => lower <= x,
            None => true,
        }
        &&& match self.time_upper_bound_ns {
            Some(upper) => x <= upper,
            None => true,
        }
    }
}

/// A query sees whatever holds a time that it asks for: data is passed over only where none of
/// its times is asked for, and always then, as long as the query asks for any time at all.
pub proof fn no_row_is_lost_to_the_filter(filter: ChunkFilter, min_time: i64, max_time: i64)
    ensures
        forall|x: int|
            min_time <= x <= max_time && #[trigger] filter.asks_for(x) ==> filter.admits(
                min_time,
                max_time,
            ),
        min_time <= max_time && (exists|y: int| #[trigger] filter.asks_for(y)) && (forall|x: int|
            min_time <= x <= max_time ==> !#[trigger] filter.asks_for(x)) ==> !filter.admits(
            min_time,
            max_time,
        ),
{
    if min_time <= max_time && (exists|y: int| #[trigger] filter.asks_for(y)) && filter.admits(
        min_time,
        max_time,
    ) {
        let y = choose|y: int| #[trigger] filter.asks_for(y);
        let x = if y < min_time {
            min_time as int
        } else if y > max_time {
            max_time as int
        } else {
            y
        };
        assert(filter.asks_for(x));
    }
}

} // verus!
