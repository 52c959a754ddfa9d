//! Scans over the chunks of a table.
//!
//! A scan reads the chunks, removes duplicates, filters, and projects, in that order.
//! This module decides what each of these steps works on.

use vstd::prelude::*;

use crate::text::texts;

verus! {

/// The column that chunks carry their order in. It never reaches the user.
pub const CHUNK_ORDER_COLUMN_NAME: &'static str = "__chunk_order";

/// The schema of a table: the names of its columns, and those of them that make up its
/// primary key, in order.
#[derive(Debug)]
pub struct TableSchema {
    pub columns: Vec<String>,
    pub primary_key: Vec<String>,
}

fn copy_names(list: &Vec<String>) -> (r: Vec<String>)
    ensures
        r@ == list@,
{
    let mut out: Vec<String> = Vec::new();
    let mut i: usize = 0;
    while i < list.len()
        invariant
            i <= list.len(),
            out@ == list@.take(i as int),
        decreases list.len() - i,
    {
        out.push(list[i].clone());
        i += 1;
        proof {
            assert(out@ =~= list@.take(i as int));
        }
    }
    proof {
        assert(list@.take(i as int) =~= list@);
    }
    out
}

fn has_name(list: &Vec<String>, name: &String) -> (r: bool)
    ensures
        r == texts(list@).contains(name@),
{
    let mut i: usize = 0;
    while i < list.len()
        invariant
            i <= list.len(),
            forall|j: int| 0 <= j < i ==> (#[trigger] texts(list@)[j]) != name@,
        decreases list.len() - i,
    {
        if list[i] == *name {
            proof {
                assert(texts(list@)[i as int] == name@);
            }
            return true;
        }
        proof {
            assert(texts(list@)[i as int] != name@);
        }
        i += 1;
    }
    false
}

/// How far a filter that is pushed down to a scan is applied by it.
#[derive(Debug, Clone, Copy, PartialEq, Eq, Structural)]
pub enum FilterPushDown {
    /// It is applied in full.
    Exact,
    /// Part of it may have to be applied again.
    Inexact,
}

/// Why a scan cannot be planned.
#[derive(Debug, Clone, Copy, PartialEq, Eq, Structural)]
pub enum ScanError {
    /// There is no key to remove duplicates by.
    EmptySortKey,
}

/// The steps of a scan, on top of reading the chunks.
#[derive(Debug, PartialEq, Eq)]
pub struct ScanPlan {
    /// The columns by which duplicates are removed, if they are.
    pub deduplicate_by: Option<Vec<String>>,
    /// The positions of the conjuncts to filter by, if there are any.
    pub filter: Option<Vec<usize>>,
    /// The columns to project to: their positions in the schema, and their names.
    pub projection: Vec<(usize, String)>,
}

/// Every column that the conjunct refers to is part of the key.
pub open spec fn is_on_key(columns: Seq<String>, primary_key: Seq<String>) -> bool {
    forall|i: int|
        0 <= i < columns.len() ==> texts(primary_key).contains((#[trigger] columns[i])@)
}

/// The positions of the conjuncts that a scan filters by, in order. On duplicates all
/// but conditions on the key would be wrong: they could drop the row that counts.
pub open spec fn usable_conjuncts(
    conjuncts: Seq<Vec<String>>,
    primary_key: Seq<String>,
    deduplicated: bool,
) -> Seq<usize>
    decreases conjuncts.len(),
{
    if conjuncts.len() == 0 {
        Seq::empty()
    } else {
        let before = usable_conjuncts(conjuncts.drop_last(), primary_key, deduplicated);
        if deduplicated || is_on_key(conjuncts.last()@, primary_key) {
            before.push((conjuncts.len() - 1) as usize)
        } else {
            before
        }
    }
}

/// Builds a [`ChunkTableProvider`].
#[derive(Debug)]
pub struct ProviderBuilder<C> {
    table_name: String,
    schema: TableSchema,
    chunks: Vec<C>,
    deduplication: bool,
}

impl<C> ProviderBuilder<C> {
    /// The name of the table.
    pub closed spec fn name(self) -> Seq<char> {
        self.table_name@
    }

    /// The schema of the table.
    pub closed spec fn schema_of(self) -> TableSchema {
        self.schema
    }

    /// The chunks added so far.
    pub closed spec fn chunks_of(self) -> Seq<C> {
        self.chunks@
    }

    /// Duplicates are removed.
    pub closed spec fn dedups(self) -> bool {
        self.deduplication
    }

    /// A builder without chunks. Duplicates are removed unless that is turned off.
    pub fn new(table_name: String, schema: TableSchema) -> (r: ProviderBuilder<C>)
        requires
            !texts(schema.columns@).contains(CHUNK_ORDER_COLUMN_NAME@),
        ensures
            r.name() == table_name@,
            r.schema_of() == schema,
            r.chunks_of() == Seq::<C>::empty(),
            r.dedups(),
    {
        ProviderBuilder { table_name, schema, chunks: Vec::new(), deduplication: true }
    }

    /// Turns the removal of duplicates on or off.
    pub fn with_enable_deduplication(self, enable_deduplication: bool) -> (r: ProviderBuilder<C>)
        ensures
            r.name() == self.name(),
            r.schema_of() == self.schema_of(),
            r.chunks_of() == self.chunks_of(),
            r.dedups() == enable_deduplication,
    {
        ProviderBuilder {
            table_name: self.table_name,
            schema: self.schema,
            chunks: self.chunks,
            deduplication: enable_deduplication,
        }
    }

    /// Adds a chunk.
    pub fn add_chunk(self, chunk: C) -> (r: ProviderBuilder<C>)
        ensures
            r.name() == self.name(),
            r.schema_of() == self.schema_of(),
            r.chunks_of() == self.chunks_of().push(chunk),
            r.dedups() == self.dedups(),
    {
        let mut chunks = self.chunks;
        chunks.push(chunk);
        ProviderBuilder {
            table_name: self.table_name,
            schema: self.schema,
            chunks,
            deduplication: self.deduplication,
        }
    }

    /// The provider. There is nothing that can fail.
    pub fn build(self) -> (r: Result<ChunkTableProvider<C>, ScanError>)
        ensures
            r is Ok,
            r->Ok_0.name() == self.name(),
            r->Ok_0.schema_of() == self.schema_of(),
            r->Ok_0.chunks_of() == self.chunks_of(),
            r->Ok_0.dedups() == self.dedups(),
    {
        Ok(
            ChunkTableProvider {
                table_name: self.table_name,
                schema: self.schema,
                chunks: self.chunks,
                deduplication: self.deduplication,
            },
        )
    }
}

/// A table made of chunks.
#[derive(Debug)]
pub struct ChunkTableProvider<C> {
    table_name: String,
    schema: TableSchema,
    chunks: Vec<C>,
    deduplication: bool,
}

impl<C> ChunkTableProvider<C> {
    /// The name of the table.
    pub closed spec fn name(self) -> Seq<char> {
        self.table_name@
    }

    /// The schema of the table.
    pub closed spec fn schema_of(self) -> TableSchema {
        self.schema
    }

    /// The chunks of the table.
    pub closed spec fn chunks_of(self) -> Seq<C> {
        self.chunks@
    }

    /// Duplicates are removed.
    pub closed spec fn dedups(self) -> bool {
        self.deduplication
    }

    /// The schema of the table.
    pub fn iox_schema(&self) -> (r: &TableSchema)
        ensures
            *r == self.schema_of(),
    {
        &self.schema
    }

    /// The chunks of the table.
    pub fn chunks(&self) -> (r: &Vec<C>)
        ensures
            r@ == self.chunks_of(),
    {
        &self.chunks
    }

    /// The name of the table.
    pub fn table_name(&self) -> (r: &str)
        ensures
            r@ == self.name(),
    {
        self.table_name.as_str()
    }

    /// Whether duplicates are removed.
    pub fn deduplication(&self) -> (r: bool)
        ensures
            r == self.dedups(),
    {
        self.deduplication
    }

    fn on_key(&self, columns: &Vec<String>) -> (r: bool)
        ensures
            r == is_on_key(columns@, self.schema_of().primary_key@),
    {
        let mut i: usize = 0;
        while i < columns.len()
            invariant
                i <= columns.len(),
                forall|j: int|
                    0 <= j < i ==> texts(self.schema.primary_key@).contains(
                        (#[trigger] columns@[j])@,
                    ),
            decreases columns.len() - i,
        {
            if !has_name(&self.schema.primary_key, &columns[i]) {
                return false;
            }
            i += 1;
        }
        true
    }

    /// Plans a scan: `projection` lists the positions of the columns that are asked for,
    /// all of them if it is missing, and `conjuncts` the columns that each part of the
    /// filter refers to.
    ///
    /// Duplicates are removed by the primary key, before anything is filtered. A scan
    /// always projects, which takes the chunk order away.
    pub fn scan(&self, projection: Option<&Vec<usize>>, conjuncts: &Vec<Vec<String>>) -> (r: Result<
        ScanPlan,
        ScanError,
    >)
        requires
            projection is Some ==> forall|i: int|
                0 <= i < projection->0.len() ==> (#[trigger] projection->0@[i] as int)
                    < self.schema_of().columns.len(),
        ensures
            ({
                let schema = self.schema_of();
                let usable = usable_conjuncts(conjuncts@, schema.primary_key@, self.dedups());
                match r {
                    Err(ScanError::EmptySortKey) => self.dedups() && schema.primary_key.len() == 0,
                    Ok(plan) => {
                        &&& !(self.dedups() && schema.primary_key.len() == 0)
                        &&& match plan.deduplicate_by {
                            Some(key) => self.dedups() && key@ == schema.primary_key@,
                            None => !self.dedups(),
                        }
                        &&& match plan.filter {
                            Some(positions) => usable.len() > 0 && positions@ == usable,
                            None => usable.len() == 0,
                        }
                        &&& plan.projection.len() == match projection {
                            Some(p) => p.len(),
                            None => schema.columns.len(),
                        }
                        &&& forall|i: int|
                            0 <= i < plan.projection.len() ==> (#[trigger] plan.projection@[i]).0
                                == (match projection {
                                Some(p) => p@[i] as int,
                                None => i,
                            }) && plan.projection@[i].1
                                == schema.columns@[plan.projection@[i].0 as int]
                    },
                }
            }),
    {
        if self.deduplication && self.schema.primary_key.len() == 0 {
            return Err(ScanError::EmptySortKey);
        }
        let deduplicate_by: Option<Vec<String>> = if self.deduplication {
            Some(copy_names(&self.schema.primary_key))
        } else {
            None
        };
        let mut usable: Vec<usize> = Vec::new();
        let mut i: usize = 0;
        proof {
            assert(conjuncts@.take(0) =~= Seq::empty());
        }
        while i < conjuncts.len()
            invariant
                i <= conjuncts.len(),
                usable@ == usable_conjuncts(
                    conjuncts@.take(i as int),
                    self.schema_of().primary_key@,
                    self.dedups(),
                ),
            decreases conjuncts.len() - i,
        {
            proof {
                assert(conjuncts@.take(i + 1).drop_last() =~= conjuncts@.take(i as int));
                assert(conjuncts@.take(i + 1).last() == conjuncts@[i as int]);
            }
            if self.deduplication || self.on_key(&conjuncts[i]) {
                usable.push(i);
            }
            i += 1;
        }
        proof {
            assert(conjuncts@.take(i as int) =~= conjuncts@);
        }
        let filter: Option<Vec<usize>> = if usable.len() > 0 {
            Some(usable)
        } else {
            None
        };
        let n: usize = match projection {
            Some(p) => p.len(),
            None => self.schema.columns.len(),
        };
        let mut columns: Vec<(usize, String)> = Vec::new();
        let mut k: usize = 0;
        while k < n
            invariant
                k <= n,
                n == match projection {
                    Some(p) => p.len(),
                    None => self.schema_of().columns.len(),
                },
                projection is Some ==> forall|i: int|
                    0 <= i < projection->0.len() ==> (#[trigger] projection->0@[i] as int)
                        < self.schema_of().columns.len(),
                columns.len() == k,
                forall|i: int|
                    0 <= i < k ==> (#[trigger] columns@[i]).0 == (match projection {
                        Some(p) => p@[i] as int,
                        None => i,
                    }) && columns@[i].1 == self.schema_of().columns@[columns@[i].0 as int],
            decreases n - k,
        {
            let at: usize = match projection {
                Some(p) => p[k],
                None => k,
            };
            columns.push((at, self.schema.columns[at].clone()));
            k += 1;
        }
        Ok(ScanPlan { deduplicate_by, filter, projection: columns })
    }

    /// How far filters are applied by a scan: in full once duplicates are removed, else
    /// only in part.
    pub fn supports_filters_pushdown(&self, filters: usize) -> (r: Vec<FilterPushDown>)
        ensures
            r.len() == filters,
            forall|i: int|
                0 <= i < r.len() ==> (#[trigger] r@[i]) == if self.dedups() {
                    FilterPushDown::Exact
                } else {
                    FilterPushDown::Inexact
                },
    {
        let support: FilterPushDown = if self.deduplication {
            FilterPushDown::Exact
        } else {
            FilterPushDown::Inexact
        };
        let mut out: Vec<FilterPushDown> = Vec::new();
        while out.len() < filters
            invariant
                out.len() <= filters,
                forall|i: int| 0 <= i < out.len() ==> (#[trigger] out@[i]) == support,
            decreases filters - out.len(),
        {
            out.push(support);
        }
        out
    }
}

proof fn usable_are_positions(
    conjuncts: Seq<Vec<String>>,
    primary_key: Seq<String>,
    deduplicated: bool,
)
    requires
        conjuncts.len() <= usize::MAX,
    ensures
        forall|n: int| #![trigger usable_conjuncts(conjuncts, primary_key, deduplicated)[n]]
            0 <= n < usable_conjuncts(conjuncts, primary_key, deduplicated).len() ==> {
                let at = usable_conjuncts(conjuncts, primary_key, deduplicated)[n] as int;
                &&& 0 <= at < conjuncts.len()
                &&& deduplicated || is_on_key(conjuncts[at]@, primary_key)
            },
    decreases conjuncts.len(),
{
    if conjuncts.len() > 0 {
        let rest = conjuncts.drop_last();
        usable_are_positions(rest, primary_key, deduplicated);
        let before = usable_conjuncts(rest, primary_key, deduplicated);
        let all = usable_conjuncts(conjuncts, primary_key, deduplicated);
        assert forall|n: int| #![trigger all[n]] 0 <= n < all.len() implies {
            let at = all[n] as int;
            &&& 0 <= at < conjuncts.len()
            &&& deduplicated || is_on_key(conjuncts[at]@, primary_key)
        } by {
            if n < before.len() {
                assert(all[n] == before[n]);
                assert(rest[before[n] as int] == conjuncts[before[n] as int]);
            }
        }
    }
}

/// As long as duplicates are in the data, a scan filters by conditions on the key alone.
pub proof fn duplicates_are_filtered_by_key(conjuncts: Seq<Vec<String>>, primary_key: Seq<String>)
    requires
        conjuncts.len() <= usize::MAX,
    ensures
        forall|n: int| #![trigger usable_conjuncts(conjuncts, primary_key, false)[n]]
            0 <= n < usable_conjuncts(conjuncts, primary_key, false).len() ==> is_on_key(
                conjuncts[usable_conjuncts(conjuncts, primary_key, false)[n] as int]@,
                primary_key,
            ),
{
    usable_are_positions(conjuncts, primary_key, false);
}

} // verus!
