//! What a querier sees of a table: its own chunks, and those of the log tails.
//!
//! Of two rows with the same key the one from the chunk with the higher order is kept.
//! Persisted files are ordered by generation and sequence number, rows from log tails
//! are above all of them, and a writer's own rows in memory are on top.

use vstd::prelude::*;

verus! {

/// The chunk order of rows from the tail of a write-ahead log: above everything
/// persisted, below the writer's own memory.
pub const CHUNK_ORDER_WAL_TAIL: i64 = 9_223_372_036_854_775_805;

/// The chunks of a table that a querier sees: those of its local buffer, and behind them
/// those of the log tails, where it keeps any.
pub fn get_table_chunks<C>(local: Vec<C>, tail: Option<Vec<C>>) -> (r: Vec<C>)
    ensures
        r@ == match tail {
            Some(t) => local@ + t@,
            None => local@,
        },
{
    let mut chunks = local;
    if let Some(t) = tail {
        let mut more = t;
        chunks.append(&mut more);
    }
    chunks
}

/// Rows from a log tail are newer than anything persisted.
pub proof fn tail_is_above_persisted(path: Seq<char>)
    ensures
        crate::chunk::chunk_order_of(path) < CHUNK_ORDER_WAL_TAIL < i64::MAX,
{
    crate::chunk::persisted_is_below_memory(path);
}

} // verus!
