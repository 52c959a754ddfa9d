//! Migration of a node's own catalog to the shared one.
//!
//! Every object under `<node_id>/catalogs/` is copied to `_catalog/catalogs/`, unless it
//! is there already, so that a migration can be run again.

use vstd::prelude::*;
use vstd::string::*;

use crate::leases::StoreFailure;
use crate::object_path::{
    object_path, plain_path_join, plain_segment, plain_segment_path, plain_word, stored_path,
};
use crate::text::{last_segment, path_tail};

verus! {

/// Where the shared catalog is.
pub const SHARED_CATALOG_PREFIX: &'static str = "_catalog";

/// Why a migration ends.
#[derive(Debug, PartialEq, Eq)]
pub enum MigrateError {
    /// There is nothing to migrate.
    NoObjects { source_dir: String },
    /// An object has no name.
    NoFilename,
    /// An object could not be copied.
    Copy(StoreFailure),
}

/// Where a node's own catalog is.
pub fn source_dir(from_node_id: &str) -> (r: String)
    ensures
        r@ == stored_path(from_node_id@ + "/catalogs"@),
        plain_segment(from_node_id@) ==> r@ == from_node_id@ + "/catalogs"@,
{
    let mut raw = from_node_id.to_owned();
    raw.append("/catalogs");
    proof {
        if plain_segment(from_node_id@) {
            reveal_strlit("catalogs");
            reveal_strlit("/catalogs");
            plain_segment_path(from_node_id@);
            plain_word("catalogs"@, 0);
            plain_path_join(from_node_id@, "catalogs"@);
            assert(raw@ =~= from_node_id@ + seq!['/'] + "catalogs"@);
        }
    }
    object_path(raw.as_str())
}

/// Fails where there is nothing to migrate, so that no migration is claimed.
pub fn check_source(from_node_id: &str, objects: usize) -> (r: Result<(), MigrateError>)
    ensures
        objects > 0 ==> r == Ok::<(), MigrateError>(()),
        objects == 0 ==> r is Err && r->Err_0 is NoObjects && r->Err_0->source_dir@ == stored_path(
            from_node_id@ + "/catalogs"@,
        ),
{
    if objects == 0 {
        return Err(MigrateError::NoObjects { source_dir: source_dir(from_node_id) });
    }
    Ok(())
}

/// The path of the copy, as text.
pub open spec fn dest_text(location: Seq<char>) -> Seq<char> {
    "_catalog/catalogs/"@ + last_segment(location)
}

/// Where the object at the location goes.
pub open spec fn dest_of(location: Seq<char>) -> Seq<char> {
    stored_path(dest_text(location))
}

/// Where an object is copied to: the same name in the shared catalog.
pub fn dest_path(location: &str) -> (r: Result<String, MigrateError>)
    ensures
        match r {
            Ok(dest) => {
                &&& location@.len() > 0
                &&& dest@ == dest_of(location@)
                &&& plain_segment(last_segment(location@)) ==> dest@ == dest_text(location@)
            },
            Err(e) => location@.len() == 0 && e == MigrateError::NoFilename,
        },
{
    if location.unicode_len() == 0 {
        return Err(MigrateError::NoFilename);
    }
    let mut raw = "_catalog/catalogs/".to_owned();
    let name = path_tail(location);
    raw.append(name.as_str());
    proof {
        if plain_segment(name@) {
            reveal_strlit("_catalog");
            reveal_strlit("catalogs");
            reveal_strlit("_catalog/catalogs/");
            plain_word("_catalog"@, 0);
            plain_segment_path("_catalog"@);
            plain_word("catalogs"@, 0);
            plain_path_join("_catalog"@, "catalogs"@);
            plain_path_join("_catalog"@ + seq!['/'] + "catalogs"@, name@);
            assert(raw@ =~= "_catalog"@ + seq!['/'] + "catalogs"@ + seq!['/'] + name@);
        }
    }
    Ok(object_path(raw.as_str()))
}

/// How many objects were copied, and how many were there already.
#[derive(Debug, Clone, Copy, PartialEq, Eq, Structural)]
pub struct MigrationTally {
    pub copied: u64,
    pub skipped_existing: u64,
}

/// What to do about an object.
#[derive(Debug, PartialEq, Eq)]
pub enum CopyStep {
    /// Say where it would go.
    Report { dest: String },
    /// Copy it there, if nothing is there.
    Copy { dest: String },
}

/// Where the object at the location is copied to: nowhere on a dry run.
pub open spec fn copy_dest(location: Seq<char>, dry_run: bool) -> Option<Seq<char>> {
    if dry_run {
        None
    } else {
        Some(dest_of(location))
    }
}

/// What to do about an object: copy it, or, on a dry run, only say where it would go.
pub fn copy_step(location: &str, dry_run: bool) -> (r: Result<CopyStep, MigrateError>)
    ensures
        match r {
            Ok(CopyStep::Report { dest }) => location@.len() > 0 && copy_dest(
                location@,
                dry_run,
            ) is None && dest@ == dest_of(location@),
            Ok(CopyStep::Copy { dest }) => location@.len() > 0 && copy_dest(location@, dry_run)
                == Some(dest@),
            Err(e) => location@.len() == 0 && e == MigrateError::NoFilename,
        },
{
    match dest_path(location) {
        Ok(dest) => if dry_run {
            Ok(CopyStep::Report { dest })
        } else {
            Ok(CopyStep::Copy { dest })
        },
        Err(e) => Err(e),
    }
}

/// The tally once the store has replied to a copy. An object that is there already is
/// skipped; any other failure ends the migration.
pub open spec fn tally_after(tally: MigrationTally, reply: Result<(), StoreFailure>) -> Result<
    MigrationTally,
    MigrateError,
> {
    match reply {
        Ok(_) => Ok(MigrationTally { copied: (tally.copied + 1) as u64, ..tally }),
        Err(StoreFailure::AlreadyExists) => Ok(
            MigrationTally { skipped_existing: (tally.skipped_existing + 1) as u64, ..tally },
        ),
        Err(e) => Err(MigrateError::Copy(e)),
    }
}

/// The tally once the store has replied to a copy.
pub fn after_copy(tally: MigrationTally, reply: Result<(), StoreFailure>) -> (r: Result<
    MigrationTally,
    MigrateError,
>)
    requires
        tally.copied < u64::MAX,
        tally.skipped_existing < u64::MAX,
    ensures
        r == tally_after(tally, reply),
{
    match reply {
        Ok(_) => Ok(
            MigrationTally {
                copied: tally.copied + 1,
                skipped_existing: tally.skipped_existing,
            },
        ),
        Err(e) => match e {
            StoreFailure::AlreadyExists => Ok(
                MigrationTally {
                    copied: tally.copied,
                    skipped_existing: tally.skipped_existing + 1,
                },
            ),
            e => Err(MigrateError::Copy(e)),
        },
    }
}

/// The objects of a store, and what a migration has counted.
pub struct Migration {
    pub store: Map<Seq<char>, Seq<u8>>,
    pub tally: MigrationTally,
}

/// What a store replies to a copy: it does not write where there is something already.
pub open spec fn copy_reply(store: Map<Seq<char>, Seq<u8>>, dest: Seq<char>) -> Result<
    (),
    StoreFailure,
> {
    if store.contains_key(dest) {
        Err(StoreFailure::AlreadyExists)
    } else {
        Ok(())
    }
}

/// A migration once the objects at these locations have been copied, in order, or on a dry run
/// only looked at.
pub open spec fn migrated(m: Migration, locations: Seq<Seq<char>>, dry_run: bool) -> Migration
    decreases locations.len(),
{
    if locations.len() == 0 {
        m
    } else {
        let before = migrated(m, locations.drop_last(), dry_run);
        let from = locations.last();
        match copy_dest(from, dry_run) {
            Some(dest) => {
                let reply = copy_reply(before.store, dest);
                Migration {
                    store: if reply is Ok {
                        before.store.insert(dest, before.store[from])
                    } else {
                        before.store
                    },
                    tally: tally_after(before.tally, reply)->Ok_0,
                }
            },
            None => before,
        }
    }
}

/// Nothing copied, nothing skipped.
pub open spec fn no_copies() -> MigrationTally {
    MigrationTally { copied: 0, skipped_existing: 0 }
}

/// One of the objects goes there.
pub open spec fn is_dest(locations: Seq<Seq<char>>, k: Seq<char>) -> bool {
    exists|i: int| 0 <= i < locations.len() && dest_of(#[trigger] locations[i]) == k
}

proof fn dest_of_last(locations: Seq<Seq<char>>, k: Seq<char>)
    requires
        locations.len() > 0,
    ensures
        is_dest(locations, k) == (is_dest(locations.drop_last(), k) || dest_of(locations.last())
            == k),
{
    let rest = locations.drop_last();
    if is_dest(rest, k) {
        let i = choose|i: int| 0 <= i < rest.len() && dest_of(#[trigger] rest[i]) == k;
        assert(locations[i] == rest[i]);
    }
    if is_dest(locations, k) {
        let i = choose|i: int| 0 <= i < locations.len() && dest_of(#[trigger] locations[i]) == k;
        if i < rest.len() {
            assert(rest[i] == locations[i]);
        }
    }
    assert(locations[locations.len() - 1] == locations.last());
}

/// What is in a store after the copies: what was there, unchanged, and the destinations.
proof fn copies_go_to_destinations(m: Migration, locations: Seq<Seq<char>>)
    ensures
        forall|k: Seq<char>| #[trigger]
            migrated(m, locations, false).store.contains_key(k) == (m.store.contains_key(k)
                || is_dest(locations, k)),
        forall|k: Seq<char>|
            m.store.contains_key(k) ==> #[trigger] migrated(m, locations, false).store[k]
                == m.store[k],
    decreases locations.len(),
{
    if locations.len() > 0 {
        let rest = locations.drop_last();
        copies_go_to_destinations(m, rest);
        let after = migrated(m, locations, false).store;
        assert forall|k: Seq<char>| #[trigger] after.contains_key(k) == (m.store.contains_key(k)
            || is_dest(locations, k)) by {
            dest_of_last(locations, k);
            assert(migrated(m, rest, false).store.contains_key(k) == (m.store.contains_key(k)
                || is_dest(rest, k)));
        }
        assert forall|k: Seq<char>| m.store.contains_key(k) implies #[trigger] after[k]
            == m.store[k] by {
            let before = migrated(m, rest, false).store;
            assert(before.contains_key(k));
            assert(before[k] == m.store[k]);
        }
    }
}

/// A copy holds what its source holds.
proof fn copies_hold_their_sources(m: Migration, locations: Seq<Seq<char>>, i: int)
    requires
        0 <= i < locations.len(),
        m.store.contains_key(locations[i]),
        !m.store.contains_key(dest_of(locations[i])),
        forall|j: int|
            0 <= j < i ==> dest_of(#[trigger] locations[j]) != dest_of(locations[i]),
    ensures
        migrated(m, locations, false).store[dest_of(locations[i])] == m.store[locations[i]],
    decreases locations.len(),
{
    let rest = locations.drop_last();
    let dest = dest_of(locations[i]);
    copies_go_to_destinations(m, rest);
    let before = migrated(m, rest, false).store;
    if i < rest.len() {
        assert(rest[i] == locations[i]);
        assert forall|j: int| 0 <= j < i implies dest_of(#[trigger] rest[j]) != dest_of(
            rest[i],
        ) by {
            assert(rest[j] == locations[j]);
        }
        copies_hold_their_sources(m, rest, i);
        assert(is_dest(rest, dest));
        assert(before.contains_key(dest));
    } else {
        assert(!is_dest(rest, dest)) by {
            if is_dest(rest, dest) {
                let j = choose|j: int| 0 <= j < rest.len() && dest_of(#[trigger] rest[j]) == dest;
                assert(rest[j] == locations[j]);
            }
        }
        assert(!before.contains_key(dest));
        assert(before.contains_key(locations[i]));
        assert(before[locations[i]] == m.store[locations[i]]);
    }
}

/// On a dry run nothing is written, and nothing counted.
proof fn dry_run_changes_nothing(m: Migration, locations: Seq<Seq<char>>)
    ensures
        migrated(m, locations, true) == m,
    decreases locations.len(),
{
    if locations.len() > 0 {
        dry_run_changes_nothing(m, locations.drop_last());
    }
}

/// A migration leaves what is in the store alone, and puts at each destination that is free
/// what the first object that goes there holds; nothing else is written. A dry run, and one of
/// nothing, writes nothing.
pub proof fn migration_copies_objects(
    store: Map<Seq<char>, Seq<u8>>,
    locations: Seq<Seq<char>>,
    dry_run: bool,
)
    requires
        forall|i: int| 0 <= i < locations.len() ==> store.contains_key(#[trigger] locations[i]),
    ensures
        ({
            let after = migrated(Migration { store, tally: no_copies() }, locations, dry_run).store;
            &&& dry_run || locations.len() == 0 ==> after == store
            &&& forall|k: Seq<char>| #[trigger]
                after.contains_key(k) == (store.contains_key(k) || (!dry_run && is_dest(
                    locations,
                    k,
                )))
            &&& forall|k: Seq<char>| store.contains_key(k) ==> #[trigger] after[k] == store[k]
            &&& !dry_run ==> forall|i: int|
                #![trigger locations[i]]
                0 <= i < locations.len() && !store.contains_key(dest_of(locations[i])) && (forall|
                    j: int,
                |
                    0 <= j < i ==> dest_of(#[trigger] locations[j]) != dest_of(locations[i]))
                    ==> after[dest_of(locations[i])] == store[locations[i]]
        }),
{
    let start = Migration { store, tally: no_copies() };
    if dry_run {
        dry_run_changes_nothing(start, locations);
    } else {
        let after = migrated(start, locations, false).store;
        copies_go_to_destinations(start, locations);
        assert forall|i: int|
            #![trigger locations[i]]
            0 <= i < locations.len() && !store.contains_key(dest_of(locations[i])) && (forall|
                j: int,
            |
                0 <= j < i ==> dest_of(#[trigger] locations[j]) != dest_of(
                    locations[i],
                )) implies after[dest_of(locations[i])] == store[locations[i]] by {
            copies_hold_their_sources(start, locations, i);
        }
    }
}

/// Where every destination is taken, nothing is copied, and every object is skipped.
proof fn copies_to_taken_change_nothing(m: Migration, locations: Seq<Seq<char>>)
    requires
        forall|i: int|
            0 <= i < locations.len() ==> m.store.contains_key(dest_of(#[trigger] locations[i])),
        m.tally.skipped_existing + locations.len() <= u64::MAX,
    ensures
        migrated(m, locations, false).store == m.store,
        migrated(m, locations, false).tally == (MigrationTally {
            skipped_existing: (m.tally.skipped_existing + locations.len()) as u64,
            ..m.tally
        }),
    decreases locations.len(),
{
    if locations.len() > 0 {
        let rest = locations.drop_last();
        assert forall|i: int| 0 <= i < rest.len() implies m.store.contains_key(
            dest_of(#[trigger] rest[i]),
        ) by {
            assert(rest[i] == locations[i]);
        }
        copies_to_taken_change_nothing(m, rest);
        assert(m.store.contains_key(dest_of(locations[locations.len() - 1])));
    }
}

/// Running a migration again changes nothing, copies nothing and skips every object.
pub proof fn migration_is_idempotent(store: Map<Seq<char>, Seq<u8>>, locations: Seq<Seq<char>>)
    requires
        locations.len() <= u64::MAX,
    ensures
        ({
            let once = migrated(Migration { store, tally: no_copies() }, locations, false);
            let twice = migrated(Migration { tally: no_copies(), ..once }, locations, false);
            &&& twice.store == once.store
            &&& twice.tally == (MigrationTally {
                copied: 0,
                skipped_existing: locations.len() as u64,
            })
        }),
{
    let start = Migration { store, tally: no_copies() };
    let once = migrated(start, locations, false);
    copies_go_to_destinations(start, locations);
    let again = Migration { tally: no_copies(), ..once };
    assert forall|i: int| 0 <= i < locations.len() implies again.store.contains_key(
        dest_of(#[trigger] locations[i]),
    ) by {
        assert(is_dest(locations, dest_of(locations[i])));
        assert(once.store.contains_key(dest_of(locations[i])));
    }
    copies_to_taken_change_nothing(again, locations);
    assert(migrated(again, locations, false).tally == (MigrationTally {
        copied: 0,
        skipped_existing: locations.len() as u64,
    }));
}

} // verus!
