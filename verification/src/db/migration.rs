//! The version of the tables, and what brings them up to it.

use vstd::prelude::*;

verus! {

/// The version that the tables are brought up to.
pub const SCHEMA_VERSION: u32 = 1;

/// What brings the tables up to date.
#[derive(Debug, Clone, Copy, PartialEq, Eq)]
pub struct Migration {
    /// Whether the tables of the first version are made.
    pub create: bool,
    /// The version to record, where it is not the one recorded.
    pub record: Option<u32>,
}

/// The version of tables that record one; version 0 where none is recorded.
pub open spec fn version_of(recorded: Option<u32>) -> u32 {
    match recorded {
        Some(version) => version,
        None => 0,
    }
}

/// The version of tables that record one; version 0 where none is recorded.
pub fn get_version(recorded: Option<u32>) -> (version: u32)
    ensures
        version == version_of(recorded),
{
    match recorded {
        Some(version) => version,
        None => 0,
    }
}

/// What brings tables up to date.
pub open spec fn migration_of(recorded: Option<u32>) -> Migration {
    Migration {
        create: version_of(recorded) < 1,
        record: if version_of(recorded) != SCHEMA_VERSION {
            Some(SCHEMA_VERSION)
        } else {
            None
        },
    }
}

/// What brings tables up to date: those before the first version are made, and the
/// version is recorded where it is another.
pub fn migrate(recorded: Option<u32>) -> (migration: Migration)
    ensures
        migration == migration_of(recorded),
{
    let version = get_version(recorded);
    Migration {
        create: version < 1,
        record: if version != SCHEMA_VERSION {
            Some(SCHEMA_VERSION)
        } else {
            None
        },
    }
}

/// What is recorded after a migration.
pub open spec fn recorded_after(recorded: Option<u32>) -> Option<u32> {
    match migration_of(recorded).record {
        Some(version) => Some(version),
        None => recorded,
    }
}

/// A second migration has nothing to do.
pub proof fn law_migration_is_idempotent(recorded: Option<u32>)
    ensures
        migration_of(recorded_after(recorded)) == (Migration { create: false, record: None }),
{
}

/// Tables are made exactly where no version was recorded, or version 0; and the current version
/// is recorded where another one is.
pub proof fn law_tables_are_made_once(recorded: Option<u32>)
    ensures
        recorded matches Some(version) ==> version_of(recorded) == version,
        recorded is None ==> version_of(recorded) == 0,
        migration_of(recorded).create == (recorded is None || recorded == Some(0u32)),
        recorded == Some(SCHEMA_VERSION) ==> migration_of(recorded).record is None,
        recorded != Some(SCHEMA_VERSION) ==> migration_of(recorded).record == Some(SCHEMA_VERSION),
{
}

} // verus!
