//! The store's schema: the tables, the seeded asset types, and the
//! statements that write rows.
use vstd::prelude::*;
use crate::asset::{AssetType, all_types, code_of, display_name};

verus! {

/// Creates the table mapping a type's code to its name.
pub const ASSET_TYPE_TABLE: &'static str = "CREATE TABLE IF NOT EXISTS asset_type (
            id INTEGER PRIMARY KEY,
            name TEXT NOT NULL
        )";

/// Creates the table of asset metadata.
pub const ASSET_TABLE: &'static str = "CREATE TABLE IF NOT EXISTS asset (
            id INTEGER PRIMARY KEY,
            name TEXT NOT NULL,
            path TEXT,
            type INTEGER,
            parent_directory INTEGER,
            FOREIGN KEY(type) REFERENCES asset_type(id),
            FOREIGN KEY(parent_directory) REFERENCES directory(id)
        )";

/// Creates the table of directories.
pub const DIRECTORY_TABLE: &'static str = "CREATE TABLE IF NOT EXISTS directory (
            id INTEGER PRIMARY KEY,
            name TEXT NOT NULL,
            parent INTEGER
        )";

/// Stores an asset row: its id, name, path, type code and parent directory.
pub const ASSET_INSERT: &'static str = "INSERT INTO asset (id, name, path, type, parent_directory) VALUES (?1, ?2, ?3, ?4, ?5)";

/// Stores a directory row: its id, name and parent.
pub const DIRECTORY_INSERT: &'static str = "INSERT INTO directory (id, name, parent) VALUES (?1, ?2, ?3)";

/// Stores one asset type, its code and name, unless the code is stored already.
pub const ASSET_TYPE_SEED: &'static str = "INSERT OR IGNORE INTO asset_type (id, name) VALUES (?1, ?2)";

/// One step of setting up a store.
#[derive(Clone, Debug)]
pub enum SchemaStep {
    /// Run this statement, which creates a table unless it exists.
    CreateTable(&'static str),
    /// Store the asset type with this code and name, unless the code is stored.
    SeedAssetType { code: u32, name: String },
}

/// Step `s` stores type `t`, under its code and its name.
pub open spec fn seeds_variant(s: SchemaStep, t: AssetType) -> bool {
    s matches SchemaStep::SeedAssetType { code, name } && code == code_of(t) && name@
        == display_name(t)
}

/// The steps that set up a store: the three tables, then one seed row per
/// asset type, in declaration order. Tables are created only where absent
/// and a type only where its code is absent, so setting up twice is harmless.
pub fn schema_plan() -> (r: Vec<SchemaStep>)
    ensures
        r@.len() == 3 + all_types().len(),
        r@[0] == SchemaStep::CreateTable(ASSET_TYPE_TABLE),
        r@[1] == SchemaStep::CreateTable(ASSET_TABLE),
        r@[2] == SchemaStep::CreateTable(DIRECTORY_TABLE),
        forall|i: int| 0 <= i < all_types().len() ==> seeds_variant(#[trigger] r@[3 + i], all_types()[i]),
{
    let mut r: Vec<SchemaStep> = Vec::new();
    r.push(SchemaStep::CreateTable(ASSET_TYPE_TABLE));
    r.push(SchemaStep::CreateTable(ASSET_TABLE));
    r.push(SchemaStep::CreateTable(DIRECTORY_TABLE));
    let types = AssetType::all();
    let mut i: usize = 0;
    while i < types.len()
        invariant
            types@ == all_types(),
            i <= types@.len(),
            r@.len() == 3 + i,
            r@[0] == SchemaStep::CreateTable(ASSET_TYPE_TABLE),
            r@[1] == SchemaStep::CreateTable(ASSET_TABLE),
            r@[2] == SchemaStep::CreateTable(DIRECTORY_TABLE),
            forall|j: int| 0 <= j < i ==> seeds_variant(#[trigger] r@[3 + j], all_types()[j]),
        decreases types@.len() - i,
    {
        let t = types[i];
        let step = SchemaStep::SeedAssetType { code: t.code(), name: t.name() };
        r.push(step);
        assert(r@[3 + i as int] == step);
        i += 1;
    }
    r
}

} // verus!
