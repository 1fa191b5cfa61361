//! The statements of one namespace, and what is decided about a row that
//! was read with them.

use crate::interner::StringInterner;
use crate::kvs::schema::{ValueSchema, ValueSchemaView};
use crate::text::{copy_bytes, push_decimal};
use vstd::prelude::*;

verus! {

/// The statement that writes a value, replacing what the key had.
pub open spec fn store_sql(table_name: Seq<char>) -> Seq<char> {
    "REPLACE INTO "@ + table_name
        + " (key, value, value_schema_id, value_schema_ver) VALUES (?, ?, ?, ?)"@
}

/// The statement that deletes the value of a key.
pub open spec fn delete_sql(table_name: Seq<char>) -> Seq<char> {
    "DELETE FROM "@ + table_name + " WHERE key = ?;"@
}

/// The statement that reads the value of a key.
pub open spec fn load_sql(table_name: Seq<char>) -> Seq<char> {
    "SELECT value, value_schema_id, value_schema_ver FROM "@ + table_name + " WHERE key = ?;"@
}

/// The row of a key: the serialized value, and the schema identity under
/// which it was written.
pub struct StoredCell {
    pub value: Vec<u8>,
    pub value_schema_id: u32,
    pub value_schema_ver: u32,
}

/// The row of a key as plain values.
pub struct CellView {
    pub value: Seq<u8>,
    pub value_schema_id: u32,
    pub value_schema_ver: u32,
}

impl View for StoredCell {
    type V = CellView;

    open spec fn view(&self) -> CellView {
        CellView {
            value: self.value@,
            value_schema_id: self.value_schema_id,
            value_schema_ver: self.value_schema_ver,
        }
    }
}

/// A row that may be missing, as plain values.
pub open spec fn cell_view(row: Option<StoredCell>) -> Option<CellView> {
    match row {
        Some(cell) => Some(cell@),
        None => None,
    }
}

/// Writing a value: the statement and its four parameters.
pub struct StoreCommand {
    pub sql: String,
    pub key: Vec<u8>,
    pub value: Vec<u8>,
    pub value_schema_id: u32,
    pub value_schema_ver: u32,
}

/// Deleting the value of a key: the statement and its parameter.
pub struct DeleteCommand {
    pub sql: String,
    pub key: Vec<u8>,
}

/// Reading the value of a key: the statement and its parameter.
pub struct LoadCommand {
    pub sql: String,
    pub key: Vec<u8>,
}

/// What a read came to, as plain values.
pub enum LoadedView {
    Absent,
    Current(Seq<u8>),
    Migrate { from_name: Seq<char>, from_version: u32, bytes: Seq<u8> },
}

/// What a read came to.
pub enum LoadedValue {
    /// The key has no value.
    Absent,
    /// The serialized value, written under the current schema.
    Current(Vec<u8>),
    /// A value written under an older schema that the value type can
    /// bring up to date: the old identity and the old bytes.
    Migrate { from_name: String, from_version: u32, bytes: Vec<u8> },
}

impl View for LoadedValue {
    type V = LoadedView;

    open spec fn view(&self) -> LoadedView {
        match self {
            LoadedValue::Absent => LoadedView::Absent,
            LoadedValue::Current(bytes) => LoadedView::Current(bytes@),
            LoadedValue::Migrate { from_name, from_version, bytes } => LoadedView::Migrate {
                from_name: from_name@,
                from_version: *from_version,
                bytes: bytes@,
            },
        }
    }
}

/// Why a read failed, as plain values.
pub enum KvsErrorView {
    UnknownSchemaId { schema_id: u32 },
    Unmigratable { old_name: Seq<char>, old_schema_id: u32, old_version: u32 },
}

/// Why a read failed.
pub enum KvsError {
    /// The row names a schema id that was never interned.
    UnknownSchemaId { schema_id: u32 },
    /// The row was written under a schema that the value type cannot
    /// bring up to date, in a store that must not lose values.
    Unmigratable { old_name: String, old_schema_id: u32, old_version: u32 },
}

impl View for KvsError {
    type V = KvsErrorView;

    open spec fn view(&self) -> KvsErrorView {
        match self {
            KvsError::UnknownSchemaId { schema_id } => KvsErrorView::UnknownSchemaId {
                schema_id: *schema_id,
            },
            KvsError::Unmigratable { old_name, old_schema_id, old_version } => KvsErrorView::Unmigratable {
                old_name: old_name@,
                old_schema_id: *old_schema_id,
                old_version: *old_version,
            },
        }
    }
}

/// What is decided about the row that a read found. No row: the key has
/// no value. A row under the current schema: its bytes are the value. A row
/// under a schema that the value type migrates from: the value type has to
/// bring it up to date. Any other row is an error where migration is
/// mandatory, and counts as no value where it is not.
pub open spec fn load_decision(
    row: Option<CellView>,
    names: Seq<Seq<char>>,
    schema: ValueSchemaView,
    is_migration_mandatory: bool,
) -> Result<LoadedView, KvsErrorView> {
    match row {
        None => Ok(LoadedView::Absent),
        Some(cell) => {
            if cell.value_schema_id >= names.len() {
                Err(KvsErrorView::UnknownSchemaId { schema_id: cell.value_schema_id })
            } else {
                let name = names[cell.value_schema_id as int];
                if name == schema.id && cell.value_schema_ver == schema.schema_version {
                    Ok(LoadedView::Current(cell.value))
                } else if schema.migrates_from.contains((name, cell.value_schema_ver)) {
                    Ok(
                        LoadedView::Migrate {
                            from_name: name,
                            from_version: cell.value_schema_ver,
                            bytes: cell.value,
                        },
                    )
                } else if !is_migration_mandatory {
                    Ok(LoadedView::Absent)
                } else {
                    Err(
                        KvsErrorView::Unmigratable {
                            old_name: name,
                            old_schema_id: cell.value_schema_id,
                            old_version: cell.value_schema_ver,
                        },
                    )
                }
            }
        },
    }
}

/// What `load_value` returns, as plain values.
pub open spec fn loaded_view(r: Result<LoadedValue, KvsError>) -> Result<LoadedView, KvsErrorView> {
    match r {
        Ok(v) => Ok(v@),
        Err(e) => Err(e@),
    }
}

/// The text of the error for a value that cannot be brought up to date.
pub open spec fn unmigratable_message(
    old_name: Seq<char>,
    old_schema_id: u32,
    new_name: Seq<char>,
    new_version: u32,
) -> Seq<char> {
    "Could not migrate value to current schema version! (old: "@ + old_name + " v"@
        + crate::text::decimal_digits(old_schema_id as nat) + ", new: "@ + new_name + " v"@
        + crate::text::decimal_digits(new_version as nat) + ")"@
}

/// The text of the error for a schema id that was never interned.
pub open spec fn unknown_schema_message(schema_id: u32) -> Seq<char> {
    "Unknown interned schema id: "@ + crate::text::decimal_digits(schema_id as nat)
}

impl KvsError {
    /// The error as a text, for a store whose values have the given
    /// schema.
    pub fn message(&self, schema: &ValueSchema) -> (r: String)
        ensures
            r@ == match self@ {
                KvsErrorView::UnknownSchemaId { schema_id } => unknown_schema_message(schema_id),
                KvsErrorView::Unmigratable { old_name, old_schema_id, old_version } => unmigratable_message(
                    old_name,
                    old_schema_id,
                    schema@.id,
                    schema@.schema_version,
                ),
            },
    {
        match self {
            KvsError::UnknownSchemaId { schema_id } => {
                let mut text = "Unknown interned schema id: ".to_owned();
                push_decimal(&mut text, *schema_id);
                text
            },
            KvsError::Unmigratable { old_name, old_schema_id, old_version } => {
                let mut text = "Could not migrate value to current schema version! (old: ".to_owned();
                text.append(old_name.as_str());
                text.append(" v");
                push_decimal(&mut text, *old_schema_id);
                text.append(", new: ");
                text.append(schema.id.as_str());
                text.append(" v");
                push_decimal(&mut text, schema.schema_version);
                text.append(")");
                text
            },
        }
    }
}

/// The statements of one namespace.
pub struct KvsStoreQueries {
    pub store_query: String,
    pub delete_query: String,
    pub load_query: String,
}

impl KvsStoreQueries {
    /// The statements for the table of the given name; the name carries
    /// the prefix of its area.
    pub fn new(table_name: &str) -> (r: Self)
        ensures
            r.store_query@ == store_sql(table_name@),
            r.delete_query@ == delete_sql(table_name@),
            r.load_query@ == load_sql(table_name@),
    {
        let mut store_query = "REPLACE INTO ".to_owned();
        store_query.append(table_name);
        store_query.append(" (key, value, value_schema_id, value_schema_ver) VALUES (?, ?, ?, ?)");
        let mut delete_query = "DELETE FROM ".to_owned();
        delete_query.append(table_name);
        delete_query.append(" WHERE key = ?;");
        let mut load_query = "SELECT value, value_schema_id, value_schema_ver FROM ".to_owned();
        load_query.append(table_name);
        load_query.append(" WHERE key = ?;");
        KvsStoreQueries { store_query, delete_query, load_query }
    }

    /// The command that writes `value` for `key`, with the schema identity
    /// under which the value was serialized.
    pub fn store_value(&self, key: &[u8], value: &[u8], value_schema_id: u32, value_schema_ver: u32) -> (r:
        StoreCommand)
        ensures
            r.sql@ == self.store_query@,
            r.key@ == key@,
            r.value@ == value@,
            r.value_schema_id == value_schema_id,
            r.value_schema_ver == value_schema_ver,
    {
        StoreCommand {
            sql: self.store_query.clone(),
            key: copy_bytes(key),
            value: copy_bytes(value),
            value_schema_id,
            value_schema_ver,
        }
    }

    /// The command that deletes the value of `key`.
    pub fn delete_value(&self, key: &[u8]) -> (r: DeleteCommand)
        ensures
            r.sql@ == self.delete_query@,
            r.key@ == key@,
    {
        DeleteCommand { sql: self.delete_query.clone(), key: copy_bytes(key) }
    }

    /// The command that reads the value of `key`.
    pub fn load_command(&self, key: &[u8]) -> (r: LoadCommand)
        ensures
            r.sql@ == self.load_query@,
            r.key@ == key@,
    {
        LoadCommand { sql: self.load_query.clone(), key: copy_bytes(key) }
    }

    /// Decides about the row that a read found.
    pub fn load_value(
        row: Option<StoredCell>,
        interner: &StringInterner,
        schema: &ValueSchema,
        is_migration_mandatory: bool,
    ) -> (r: Result<LoadedValue, KvsError>)
        ensures
            loaded_view(r) == load_decision(cell_view(row), interner@, schema@, is_migration_mandatory),
    {
        match row {
            None => Ok(LoadedValue::Absent),
            Some(cell) => {
                if !interner.contains_id(cell.value_schema_id) {
                    return Err(KvsError::UnknownSchemaId { schema_id: cell.value_schema_id });
                }
                let schema_name = interner.lookup_id(cell.value_schema_id).to_owned();
                if schema.id == schema_name && schema.schema_version == cell.value_schema_ver {
                    Ok(LoadedValue::Current(cell.value))
                } else if schema.can_migrate_from(schema_name.as_str(), cell.value_schema_ver) {
                    Ok(
                        LoadedValue::Migrate {
                            from_name: schema_name,
                            from_version: cell.value_schema_ver,
                            bytes: cell.value,
                        },
                    )
                } else if !is_migration_mandatory {
                    Ok(LoadedValue::Absent)
                } else {
                    Err(
                        KvsError::Unmigratable {
                            old_name: schema_name,
                            old_schema_id: cell.value_schema_id,
                            old_version: cell.value_schema_ver,
                        },
                    )
                }
            },
        }
    }
}

} // verus!
