use std::collections::HashMap;
use sylphie::interner::StringInterner;
use sylphie::kvs::init::{init_kvs, KvsDeclaration, KvsInitPlan};
use sylphie::kvs::queries::{
    DeleteCommand, KvsError, KvsStoreQueries, LoadedValue, StoreCommand, StoredCell,
};
use sylphie::kvs::schema::{SchemaId, ValueSchema};
use sylphie::kvs::store::{BaseKvsStore, GetStep};
use sylphie::kvs::{KvsType, PersistentKvsType, TransientKvsType};

struct Table {
    rows: HashMap<Vec<u8>, (Vec<u8>, u32, u32)>,
    reads: usize,
}

impl Table {
    fn new() -> Table {
        Table { rows: HashMap::new(), reads: 0 }
    }

    fn store(&mut self, command: &StoreCommand) {
        self.rows.insert(
            command.key.clone(),
            (command.value.clone(), command.value_schema_id, command.value_schema_ver),
        );
    }

    fn delete(&mut self, command: &DeleteCommand) {
        self.rows.remove(&command.key);
    }

    fn load(&mut self, key: &[u8]) -> Option<StoredCell> {
        self.reads += 1;
        self.rows.get(key).map(|r| StoredCell {
            value: r.0.clone(),
            value_schema_id: r.1,
            value_schema_ver: r.2,
        })
    }
}

fn key_schema() -> SchemaId {
    SchemaId { name: "uid".to_string(), version: 1 }
}

fn profile(version: u32, migrates_from: Vec<u32>) -> ValueSchema {
    ValueSchema {
        id: "profile".to_string(),
        schema_version: version,
        migrates_from: migrates_from
            .into_iter()
            .map(|v| SchemaId { name: "profile".to_string(), version: v })
            .collect(),
    }
}

fn started<T: KvsType>(
    schema: ValueSchema,
    capacity: usize,
    interner: &mut StringInterner,
) -> BaseKvsStore<T> {
    let is_transient = sylphie::kvs::is_transient::<T>();
    let mut store: BaseKvsStore<T> =
        BaseKvsStore::with_capacity("profiles".to_string(), key_schema(), schema, capacity);
    assert!(!store.initialized());
    assert!(store.init_interner(interner).is_ok());
    let declarations = vec![KvsDeclaration {
        module_name: "profiles".to_string(),
        key_id: "uid".to_string(),
        key_version: 1,
        is_transient,
    }];
    let plan: KvsInitPlan = match init_kvs(&vec![], &vec![], &declarations, interner) {
        Ok(plan) => plan,
        Err(e) => panic!("startup pass failed: {:?}", e),
    };
    assert!(plan.late.metadata().get("profiles", is_transient).is_some());
    store.init_kvs_late(interner, &plan.late);
    assert!(store.initialized());
    store
}

fn get<T: KvsType>(
    store: &mut BaseKvsStore<T>,
    table: &mut Table,
    interner: &StringInterner,
    key: &[u8],
) -> Result<Option<Vec<u8>>, KvsError> {
    match store.get(key) {
        GetStep::Hit(value) => Ok(value),
        GetStep::Load(command) => {
            assert_eq!(command.key, key);
            let row = table.load(&command.key);
            match store.loaded(interner, command, row)? {
                LoadedValue::Absent => Ok(None),
                LoadedValue::Current(bytes) => Ok(Some(bytes)),
                LoadedValue::Migrate { from_name, from_version, bytes } => {
                    assert_eq!(from_name, "profile");
                    let mut migrated = bytes;
                    migrated.push(from_version as u8);
                    store.migrated(key, migrated.clone());
                    Ok(Some(migrated))
                }
            }
        }
    }
}

fn set<T: KvsType>(store: &mut BaseKvsStore<T>, table: &mut Table, key: &[u8], value: &[u8]) {
    let command = store.set(key, value);
    table.store(&command);
    store.stored(command);
}

fn remove<T: KvsType>(store: &mut BaseKvsStore<T>, table: &mut Table, key: &[u8]) {
    let command = store.remove(key);
    table.delete(&command);
    store.removed(command);
}

#[test]
fn get_after_set_returns_the_value() {
    let mut interner = StringInterner::new();
    let mut store: BaseKvsStore<PersistentKvsType> = started(profile(1, vec![]), 1024, &mut interner);
    let mut table = Table::new();
    set(&mut store, &mut table, b"alice", b"profile of alice");
    assert_eq!(get(&mut store, &mut table, &interner, b"alice").ok(), Some(Some(b"profile of alice".to_vec())));
    assert_eq!(table.reads, 0);
}

#[test]
fn get_after_set_survives_eviction() {
    let mut interner = StringInterner::new();
    let mut store: BaseKvsStore<PersistentKvsType> = started(profile(1, vec![]), 2, &mut interner);
    let mut table = Table::new();
    set(&mut store, &mut table, b"alice", b"a");
    set(&mut store, &mut table, b"bob", b"b");
    set(&mut store, &mut table, b"carol", b"c");
    remove(&mut store, &mut table, b"bob");
    assert_eq!(get(&mut store, &mut table, &interner, b"alice").ok(), Some(Some(b"a".to_vec())));
    assert_eq!(table.reads, 1);
    assert_eq!(get(&mut store, &mut table, &interner, b"alice").ok(), Some(Some(b"a".to_vec())));
    assert_eq!(table.reads, 1);
}

#[test]
fn get_after_remove_returns_absence() {
    let mut interner = StringInterner::new();
    let mut store: BaseKvsStore<PersistentKvsType> = started(profile(1, vec![]), 1024, &mut interner);
    let mut table = Table::new();
    set(&mut store, &mut table, b"alice", b"a");
    remove(&mut store, &mut table, b"alice");
    assert_eq!(get(&mut store, &mut table, &interner, b"alice").ok(), Some(None));
    assert!(table.rows.is_empty());
    let mut cold: BaseKvsStore<PersistentKvsType> = started(profile(1, vec![]), 0, &mut interner);
    set(&mut cold, &mut table, b"alice", b"a");
    remove(&mut cold, &mut table, b"alice");
    assert_eq!(get(&mut cold, &mut table, &interner, b"alice").ok(), Some(None));
}

#[test]
fn a_key_never_written_has_no_value_and_is_read_once() {
    let mut interner = StringInterner::new();
    let mut store: BaseKvsStore<PersistentKvsType> = started(profile(1, vec![]), 1024, &mut interner);
    let mut table = Table::new();
    assert_eq!(get(&mut store, &mut table, &interner, b"nobody").ok(), Some(None));
    assert_eq!(get(&mut store, &mut table, &interner, b"nobody").ok(), Some(None));
    assert_eq!(table.reads, 1);
}

#[test]
fn two_writes_of_one_key_leave_row_and_cache_with_the_same_value() {
    let mut interner = StringInterner::new();
    for order in [[b"a", b"b"], [b"b", b"a"]] {
        let mut store: BaseKvsStore<PersistentKvsType> = started(profile(1, vec![]), 1024, &mut interner);
        let mut table = Table::new();
        set(&mut store, &mut table, b"k", order[0]);
        set(&mut store, &mut table, b"k", order[1]);
        let cached = get(&mut store, &mut table, &interner, b"k").ok().unwrap().unwrap();
        let row = table.rows.get(&b"k".to_vec()).unwrap().0.clone();
        assert_eq!(cached, row);
        assert_eq!(row, order[1].to_vec());
    }
}

#[test]
fn write_commands_carry_the_current_schema_identity() {
    let mut interner = StringInterner::new();
    let store: BaseKvsStore<TransientKvsType> = started(profile(3, vec![]), 8, &mut interner);
    let command = store.set(b"k", b"v");
    let table_name = ["transient.", &sylphie::kvs::names::table_name_candidate(0, "profiles")].concat();
    assert_eq!(
        command.sql,
        format!("REPLACE INTO {} (key, value, value_schema_id, value_schema_ver) VALUES (?, ?, ?, ?)", table_name)
    );
    assert_eq!(command.key, b"k");
    assert_eq!(command.value, b"v");
    assert_eq!(command.value_schema_id, interner.find("profile").unwrap());
    assert_eq!(command.value_schema_ver, 3);
    let command = store.remove(b"k");
    assert_eq!(command.sql, format!("DELETE FROM {} WHERE key = ?;", table_name));
    assert_eq!(command.key, b"k");
}

#[test]
fn read_command_names_the_table() {
    let mut interner = StringInterner::new();
    let mut store: BaseKvsStore<PersistentKvsType> = started(profile(1, vec![]), 8, &mut interner);
    let table_name = sylphie::kvs::names::table_name_candidate(0, "profiles");
    match store.get(b"k") {
        GetStep::Load(command) => {
            assert_eq!(
                command.sql,
                format!("SELECT value, value_schema_id, value_schema_ver FROM {} WHERE key = ?;", table_name)
            );
            assert_eq!(command.key, b"k");
        }
        GetStep::Hit(_) => panic!("nothing was cached"),
    }
}

#[test]
fn statements_of_a_table() {
    let queries = KvsStoreQueries::new("transient.t");
    assert_eq!(
        queries.store_query,
        "REPLACE INTO transient.t (key, value, value_schema_id, value_schema_ver) VALUES (?, ?, ?, ?)"
    );
    assert_eq!(queries.delete_query, "DELETE FROM transient.t WHERE key = ?;");
    assert_eq!(
        queries.load_query,
        "SELECT value, value_schema_id, value_schema_ver FROM transient.t WHERE key = ?;"
    );
    let command = queries.store_value(b"k", b"v", 4, 2);
    assert_eq!((command.value_schema_id, command.value_schema_ver), (4, 2));
    assert_eq!(queries.load_command(b"k").sql, queries.load_query);
    assert_eq!(queries.delete_value(b"k").key, b"k");
}

#[test]
fn an_older_value_is_migrated_and_cached_in_its_new_form() {
    let mut interner = StringInterner::new();
    let mut table = Table::new();
    let mut old: BaseKvsStore<PersistentKvsType> = started(profile(1, vec![]), 8, &mut interner);
    set(&mut old, &mut table, b"alice", b"old");
    let mut new: BaseKvsStore<PersistentKvsType> = started(profile(2, vec![1]), 8, &mut interner);
    let mut expected = b"old".to_vec();
    expected.push(1);
    assert_eq!(get(&mut new, &mut table, &interner, b"alice").ok(), Some(Some(expected.clone())));
    assert_eq!(table.reads, 1);
    assert_eq!(get(&mut new, &mut table, &interner, b"alice").ok(), Some(Some(expected)));
    assert_eq!(table.reads, 1);
}

#[test]
fn a_persistent_store_refuses_a_value_it_cannot_migrate() {
    let mut interner = StringInterner::new();
    let mut table = Table::new();
    let mut old: BaseKvsStore<PersistentKvsType> = started(profile(1, vec![]), 8, &mut interner);
    set(&mut old, &mut table, b"alice", b"old");
    let mut new: BaseKvsStore<PersistentKvsType> = started(profile(2, vec![]), 8, &mut interner);
    let id = interner.find("profile").unwrap();
    match get(&mut new, &mut table, &interner, b"alice") {
        Err(KvsError::Unmigratable { old_name, old_schema_id, old_version }) => {
            assert_eq!(old_name, "profile");
            assert_eq!(old_schema_id, id);
            assert_eq!(old_version, 1);
        }
        _ => panic!("the value must be refused"),
    }
    assert!(get(&mut new, &mut table, &interner, b"alice").is_err());
    assert_eq!(table.reads, 2);
}

#[test]
fn a_transient_store_takes_a_value_it_cannot_migrate_as_absent() {
    let mut interner = StringInterner::new();
    let mut table = Table::new();
    let mut old: BaseKvsStore<TransientKvsType> = started(profile(1, vec![]), 8, &mut interner);
    set(&mut old, &mut table, b"alice", b"old");
    let mut new: BaseKvsStore<TransientKvsType> = started(profile(2, vec![]), 8, &mut interner);
    assert_eq!(get(&mut new, &mut table, &interner, b"alice").ok(), Some(None));
    assert_eq!(get(&mut new, &mut table, &interner, b"alice").ok(), Some(None));
    assert_eq!(table.reads, 1);
}

#[test]
fn a_row_with_an_unknown_schema_id_is_an_error() {
    let interner = StringInterner::new();
    let row = StoredCell { value: b"v".to_vec(), value_schema_id: 9, value_schema_ver: 1 };
    match KvsStoreQueries::load_value(Some(row), &interner, &profile(1, vec![]), false) {
        Err(KvsError::UnknownSchemaId { schema_id }) => assert_eq!(schema_id, 9),
        _ => panic!("the row must be refused"),
    }
}

#[test]
fn decisions_about_a_row() {
    let mut interner = StringInterner::new();
    let other = interner.lookup_name("other").unwrap();
    let id = interner.lookup_name("profile").unwrap();
    let schema = profile(2, vec![1]);
    let cell = |schema_id: u32, version: u32| {
        Some(StoredCell { value: b"v".to_vec(), value_schema_id: schema_id, value_schema_ver: version })
    };
    assert!(matches!(
        KvsStoreQueries::load_value(None, &interner, &schema, true),
        Ok(LoadedValue::Absent)
    ));
    assert!(matches!(
        KvsStoreQueries::load_value(cell(id, 2), &interner, &schema, true),
        Ok(LoadedValue::Current(_))
    ));
    assert!(matches!(
        KvsStoreQueries::load_value(cell(id, 1), &interner, &schema, true),
        Ok(LoadedValue::Migrate { .. })
    ));
    assert!(matches!(
        KvsStoreQueries::load_value(cell(other, 2), &interner, &schema, true),
        Err(KvsError::Unmigratable { .. })
    ));
    assert!(matches!(
        KvsStoreQueries::load_value(cell(other, 2), &interner, &schema, false),
        Ok(LoadedValue::Absent)
    ));
    assert!(schema.can_migrate_from("profile", 1));
    assert!(!schema.can_migrate_from("profile", 2));
    assert!(!schema.can_migrate_from("other", 1));
}

#[test]
fn error_texts_of_a_store() {
    let schema = profile(2, vec![]);
    let error = KvsError::Unmigratable { old_name: "profile".to_string(), old_schema_id: 7, old_version: 1 };
    assert_eq!(
        error.message(&schema),
        "Could not migrate value to current schema version! (old: profile v7, new: profile v2)"
    );
    let error = KvsError::UnknownSchemaId { schema_id: 12 };
    assert_eq!(error.message(&schema), "Unknown interned schema id: 12");
}

#[test]
fn a_store_knows_its_module_and_schema() {
    let store: BaseKvsStore<PersistentKvsType> =
        BaseKvsStore::new("profiles".to_string(), key_schema(), profile(4, vec![]));
    assert_eq!(store.module_name(), "profiles");
    assert_eq!(store.value_schema().schema_version, 4);
    assert!(!sylphie::kvs::is_transient::<PersistentKvsType>());
    assert!(sylphie::kvs::is_transient::<TransientKvsType>());
}

#[test]
fn a_store_declares_its_namespace_in_its_own_area() {
    let mut interner = StringInterner::new();
    let persistent: BaseKvsStore<PersistentKvsType> =
        BaseKvsStore::new("a".to_string(), key_schema(), profile(1, vec![]));
    let transient: BaseKvsStore<TransientKvsType> =
        BaseKvsStore::new("b".to_string(), key_schema(), profile(1, vec![]));
    let mut event = sylphie::kvs::init::InitKvsEvent::new();
    let first = persistent.init_kvs(&mut interner, &mut event).ok().unwrap().unwrap();
    let second = transient.init_kvs(&mut interner, &mut event).ok().unwrap().unwrap();
    assert!(first.create_sql.starts_with("CREATE TABLE sylphie_db_kvsdata_"));
    assert!(second.create_sql.starts_with("CREATE TABLE transient.sylphie_db_kvsdata_"));
    assert!(event.metadata().get("a", false).is_some());
    assert!(event.metadata().get("b", true).is_some());
    assert!(event.metadata().get("a", true).is_none());
}
