use sylphie::interner::StringInterner;
use sylphie::kvs::init::{
    create_table_statement, delete_row_statement, drop_table_statement, init_kvs, insert_row_statement,
    load_rows_statement, InitError, InitKvsEvent, KvsDeclaration, KvsInitPlan,
};
use sylphie::kvs::metadata::{KvsMetadata, KvsTarget, MetadataMap, PersistedRow};
use sylphie::kvs::names::{name_seed_string, table_name_candidate, table_name_from_digest};

fn declaration(module: &str, key: &str, version: u32, is_transient: bool) -> KvsDeclaration {
    KvsDeclaration {
        module_name: module.to_string(),
        key_id: key.to_string(),
        key_version: version,
        is_transient,
    }
}

fn row(module: &str, table: &str, key_id: u32, key_version: u32) -> PersistedRow {
    PersistedRow {
        module_name: module.to_string(),
        table_name: table.to_string(),
        kvs_schema_version: 0,
        key_id,
        key_version,
    }
}

fn copy_row(r: &PersistedRow) -> PersistedRow {
    PersistedRow {
        module_name: r.module_name.clone(),
        table_name: r.table_name.clone(),
        kvs_schema_version: r.kvs_schema_version,
        key_id: r.key_id,
        key_version: r.key_version,
    }
}

fn expected_table_name(nonce: u32, module: &str) -> String {
    let hash = blake3::hash(format!("{}|{}", nonce, module).as_bytes()).to_hex();
    format!("sylphie_db_kvsdata_{}", &hash.as_str()[0..16])
}

fn plan(
    persistent: &Vec<PersistedRow>,
    transient: &Vec<PersistedRow>,
    declarations: &Vec<KvsDeclaration>,
    interner: &mut StringInterner,
) -> KvsInitPlan {
    match init_kvs(persistent, transient, declarations, interner) {
        Ok(plan) => plan,
        Err(e) => panic!("startup pass failed: {:?}", e),
    }
}

fn error(
    persistent: &Vec<PersistedRow>,
    transient: &Vec<PersistedRow>,
    declarations: &Vec<KvsDeclaration>,
    interner: &mut StringInterner,
) -> InitError {
    match init_kvs(persistent, transient, declarations, interner) {
        Ok(_) => panic!("startup pass went through"),
        Err(e) => e,
    }
}

#[test]
fn table_name_is_tag_and_sixteen_hex_digits_of_the_hash() {
    let name = table_name_candidate(0, "my_bot::modules::profile");
    assert_eq!(name, expected_table_name(0, "my_bot::modules::profile"));
    assert_eq!(name.len(), "sylphie_db_kvsdata_".len() + 16);
    assert_ne!(name, table_name_candidate(1, "my_bot::modules::profile"));
    assert_eq!(table_name_candidate(7, "a.b"), expected_table_name(7, "a.b"));
}

#[test]
fn table_name_of_a_known_digest() {
    let digest: [u8; 32] = [
        0xaf, 0x13, 0x49, 0xb9, 0xf5, 0xf9, 0xa1, 0xa6, 0xa0, 0x40, 0x4d, 0xea, 0x36, 0xdc, 0xc9, 0x49,
        0x9b, 0xcb, 0x25, 0xc9, 0xad, 0xc1, 0x12, 0xb7, 0xcc, 0x9a, 0x93, 0xca, 0xe4, 0x1f, 0x32, 0x62,
    ];
    assert_eq!(table_name_from_digest(&digest), "sylphie_db_kvsdata_af1349b9f5f9a1a6");
}

#[test]
fn hashed_text_is_counter_bar_module() {
    assert_eq!(name_seed_string(0, "core"), "0|core");
    assert_eq!(name_seed_string(12, "a|b"), "12|a|b");
}

#[test]
fn statements_are_exact() {
    assert_eq!(
        create_table_statement(false, "t1"),
        "CREATE TABLE t1 (key BLOB PRIMARY KEY, value BLOB NOT NULL, value_schema_id INTEGER NOT NULL, value_schema_ver INTEGER NOT NULL )"
    );
    assert_eq!(
        create_table_statement(true, "t1"),
        "CREATE TABLE transient.t1 (key BLOB PRIMARY KEY, value BLOB NOT NULL, value_schema_id INTEGER NOT NULL, value_schema_ver INTEGER NOT NULL )"
    );
    let columns = ["module", "_path, table_name, kvs_schema_version, key_id, key_version"].concat();
    assert_eq!(
        insert_row_statement(false),
        format!("INSERT INTO sylphie_db_kvs_info ({})VALUES (?, ?, ?, ?, ?)", columns)
    );
    assert_eq!(
        insert_row_statement(true),
        format!("INSERT INTO transient.sylphie_db_kvs_info ({})VALUES (?, ?, ?, ?, ?)", columns)
    );
    assert_eq!(load_rows_statement(false), format!("SELECT {} FROM sylphie_db_kvs_info", columns));
    assert_eq!(
        load_rows_statement(true),
        format!("SELECT {} FROM transient.sylphie_db_kvs_info", columns)
    );
    assert_eq!(drop_table_statement(true, "t9"), "DROP TABLE transient.t9");
    assert_eq!(
        delete_row_statement(true),
        "DELETE FROM transient.sylphie_db_kvs_info WHERE table_name = ?"
    );
}

#[test]
fn first_run_creates_the_table_second_run_claims_it() {
    let mut interner = StringInterner::new();
    let declarations = vec![declaration("profiles", "uid", 1, false)];
    let first = plan(&vec![], &vec![], &declarations, &mut interner);
    assert_eq!(first.created.len(), 1);
    assert_eq!(first.dropped.len(), 0);
    let created = &first.created[0];
    assert_eq!(created.row.module_name, "profiles");
    assert_eq!(created.row.table_name, expected_table_name(0, "profiles"));
    assert_eq!(created.row.kvs_schema_version, 0);
    assert_eq!(created.row.key_id, interner.find("uid").unwrap());
    assert_eq!(created.row.key_version, 1);
    assert_eq!(created.create_sql, create_table_statement(false, &created.row.table_name));
    assert_eq!(created.insert_sql, insert_row_statement(false));
    let metadata = first.late.metadata().get("profiles", false).unwrap();
    assert!(metadata.is_used);
    assert_eq!(metadata.table_name, created.row.table_name);

    let kept = vec![copy_row(&created.row)];
    let second = plan(&kept, &vec![], &declarations, &mut interner);
    assert_eq!(second.created.len(), 0);
    assert_eq!(second.dropped.len(), 0);
    assert_eq!(second.late.metadata().len(), 1);
    let metadata = second.late.metadata().get("profiles", false).unwrap();
    assert!(metadata.is_used);
    assert_eq!(metadata.table_name, created.row.table_name);
}

#[test]
fn an_abandoned_transient_namespace_is_dropped_a_persistent_one_stays() {
    let mut interner = StringInterner::new();
    interner.lookup_name("uid");
    let persistent = vec![row("old_persistent", "table_p", 0, 1)];
    let transient = vec![row("old_transient", "table_t", 0, 1), row("live", "table_l", 0, 1)];
    let declarations = vec![declaration("live", "uid", 1, true)];
    let done = plan(&persistent, &transient, &declarations, &mut interner);
    assert_eq!(done.created.len(), 0);
    assert_eq!(done.dropped.len(), 1);
    assert_eq!(done.dropped[0].table_name, "table_t");
    assert_eq!(done.dropped[0].drop_sql, "DROP TABLE transient.table_t");
    assert_eq!(
        done.dropped[0].delete_sql,
        "DELETE FROM transient.sylphie_db_kvs_info WHERE table_name = ?"
    );
    let map = done.late.metadata();
    assert_eq!(map.len(), 2);
    assert!(map.get("old_transient", true).is_none());
    let kept = map.get("old_persistent", false).unwrap();
    assert_eq!(kept.table_name, "table_p");
    assert!(!kept.is_used);
    assert!(map.get("live", true).unwrap().is_used);
}

#[test]
fn a_taken_name_makes_the_counter_move_on() {
    let mut interner = StringInterner::new();
    interner.lookup_name("uid");
    let taken = expected_table_name(0, "profiles");
    let persistent = vec![row("somebody_else", &taken, 0, 1)];
    let declarations = vec![declaration("profiles", "uid", 1, false)];
    let done = plan(&persistent, &vec![], &declarations, &mut interner);
    assert_eq!(done.created.len(), 1);
    assert_eq!(done.created[0].row.table_name, expected_table_name(1, "profiles"));
    assert_ne!(done.created[0].row.table_name, taken);
}

#[test]
fn names_taken_in_either_area_are_passed_over() {
    let mut interner = StringInterner::new();
    interner.lookup_name("uid");
    let transient = vec![
        row("a", &expected_table_name(0, "profiles"), 0, 1),
        row("b", &expected_table_name(1, "profiles"), 0, 1),
    ];
    let mut event = InitKvsEvent::new();
    assert!(event.load_kvs_metadata(&transient, true).is_ok());
    assert_eq!(event.create_table_name("profiles"), Some(expected_table_name(2, "profiles")));
    assert_eq!(event.create_table_name("other"), Some(expected_table_name(0, "other")));
}

#[test]
fn all_namespaces_end_with_different_tables() {
    let mut interner = StringInterner::new();
    let declarations = vec![
        declaration("a", "uid", 1, false),
        declaration("b", "uid", 1, false),
        declaration("c", "uid", 1, true),
        declaration("d", "name", 2, true),
    ];
    let done = plan(&vec![], &vec![], &declarations, &mut interner);
    assert_eq!(done.created.len(), 4);
    let map = done.late.metadata();
    for i in 0..map.len() {
        for j in 0..i {
            assert_ne!(map.metadata_at(i).table_name, map.metadata_at(j).table_name);
        }
    }
    assert_eq!(map.target_at(2).module_name, "c");
    assert!(map.target_at(2).is_transient);
    assert_eq!(done.created[3].row.key_id, interner.find("name").unwrap());
}

#[test]
fn one_module_name_one_namespace() {
    let mut interner = StringInterner::new();
    let twice = vec![declaration("profiles", "uid", 1, false), declaration("profiles", "uid", 1, true)];
    assert_eq!(error(&vec![], &vec![], &twice, &mut interner), InitError::DuplicateModule);
}

#[test]
fn key_schema_mismatch_is_refused() {
    let mut interner = StringInterner::new();
    interner.lookup_name("uid");
    interner.lookup_name("name");
    let persistent = vec![row("profiles", "table_p", 0, 1)];
    let other_version = vec![declaration("profiles", "uid", 2, false)];
    assert_eq!(
        error(&persistent, &vec![], &other_version, &mut interner),
        InitError::UnsupportedKeyMigration
    );
    let other_name = vec![declaration("profiles", "name", 1, false)];
    assert_eq!(
        error(&persistent, &vec![], &other_name, &mut interner),
        InitError::UnsupportedKeyMigration
    );
}

#[test]
fn unknown_key_id_is_refused() {
    let mut interner = StringInterner::new();
    let persistent = vec![row("profiles", "table_p", 5, 1)];
    let declarations = vec![declaration("profiles", "uid", 1, false)];
    assert_eq!(error(&persistent, &vec![], &declarations, &mut interner), InitError::UnknownKeyId);
}

#[test]
fn rows_of_another_format_are_refused() {
    let mut interner = StringInterner::new();
    let mut future = row("profiles", "table_p", 0, 1);
    future.kvs_schema_version = 1;
    assert_eq!(
        error(&vec![], &vec![future], &vec![], &mut interner),
        InitError::FutureSchemaVersion
    );
    let mut event = InitKvsEvent::new();
    let mut future = row("profiles", "table_p", 0, 1);
    future.kvs_schema_version = 3;
    let rows = vec![row("fine", "table_f", 0, 1), future];
    assert_eq!(event.load_kvs_metadata(&rows, false), Err(InitError::FutureSchemaVersion));
    assert_eq!(event.metadata().len(), 0);
}

#[test]
fn the_pass_step_by_step() {
    let mut interner = StringInterner::new();
    let mut event = InitKvsEvent::new();
    assert!(event.load_kvs_metadata(&vec![], false).is_ok());
    let created = event.init_module(&mut interner, "uid", 1, "profiles", true);
    let command = created.ok().unwrap().unwrap();
    assert_eq!(command.create_sql, create_table_statement(true, &expected_table_name(0, "profiles")));
    assert_eq!(command.insert_sql, insert_row_statement(true));
    assert_eq!(event.metadata().len(), 1);
    assert_eq!(
        event.init_module(&mut interner, "uid", 1, "profiles", true).err(),
        Some(InitError::DuplicateModule)
    );
    let cleanup = event.finish();
    assert_eq!(cleanup.dropped.len(), 0);
    assert_eq!(cleanup.late.metadata().len(), 1);
}

#[test]
fn metadata_map_replaces_the_entry_of_a_namespace() {
    let mut map = MetadataMap::new();
    let target = |m: &str, t: bool| KvsTarget { module_name: m.to_string(), is_transient: t };
    let metadata = |table: &str| KvsMetadata {
        table_name: table.to_string(),
        key_id: 0,
        key_version: 1,
        is_used: false,
    };
    map.insert(target("a", false), metadata("t1"));
    map.insert(target("a", true), metadata("t2"));
    map.insert(target("a", false), metadata("t3"));
    assert_eq!(map.len(), 2);
    assert_eq!(map.position("a", false), Some(0));
    assert_eq!(map.get("a", false).unwrap().table_name, "t3");
    assert_eq!(map.get("a", true).unwrap().table_name, "t2");
    assert!(map.get("b", false).is_none());
    map.mark_used(1);
    assert!(map.get("a", true).unwrap().is_used);
    assert!(!map.get("a", false).unwrap().is_used);
}

#[test]
fn error_texts_of_the_pass() {
    assert_eq!(
        InitError::DuplicateModule.message("profiles"),
        "Duplicate KVS module name found: profiles"
    );
    assert_eq!(
        InitError::UnsupportedKeyMigration.message("profiles"),
        "Conversions for mismatched kvs versions."
    );
    assert_eq!(
        InitError::FutureSchemaVersion.message(""),
        "This database was created with a future version of Sylphie."
    );
    assert_eq!(
        InitError::UnknownKeyId.message(""),
        "The database names a key schema that was never interned."
    );
    assert_eq!(InitError::TableNamesExhausted.message(""), "No table name is left for the KVS store.");
    assert_eq!(InitError::InternerFull.message(""), "No interned string id is left.");
}
