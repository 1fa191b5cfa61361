use sylphie::migrations::{
    persistent_kvs_migrations, transient_kvs_migrations, MigrationData, MigrationScriptData,
};

fn script(from: u32, to: u32) -> MigrationScriptData {
    MigrationScriptData {
        from,
        to,
        script_name: format!("sql/{}_to_{}.sql", from, to),
        script_data: String::new(),
    }
}

fn set(target_version: u32, steps: &[(u32, u32)]) -> MigrationData {
    MigrationData {
        migration_id: "test 00000000".to_string(),
        migration_set_name: "test".to_string(),
        is_transient: false,
        target_version,
        scripts: steps.iter().map(|s| script(s.0, s.1)).collect(),
    }
}

#[test]
fn a_run_applies_the_scripts_that_lead_on() {
    let migrations = set(3, &[(0, 1), (1, 2), (2, 3)]);
    assert_eq!(migrations.plan(0), vec![0, 1, 2]);
    assert_eq!(migrations.plan(1), vec![1, 2]);
    assert_eq!(migrations.version_after(0), 3);
    assert_eq!(migrations.version_after(2), 3);
}

#[test]
fn a_current_schema_is_left_alone() {
    let migrations = set(3, &[(0, 1), (1, 2), (2, 3)]);
    assert_eq!(migrations.plan(3), Vec::<usize>::new());
    assert_eq!(migrations.version_after(3), 3);
    assert!(migrations.is_current(3));
    assert!(!migrations.is_current(2));
}

#[test]
fn running_twice_is_running_once() {
    let migrations = set(3, &[(0, 1), (1, 2), (2, 3)]);
    let reached = migrations.version_after(0);
    assert_eq!(migrations.plan(reached), Vec::<usize>::new());
    assert_eq!(migrations.version_after(reached), reached);
    let stuck = set(9, &[(0, 1), (4, 5)]);
    let reached = stuck.version_after(0);
    assert_eq!(reached, 1);
    assert_eq!(stuck.plan(reached), Vec::<usize>::new());
    assert_eq!(stuck.version_after(reached), 1);
}

#[test]
fn scripts_out_of_order_need_a_second_run() {
    let migrations = set(2, &[(1, 2), (0, 1)]);
    assert_eq!(migrations.plan(0), vec![1]);
    assert_eq!(migrations.version_after(0), 1);
    assert_eq!(migrations.plan(1), vec![0]);
    assert_eq!(migrations.version_after(1), 2);
}

#[test]
fn a_run_goes_step_by_step() {
    let migrations = set(2, &[(0, 1), (5, 6), (1, 2)]);
    let mut run = migrations.begin(None);
    assert_eq!(run.version(), 0);
    assert_eq!(migrations.next(&run), Some(0));
    migrations.committed(&mut run, 0);
    assert_eq!(run.version(), 1);
    assert_eq!(migrations.next(&run), Some(2));
    migrations.committed(&mut run, 2);
    assert_eq!(run.version(), 2);
    assert_eq!(migrations.next(&run), None);
}

#[test]
fn a_failed_script_leaves_the_last_committed_version() {
    let migrations = set(3, &[(0, 1), (1, 2), (2, 3)]);
    let mut run = migrations.begin(Some(0));
    let first = migrations.next(&run).unwrap();
    migrations.committed(&mut run, first);
    assert_eq!(migrations.next(&run), Some(1));
    let kept = run.version();
    assert_eq!(kept, 1);
    let retry = migrations.begin(Some(kept));
    assert_eq!(migrations.next(&retry), Some(1));
}

#[test]
fn a_run_at_the_target_version_tries_nothing() {
    let migrations = set(1, &[(0, 1), (1, 2)]);
    let run = migrations.begin(Some(1));
    assert_eq!(migrations.next(&run), None);
    assert_eq!(run.version(), 1);
}

#[test]
fn kvs_migration_sets() {
    let persistent = persistent_kvs_migrations("CREATE TABLE a (b);".to_string());
    assert_eq!(persistent.migration_id, "persistent ebc80f22-f8e8-4c0f-b09c-6fd12e3c853b");
    assert_eq!(persistent.migration_set_name, "persistent_kvs");
    assert!(!persistent.is_transient);
    assert_eq!(persistent.target_version, 1);
    assert_eq!(persistent.scripts.len(), 1);
    assert_eq!(persistent.scripts[0].script_name, "sql/kvs_persistent_0_to_1.sql");
    assert_eq!(persistent.scripts[0].script_data, "CREATE TABLE a (b);");
    assert_eq!(persistent.plan(0), vec![0]);
    let transient = transient_kvs_migrations(String::new());
    assert_eq!(transient.migration_id, "transient e9031b35-e448-444d-b161-e75245b30bd8");
    assert_eq!(transient.migration_set_name, "transient_kvs");
    assert!(transient.is_transient);
    assert_eq!(transient.scripts[0].script_name, "sql/kvs_transient_0_to_1.sql");
    assert_eq!(transient.version_after(0), 1);
}

#[test]
fn ascending_scripts_are_told_from_others() {
    assert!(set(3, &[(0, 1), (1, 2), (2, 3)]).scripts_ascend());
    assert!(set(3, &[(0, 2), (1, 3)]).scripts_ascend());
    assert!(set(3, &[]).scripts_ascend());
    assert!(!set(2, &[(1, 2), (0, 1)]).scripts_ascend());
    assert!(!set(2, &[(0, 1), (0, 2)]).scripts_ascend());
    assert!(!set(2, &[(1, 1)]).scripts_ascend());
    assert!(!set(2, &[(2, 1)]).scripts_ascend());
}
