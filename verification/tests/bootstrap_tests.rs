use sylphie::bootstrap::{database_dir, database_files, get_dir_from_cargo, CargoProbe, CargoRoot};

fn probe() -> CargoProbe {
    CargoProbe {
        has_cargo_env: true,
        manifest_exists: true,
        manifest_is_file: true,
        git_exists: false,
        git_is_dir: false,
        parent_manifest_exists: false,
        parent_manifest_is_file: false,
    }
}

#[test]
fn package_directory_is_the_root_without_a_workspace() {
    assert_eq!(get_dir_from_cargo(probe()), CargoRoot::Package);
}

#[test]
fn parent_directory_is_the_root_in_a_workspace() {
    let found = CargoProbe { parent_manifest_exists: true, parent_manifest_is_file: true, ..probe() };
    assert_eq!(get_dir_from_cargo(found), CargoRoot::Parent);
    let not_a_file = CargoProbe { parent_manifest_exists: true, parent_manifest_is_file: false, ..probe() };
    assert_eq!(get_dir_from_cargo(not_a_file), CargoRoot::Package);
}

#[test]
fn build_tool_does_not_tell() {
    assert_eq!(get_dir_from_cargo(CargoProbe { has_cargo_env: false, ..probe() }), CargoRoot::Unknown);
    let no_manifest = CargoProbe { manifest_exists: false, manifest_is_file: false, ..probe() };
    assert_eq!(get_dir_from_cargo(no_manifest), CargoRoot::Unknown);
    let repository = CargoProbe { git_exists: true, git_is_dir: true, ..probe() };
    assert_eq!(get_dir_from_cargo(repository), CargoRoot::Unknown);
    let git_file = CargoProbe { git_exists: true, git_is_dir: false, ..probe() };
    assert_eq!(get_dir_from_cargo(git_file), CargoRoot::Package);
}

#[test]
fn files_are_named_after_the_application() {
    let files = database_files("sylph");
    assert_eq!(files.lock, "sylph.lock");
    assert_eq!(files.database, "sylph.db");
    assert_eq!(files.transient_database, "sylph.transient.db");
    assert_eq!(database_dir(), "db");
}
