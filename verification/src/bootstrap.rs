//! What the start of the process decides before anything runs: where the
//! files of the application live, and what they are called.

use vstd::prelude::*;

verus! {

/// What was found around the directory that the build tool names as the
/// directory of the package.
#[derive(Clone, Copy, Debug, PartialEq, Eq, Structural)]
pub struct CargoProbe {
    /// Whether the process runs under the build tool: `CARGO`,
    /// `CARGO_PKG_NAME` and `CARGO_PKG_VERSION` are all set.
    pub has_cargo_env: bool,
    /// Whether `Cargo.toml` in the directory exists.
    pub manifest_exists: bool,
    /// Whether `Cargo.toml` in the directory is a file.
    pub manifest_is_file: bool,
    /// Whether `.git` in the directory exists.
    pub git_exists: bool,
    /// Whether `.git` in the directory is a directory.
    pub git_is_dir: bool,
    /// Whether `Cargo.toml` in the parent directory exists.
    pub parent_manifest_exists: bool,
    /// Whether `Cargo.toml` in the parent directory is a file.
    pub parent_manifest_is_file: bool,
}

/// Which directory is the root of the application, as far as the build
/// tool tells.
#[derive(Clone, Copy, Debug, PartialEq, Eq, Structural)]
pub enum CargoRoot {
    /// The build tool does not tell: neither directory is to be used.
    Unknown,
    /// The parent of the package directory: the package is a member of a
    /// workspace.
    Parent,
    /// The package directory itself.
    Package,
}

/// Which directory is the root of the application.
pub open spec fn cargo_root(probe: CargoProbe) -> CargoRoot {
    if !probe.has_cargo_env {
        CargoRoot::Unknown
    } else if !(probe.manifest_exists || probe.manifest_is_file) {
        CargoRoot::Unknown
    } else if probe.git_exists && probe.git_is_dir {
        CargoRoot::Unknown
    } else if probe.parent_manifest_exists && probe.parent_manifest_is_file {
        CargoRoot::Parent
    } else {
        CargoRoot::Package
    }
}

/// Decides which directory is the root of the application. Outside the
/// build tool, without a manifest, or in a directory that is a repository
/// of its own, the build tool does not tell. Else the root is the parent
/// directory if that has a manifest, and the package directory if not.
pub fn get_dir_from_cargo(probe: CargoProbe) -> (r: CargoRoot)
    ensures
        r == cargo_root(probe),
{
    if !probe.has_cargo_env {
        return CargoRoot::Unknown;
    }
    if !(probe.manifest_exists || probe.manifest_is_file) {
        return CargoRoot::Unknown;
    }
    if probe.git_exists && probe.git_is_dir {
        return CargoRoot::Unknown;
    }
    if probe.parent_manifest_exists && probe.parent_manifest_is_file {
        CargoRoot::Parent
    } else {
        CargoRoot::Package
    }
}

/// The names of the files of an application in its database directory.
pub struct DatabaseFiles {
    /// The file whose lock keeps a second process away.
    pub lock: String,
    /// The persistent database.
    pub database: String,
    /// The transient database.
    pub transient_database: String,
}

/// The name of the database directory below the root.
pub fn database_dir() -> (r: &'static str)
    ensures
        r@ == "db"@,
{
    "db"
}

/// The names of the files of the application called `bot_name`.
pub fn database_files(bot_name: &str) -> (r: DatabaseFiles)
    ensures
        r.lock@ == bot_name@ + ".lock"@,
        r.database@ == bot_name@ + ".db"@,
        r.transient_database@ == bot_name@ + ".transient.db"@,
{
    let mut lock = bot_name.to_owned();
    lock.append(".lock");
    let mut database = bot_name.to_owned();
    database.append(".db");
    let mut transient_database = bot_name.to_owned();
    transient_database.append(".transient.db");
    DatabaseFiles { lock, database, transient_database }
}

} // verus!
