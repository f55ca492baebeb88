//! Where the application keeps its data.
use crate::paths::{join_path, joined};
use vstd::prelude::*;

verus! {

/// The directory for the data.
pub const RESOURCE_DIR: &'static str = "resources";

/// The directory for the pages, below the one for the data.
pub const PAGES_DIR: &'static str = "pages";

/// The directory for the files, below the one for the data.
pub const FILES_DIR: &'static str = "files";

/// The file of the database, below the directory for the data.
pub const DB_FILE: &'static str = "db.sqlite";

/// The directory of the migrations that bring the database up to date.
pub const MIGRATIONS_DIR: &'static str = "migrations/";

/// How the database keeps its journal: ahead of the writes, so that reading goes on meanwhile.
pub const JOURNAL_MODE: &'static str = "WAL";

/// How thoroughly the database waits for the disk.
pub const SYNCHRONOUS: &'static str = "NORMAL";

/// How long, in seconds, the database waits for a lock.
pub const BUSY_TIMEOUT: u64 = 5;

/// The directories of the application.
#[derive(Debug, PartialEq, Eq)]
pub struct AppPaths {
    /// The directory for the data.
    pub resource_dir: String,
    /// The directory for the pages.
    pub pages_dir: String,
    /// The directory for the files.
    pub files_dir: String,
}

/// The directories below the one for the data.
pub fn init_resource_dirs(resource_dir: String) -> (res: AppPaths)
    ensures
        res.resource_dir == resource_dir,
        res.pages_dir@ == join_path(resource_dir@, PAGES_DIR@),
        res.files_dir@ == join_path(resource_dir@, FILES_DIR@),
{
    let pages_dir = joined(resource_dir.as_str(), PAGES_DIR);
    let files_dir = joined(resource_dir.as_str(), FILES_DIR);
    AppPaths { resource_dir, pages_dir, files_dir }
}

/// How the database is opened.
#[derive(Debug, PartialEq, Eq)]
pub struct DbConfig {
    /// The file of the database.
    pub filename: String,
    /// Whether a file that is missing is created.
    pub create_if_missing: bool,
    /// How the journal is kept.
    pub journal_mode: &'static str,
    /// How thoroughly the disk is waited for.
    pub synchronous: &'static str,
    /// The further settings for a new connection.
    pub pragmas: Vec<(&'static str, &'static str)>,
    /// How long, in seconds, a lock is waited for.
    pub busy_timeout: u64,
    /// The directory of the migrations that are applied.
    pub migrations: &'static str,
}

/// The further settings for a new connection: the size of a page of a new database, foreign keys that are
/// checked, and temporary tables in memory.
pub open spec fn pragmas() -> Seq<(&'static str, &'static str)> {
    seq![("page_size", "4096"), ("foreign_keys", "ON"), ("temp_store", "MEMORY")]
}

/// How the database below the directory for the data is opened.
pub fn init_db_pool(resource_dir: &str) -> (res: DbConfig)
    ensures
        res.filename@ == join_path(resource_dir@, DB_FILE@),
        res.create_if_missing,
        res.journal_mode@ == JOURNAL_MODE@,
        res.synchronous@ == SYNCHRONOUS@,
        res.pragmas@ == pragmas(),
        res.busy_timeout == BUSY_TIMEOUT,
        res.migrations@ == MIGRATIONS_DIR@,
{
    let mut settings: Vec<(&'static str, &'static str)> = Vec::new();
    settings.push(("page_size", "4096"));
    settings.push(("foreign_keys", "ON"));
    settings.push(("temp_store", "MEMORY"));
    assert(settings@ =~= pragmas());
    DbConfig {
        filename: joined(resource_dir, DB_FILE),
        create_if_missing: true,
        journal_mode: JOURNAL_MODE,
        synchronous: SYNCHRONOUS,
        pragmas: settings,
        busy_timeout: BUSY_TIMEOUT,
        migrations: MIGRATIONS_DIR,
    }
}

} // verus!
