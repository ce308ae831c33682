//! Where the runtime files go under the runtime root: the settings in
//! `configs/config.json`, the database in `data/pulse.db`, the diagnostic
//! log in `data/pulse.log`. Finding the root and creating the directories
//! are the application's part.

use vstd::prelude::*;

verus! {

/// The path of `file` in directory `dir` under `root`.
pub fn file_under(root: &str, dir: &str, file: &str) -> (path: String)
    ensures
        path@ == root@ + "/"@ + dir@ + "/"@ + file@,
{
    let mut path = String::from_str(root);
    path.append("/");
    path.append(dir);
    path.append("/");
    path.append(file);
    path
}

/// The settings file under `root`: `configs/config.json`.
pub fn default_config_path(root: &str) -> (path: String)
    ensures
        path@ == root@ + "/"@ + "configs"@ + "/"@ + "config.json"@,
{
    file_under(root, "configs", "config.json")
}

/// The database file under `root`: `data/pulse.db`.
pub fn default_db_path(root: &str) -> (path: String)
    ensures
        path@ == root@ + "/"@ + "data"@ + "/"@ + "pulse.db"@,
{
    file_under(root, "data", "pulse.db")
}

/// The diagnostic log under `root`: `data/pulse.log`.
pub fn default_log_path(root: &str) -> (path: String)
    ensures
        path@ == root@ + "/"@ + "data"@ + "/"@ + "pulse.log"@,
{
    file_under(root, "data", "pulse.log")
}

} // verus!
