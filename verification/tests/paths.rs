use std::path::Path;

use capsule_pulse::paths::{default_config_path, default_db_path, default_log_path, file_under};

const ROOT: &str = "/srv/capsule-pulse";

#[test]
fn default_paths_use_configs_and_data() {
    let config = default_config_path(ROOT);
    let config = Path::new(&config);
    assert_eq!(config.file_name().unwrap(), "config.json");
    assert_eq!(config.parent().unwrap().file_name().unwrap(), "configs");

    let db = default_db_path(ROOT);
    let db = Path::new(&db);
    assert_eq!(db.file_name().unwrap(), "pulse.db");
    assert_eq!(db.parent().unwrap().file_name().unwrap(), "data");
}

#[test]
fn file_under_joins_with_separators() {
    assert_eq!(file_under("/a", "b", "c.txt"), "/a/b/c.txt");
    assert!(Path::new(&default_db_path(ROOT)).starts_with(ROOT));
}

#[test]
fn log_path_sits_beside_the_database() {
    assert_eq!(default_log_path(ROOT), "/srv/capsule-pulse/data/pulse.log");
    assert_eq!(
        Path::new(&default_log_path(ROOT)).parent(),
        Path::new(&default_db_path(ROOT)).parent()
    );
}
