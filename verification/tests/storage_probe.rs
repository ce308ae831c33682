use rusqlite::Connection;

#[test]
fn rusqlite_bundled_in_memory_smoke() {
    let conn = Connection::open_in_memory().unwrap();
    conn.execute("CREATE TABLE t (a INTEGER)", []).unwrap();
    conn.execute("INSERT INTO t (a) VALUES (1)", []).unwrap();
    conn.execute("INSERT INTO t (a) VALUES (2)", []).unwrap();
    let total: i64 = conn
        .query_row("SELECT SUM(a) FROM t", [], |row| row.get(0))
        .unwrap();
    assert_eq!(total, 3);
}
