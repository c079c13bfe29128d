use rusqlite::types::ToSql;
use rusqlite::Connection;
use stytsch::query::{build_search_query, SqlParam};
use stytsch::schema::{History, SearchFilter};

fn temp_db() -> Connection {
    let conn = Connection::open_in_memory().unwrap();
    conn.execute_batch(
        "CREATE TABLE IF NOT EXISTS history (
            id TEXT PRIMARY KEY,
            timestamp INTEGER NOT NULL,
            duration INTEGER NOT NULL,
            exit INTEGER NOT NULL,
            command TEXT NOT NULL,
            cwd TEXT NOT NULL,
            session TEXT NOT NULL,
            hostname TEXT NOT NULL,
            deleted_at INTEGER
        );
        CREATE UNIQUE INDEX IF NOT EXISTS idx_dedup ON history(timestamp, cwd, command);",
    )
    .unwrap();
    conn
}

fn make_entry(cmd: &str, cwd: &str, exit: i32, ts_offset: i64) -> History {
    let now = std::time::SystemTime::now().duration_since(std::time::UNIX_EPOCH).unwrap().as_nanos() as i64;
    History {
        id: uuid::Uuid::new_v4().to_string(),
        timestamp: now + ts_offset,
        duration: 100_000_000,
        exit,
        command: cmd.to_string(),
        cwd: cwd.to_string(),
        session: "test-session".to_string(),
        hostname: "test-host".to_string(),
        deleted_at: None,
    }
}

fn insert(conn: &Connection, h: &History) {
    conn.execute(
        "INSERT OR IGNORE INTO history
            (id, timestamp, duration, exit, command, cwd, session, hostname, deleted_at)
         VALUES (?1,?2,?3,?4,?5,?6,?7,?8,?9)",
        &[
            &h.id as &dyn ToSql,
            &h.timestamp,
            &h.duration,
            &h.exit,
            &h.command,
            &h.cwd,
            &h.session,
            &h.hostname,
            &h.deleted_at,
        ][..],
    )
    .unwrap();
}

fn search(conn: &Connection, filter: &SearchFilter) -> Vec<History> {
    let q = build_search_query(filter);
    let values: Vec<Box<dyn rusqlite::types::ToSql>> = q
        .params
        .into_iter()
        .map(|p| -> Box<dyn rusqlite::types::ToSql> {
            match p {
                SqlParam::Text(s) => Box::new(s),
                SqlParam::Integer(i) => Box::new(i),
            }
        })
        .collect();
    let refs: Vec<&dyn rusqlite::types::ToSql> = values.iter().map(|p| p.as_ref()).collect();
    let mut stmt = conn.prepare(&q.sql).unwrap();
    let rows = stmt
        .query_map(refs.as_slice(), |row| {
            Ok(History {
                id: row.get("id")?,
                timestamp: row.get("timestamp")?,
                duration: row.get("duration")?,
                exit: row.get("exit")?,
                command: row.get("command")?,
                cwd: row.get("cwd")?,
                session: row.get("session")?,
                hostname: row.get("hostname")?,
                deleted_at: row.get("deleted_at")?,
            })
        })
        .unwrap()
        .collect::<Result<Vec<_>, _>>()
        .unwrap();
    rows
}

#[test]
fn test_search_all() {
    let db = temp_db();
    for i in 0..10 {
        insert(&db, &make_entry(&format!("cmd{i}"), r"C:\", 0, i * 1_000_000));
    }
    let results = search(&db, &SearchFilter::new(100));
    assert_eq!(results.len(), 10);
    // Most recent first.
    assert!(results[0].command == "cmd9");
}

#[test]
fn test_search_by_query() {
    let db = temp_db();
    insert(&db, &make_entry("cargo build", r"C:\proj", 0, 0));
    insert(&db, &make_entry("cargo test", r"C:\proj", 0, 1_000_000));
    insert(&db, &make_entry("git status", r"C:\proj", 0, 2_000_000));

    let results = search(&db, &SearchFilter { query: Some("cargo".to_string()), limit: 100, ..Default::default() });
    assert_eq!(results.len(), 2);
}

#[test]
fn test_search_by_cwd() {
    let db = temp_db();
    insert(&db, &make_entry("npm start", r"C:\frontend", 0, 0));
    insert(&db, &make_entry("cargo run", r"C:\backend", 0, 1_000_000));

    let results = search(&db, &SearchFilter { cwd: Some(r"C:\frontend".to_string()), limit: 100, ..Default::default() });
    assert_eq!(results.len(), 1);
    assert_eq!(results[0].command, "npm start");
}

#[test]
fn test_search_by_exit_code() {
    let db = temp_db();
    insert(&db, &make_entry("good cmd", r"C:\", 0, 0));
    insert(&db, &make_entry("bad cmd", r"C:\", 1, 1_000_000));
    insert(&db, &make_entry("worse cmd", r"C:\", 127, 2_000_000));

    let results = search(&db, &SearchFilter { exit: Some(0), limit: 100, ..Default::default() });
    assert_eq!(results.len(), 1);
    assert_eq!(results[0].command, "good cmd");
}

#[test]
fn test_search_by_hostname() {
    let db = temp_db();
    let mut e1 = make_entry("local cmd", r"C:\", 0, 0);
    e1.hostname = "laptop".to_string();
    let mut e2 = make_entry("remote cmd", r"C:\", 0, 1_000_000);
    e2.hostname = "server".to_string();

    insert(&db, &e1);
    insert(&db, &e2);

    let results = search(&db, &SearchFilter { hostname: Some("server".to_string()), limit: 100, ..Default::default() });
    assert_eq!(results.len(), 1);
    assert_eq!(results[0].command, "remote cmd");
}

#[test]
fn test_search_limit_and_offset() {
    let db = temp_db();
    for i in 0..20 {
        insert(&db, &make_entry(&format!("cmd{i}"), r"C:\", 0, i * 1_000_000));
    }

    let results = search(&db, &SearchFilter { limit: 5, ..Default::default() });
    assert_eq!(results.len(), 5);

    let results = search(&db, &SearchFilter { limit: 5, offset: 15, ..Default::default() });
    assert_eq!(results.len(), 5);
}

#[test]
fn test_search_combined_filters() {
    let db = temp_db();
    insert(&db, &make_entry("cargo build", r"C:\proj", 0, 0));
    insert(&db, &make_entry("cargo build", r"C:\proj", 1, 1_000_000));
    insert(&db, &make_entry("cargo test", r"C:\proj", 0, 2_000_000));
    insert(&db, &make_entry("cargo build", r"C:\other", 0, 3_000_000));

    let results = search(
        &db,
        &SearchFilter {
            query: Some("build".to_string()),
            cwd: Some(r"C:\proj".to_string()),
            exit: Some(0),
            limit: 100,
            ..Default::default()
        },
    );
    assert_eq!(results.len(), 1);
}

#[test]
fn deleted_entries_are_never_found() {
    let db = temp_db();
    let e = make_entry("secret", r"C:\", 0, 0);
    insert(&db, &e);
    db.execute("UPDATE history SET deleted_at=?1 WHERE id=?2", &[&999i64 as &dyn ToSql, &e.id][..]).unwrap();
    assert_eq!(search(&db, &SearchFilter::new(100)).len(), 0);
}
