//! SQLite storage: timed segments (`sessions`), workdays (`workdays`) and
//! clock/segment events (`events`), with the day/week/all totals. Every
//! statement binds its values as parameters. What the database holds lives
//! on disk, so the calls into it promise nothing about the rows. What they
//! promise is which statements were run, with which parameters: the
//! connection's record of them (`sent`) is extended only by the calls into
//! SQLite. Beside it each handle keeps a typed account of its operations
//! (`requests`), with the answers SQLite gave, so that callers can say which
//! answer fed which result.

use vstd::prelude::*;

use crate::period::{day_start_secs, week_start_secs, zoned_ok, ZonedTime};
use crate::period::{day_start_spec, week_start_spec};
use crate::workday::{kind_of_text, kind_text, EventKind};

verus! {

#[verifier::external_type_specification]
#[verifier::external_body]
pub struct ExConnection(rusqlite::Connection);

#[verifier::external_type_specification]
#[verifier::external_body]
pub struct ExSqliteError(rusqlite::Error);

/// A storage failure.
#[derive(Debug)]
pub enum StorageError {
    /// SQLite refused (opening, creating a table, reading or writing).
    Sqlite(rusqlite::Error),
    /// The data directory could not be made (the system's message).
    Io(String),
    /// No workday row has this id.
    WorkdayMissing(i64),
    /// A stored event kind is not one this version knows.
    UnknownEventKind(String),
}

/// A request SQLite carried out: what was handed to it, and what it answered.
pub enum Request {
    /// A segment row `(started_at, seconds)` was inserted.
    AddSession { started_at: i64, seconds: i64 },
    /// The seconds of the segments started at or after `since` were summed.
    TotalSince { since: i64, total: i64 },
    /// The segment rows were counted.
    SessionCount { count: i64 },
    /// A workday row was opened at `clock_in_at` under row id `id`.
    WorkdayOpen { clock_in_at: i64, id: i64 },
    /// Workday row `id` was closed at `clock_out_at`, changing `changed` rows.
    WorkdayClose { id: i64, clock_out_at: i64, changed: usize },
    /// The newest workday row was read.
    WorkdayLatest { latest: Option<(i64, i64, Option<i64>)> },
    /// An event `(at, kind text)` was inserted.
    InsertEvent { at: i64, kind: Seq<char> },
    /// The events in `[start, end)` were read, their kinds all known.
    EventsBetween { start: i64, end: i64, events: Seq<(i64, EventKind)> },
}

/// The database.
pub struct Storage {
    conn: rusqlite::Connection,
    log: Ghost<Seq<Request>>,
    stamps: Ghost<Seq<i64>>,
}

/// The request an event insert hands to SQLite.
pub open spec fn event_request(at: i64, kind: EventKind) -> Request {
    Request::InsertEvent { at, kind: kind_text(kind) }
}

/// The request closing workday `id` at `at`, changing `changed` rows.
pub open spec fn close_request(id: i64, at: i64, changed: usize) -> Request {
    Request::WorkdayClose { id, clock_out_at: at, changed }
}

/// The request reading the events in `[start, end)`, which gave `events`.
pub open spec fn events_request(start: i64, end: i64, events: Seq<(i64, EventKind)>) -> Request {
    Request::EventsBetween { start, end, events }
}

/// The segment row a paired write inserts: none, or `(started_at, seconds)`.
pub open spec fn row_requests(row: Option<(i64, i64)>) -> Seq<Request> {
    match row {
        Some((started_at, seconds)) => seq![Request::AddSession { started_at, seconds }],
        None => Seq::empty(),
    }
}

/// The statements run to completion on `conn` through this library's calls,
/// oldest first: each with its SQL text, its integer parameters and its
/// text parameter (empty when it has none). A statement that fails is not
/// among them.
pub uninterp spec fn sent_statements(conn: rusqlite::Connection) -> Seq<(Seq<char>, Seq<i64>, Seq<char>)>;

/// Calls `rusqlite::Connection::open_in_memory`; a fresh connection has run
/// no statement.
#[verifier::external_body]
fn sqlite_open_in_memory() -> (r: Result<rusqlite::Connection, rusqlite::Error>)
    ensures
        r matches Ok(conn) ==> sent_statements(conn) == Seq::<(Seq<char>, Seq<i64>, Seq<char>)>::empty(),
{
    rusqlite::Connection::open_in_memory()
}

/// Calls `rusqlite::Connection::execute` with `sql` and the integer
/// parameters `params`; returns the number of rows changed. On success the
/// statement is the connection's latest; a failed one is not recorded.
/// Nothing is promised of the database or of the count.
#[verifier::external_body]
fn sqlite_execute(conn: &mut rusqlite::Connection, sql: &str, params: &[i64]) -> (r: Result<usize, rusqlite::Error>)
    ensures
        r is Ok ==> sent_statements(*final(conn)) == sent_statements(*old(conn)).push(
            (sql@, params@, Seq::<char>::empty()),
        ),
        r is Err ==> sent_statements(*final(conn)) == sent_statements(*old(conn)),
{
    conn.execute(sql, rusqlite::params_from_iter(params.iter()))
}

/// Calls `rusqlite::Connection::execute` with `sql`, the integer parameter
/// `at` and the text parameter `text`; as `sqlite_execute` otherwise.
#[verifier::external_body]
fn sqlite_execute_with_text(conn: &mut rusqlite::Connection, sql: &str, at: i64, text: &str) -> (r: Result<usize, rusqlite::Error>)
    ensures
        r is Ok ==> sent_statements(*final(conn)) == sent_statements(*old(conn)).push((sql@, seq![at], text@)),
        r is Err ==> sent_statements(*final(conn)) == sent_statements(*old(conn)),
{
    conn.execute(sql, (at, text))
}

/// Calls `rusqlite::Connection::query_row` with `sql` and the integer
/// parameters `params`, for one row whose first column is an integer. On
/// success the query is the connection's latest; nothing is promised of the value.
#[verifier::external_body]
fn sqlite_query_i64(conn: &mut rusqlite::Connection, sql: &str, params: &[i64]) -> (r: Result<i64, rusqlite::Error>)
    ensures
        r is Ok ==> sent_statements(*final(conn)) == sent_statements(*old(conn)).push(
            (sql@, params@, Seq::<char>::empty()),
        ),
        r is Err ==> sent_statements(*final(conn)) == sent_statements(*old(conn)),
{
    conn.query_row(sql, rusqlite::params_from_iter(params.iter()), |row| row.get(0))
}

/// Calls `rusqlite::Connection::query_row` with `sql` and no parameters, for
/// a workday row `(id, clock_in_at, clock_out_at)`; as `sqlite_query_i64`
/// otherwise (no row at all is an error). Nothing is promised of the row.
#[verifier::external_body]
fn sqlite_query_workday(conn: &mut rusqlite::Connection, sql: &str) -> (r: Result<(i64, i64, Option<i64>), rusqlite::Error>)
    ensures
        r is Ok ==> sent_statements(*final(conn)) == sent_statements(*old(conn)).push(
            (sql@, Seq::<i64>::empty(), Seq::<char>::empty()),
        ),
        r is Err ==> sent_statements(*final(conn)) == sent_statements(*old(conn)),
{
    conn.query_row(sql, [], |row| Ok((row.get(0)?, row.get(1)?, row.get(2)?)))
}

/// Calls `rusqlite::Connection::prepare` and `Statement::query_map` with
/// `sql` and the integer parameters `start` and `end`, for rows `(at, kind
/// text)`, collected in the order SQLite returns them; as `sqlite_query_i64`
/// otherwise. Nothing is promised of the rows.
#[verifier::external_body]
fn sqlite_query_events(conn: &mut rusqlite::Connection, sql: &str, start: i64, end: i64) -> (r: Result<Vec<(i64, String)>, rusqlite::Error>)
    ensures
        r is Ok ==> sent_statements(*final(conn)) == sent_statements(*old(conn)).push(
            (sql@, seq![start, end], Seq::<char>::empty()),
        ),
        r is Err ==> sent_statements(*final(conn)) == sent_statements(*old(conn)),
{
    let mut stmt = conn.prepare(sql)?;
    let rows = stmt.query_map([start, end], |row| Ok((row.get::<_, i64>(0)?, row.get::<_, String>(1)?)))?;
    rows.collect()
}

/// Calls `rusqlite::Connection::last_insert_rowid`.
#[verifier::external_body]
fn sqlite_last_insert_rowid(conn: &rusqlite::Connection) -> i64 {
    conn.last_insert_rowid()
}

/// Tells `rusqlite::Error::QueryReturnedNoRows` apart from the other errors.
#[verifier::external_body]
fn sqlite_no_rows(err: &rusqlite::Error) -> bool {
    matches!(err, rusqlite::Error::QueryReturnedNoRows)
}

/// Creates the segment table when missing.
pub const CREATE_SESSIONS: &'static str = "CREATE TABLE IF NOT EXISTS sessions (
                id INTEGER PRIMARY KEY AUTOINCREMENT,
                started_at INTEGER NOT NULL,
                seconds INTEGER NOT NULL
            )";

/// Creates the workday table when missing.
pub const CREATE_WORKDAYS: &'static str = "CREATE TABLE IF NOT EXISTS workdays (
                id INTEGER PRIMARY KEY AUTOINCREMENT,
                clock_in_at INTEGER NOT NULL,
                clock_out_at INTEGER
            )";

/// Creates the event table when missing.
pub const CREATE_EVENTS: &'static str = "CREATE TABLE IF NOT EXISTS events (
                id INTEGER PRIMARY KEY AUTOINCREMENT,
                at INTEGER NOT NULL,
                kind TEXT NOT NULL
            )";

/// Inserts a segment row `(started_at, seconds)`.
pub const INSERT_SESSION: &'static str = "INSERT INTO sessions (started_at, seconds) VALUES (?1, ?2)";

/// Sums the seconds of the segments started at or after a bound.
pub const TOTAL_SINCE: &'static str = "SELECT COALESCE(SUM(seconds), 0) FROM sessions WHERE started_at >= ?1";

/// Counts the segment rows.
pub const COUNT_SESSIONS: &'static str = "SELECT COUNT(*) FROM sessions";

/// Opens a workday row at a clock-in.
pub const OPEN_WORKDAY: &'static str = "INSERT INTO workdays (clock_in_at, clock_out_at) VALUES (?1, NULL)";

/// Closes a workday row `(clock_out_at, id)`.
pub const CLOSE_WORKDAY: &'static str = "UPDATE workdays SET clock_out_at = ?1 WHERE id = ?2";

/// Reads the newest workday row.
pub const LATEST_WORKDAY: &'static str = "SELECT id, clock_in_at, clock_out_at FROM workdays
             ORDER BY id DESC LIMIT 1";

/// Inserts an event `(at, kind)`.
pub const INSERT_EVENT: &'static str = "INSERT INTO events (at, kind) VALUES (?1, ?2)";

/// Reads the events in `[start, end)` by time, ties in recording order.
pub const EVENTS_BETWEEN: &'static str = "SELECT at, kind FROM events WHERE at >= ?1 AND at < ?2 ORDER BY at, id";

/// Opens a transaction.
pub const BEGIN: &'static str = "BEGIN";

/// Commits the open transaction.
pub const COMMIT: &'static str = "COMMIT";

/// Undoes the open transaction.
pub const ROLLBACK: &'static str = "ROLLBACK";

/// A statement with integer parameters only.
pub open spec fn stmt(sql: &str, params: Seq<i64>) -> (Seq<char>, Seq<i64>, Seq<char>) {
    (sql@, params, Seq::empty())
}

/// The statement inserting the event `(at, kind)`.
pub open spec fn event_stmt(at: i64, kind: EventKind) -> (Seq<char>, Seq<i64>, Seq<char>) {
    (INSERT_EVENT@, seq![at], kind_text(kind))
}

/// The statements inserting a segment row, when there is one.
pub open spec fn row_stmts(row: Option<(i64, i64)>) -> Seq<(Seq<char>, Seq<i64>, Seq<char>)> {
    match row {
        Some((started_at, seconds)) => seq![stmt(INSERT_SESSION, seq![started_at, seconds])],
        None => Seq::empty(),
    }
}

/// The answer to closing workday `id` when the update changed `affected` rows:
/// a missing row is an error, not a silent success.
pub fn close_outcome(id: i64, affected: usize) -> (r: Result<(), StorageError>)
    ensures
        affected == 0 ==> (r matches Err(StorageError::WorkdayMissing(missing)) && missing == id),
        affected > 0 ==> r is Ok,
{
    if affected == 0 {
        Err(StorageError::WorkdayMissing(id))
    } else {
        Ok(())
    }
}

/// Stored event rows typed: every kind text must parse; the first that does
/// not is the error, with its text kept.
pub fn events_from_rows(rows: Vec<(i64, String)>) -> (r: Result<Vec<(i64, EventKind)>, StorageError>)
    ensures
        r matches Ok(events) ==> events@.len() == rows@.len() && forall|i: int|
            0 <= i < rows@.len() ==> #[trigger] events@[i].0 == rows@[i].0 && kind_of_text(rows@[i].1@)
                == Some(events@[i].1),
        r matches Err(e) ==> exists|i: int|
            0 <= i < rows@.len() && kind_of_text(#[trigger] rows@[i].1@) is None && (forall|j: int|
                0 <= j < i ==> kind_of_text(#[trigger] rows@[j].1@) is Some) && (e matches StorageError::UnknownEventKind(
                text,
            ) && text@ == rows@[i].1@),
        (forall|i: int| 0 <= i < rows@.len() ==> kind_of_text(#[trigger] rows@[i].1@) is Some) ==> r is Ok,
{
    let mut events: Vec<(i64, EventKind)> = Vec::new();
    let mut i: usize = 0;
    while i < rows.len()
        invariant
            i <= rows@.len(),
            events@.len() == i,
            forall|j: int|
                0 <= j < i ==> #[trigger] events@[j].0 == rows@[j].0 && kind_of_text(rows@[j].1@) == Some(
                    events@[j].1,
                ),
        decreases rows@.len() - i,
    {
        let (at, text) = (rows[i].0, &rows[i].1);
        match EventKind::parse(text.as_str()) {
            Some(kind) => events.push((at, kind)),
            None => {
                let kept = text.clone();
                proof {
                    assert(forall|j: int| 0 <= j < i ==> kind_of_text(#[trigger] rows@[j].1@) is Some) by {
                        assert forall|j: int| 0 <= j < i implies kind_of_text(#[trigger] rows@[j].1@) is Some by {
                            assert(events@[j].0 == rows@[j].0);
                        }
                    }
                }
                return Err(StorageError::UnknownEventKind(kept));
            },
        }
        i += 1;
    }
    Ok(events)
}

/// No integer parameters.
fn no_params() -> (v: Vec<i64>)
    ensures
        v@ == Seq::<i64>::empty(),
{
    Vec::new()
}

/// One integer parameter.
fn params1(a: i64) -> (v: Vec<i64>)
    ensures
        v@ == seq![a],
{
    let mut v = Vec::new();
    v.push(a);
    v
}

/// Two integer parameters.
fn params2(a: i64, b: i64) -> (v: Vec<i64>)
    ensures
        v@ == seq![a, b],
{
    let mut v = Vec::new();
    v.push(a);
    v.push(b);
    v
}

impl Storage {
    /// The requests carried out on this handle since it was opened, oldest
    /// first, each with the values handed over and the answer given.
    pub closed spec fn requests(&self) -> Seq<Request> {
        self.log@
    }

    /// The statements run on this handle's connection, oldest first.
    pub closed spec fn sent(&self) -> Seq<(Seq<char>, Seq<i64>, Seq<char>)> {
        sent_statements(self.conn)
    }

    /// The wall-clock readings (Unix seconds) taken through this handle to
    /// time records, oldest first. Only `stamp_now` adds to them.
    pub closed spec fn stamps(&self) -> Seq<i64> {
        self.stamps@
    }

    /// Read the wall clock to time a record: the current Unix time in whole
    /// seconds, kept as the latest stamp; `None` (and no stamp) when the
    /// clock reads before the epoch. Nothing else changes.
    pub fn stamp_now(&mut self) -> (r: Option<i64>)
        ensures
            final(self).requests() == old(self).requests(),
            final(self).sent() == old(self).sent(),
            r matches Some(at) ==> final(self).stamps() == old(self).stamps().push(at),
            r is None ==> final(self).stamps() == old(self).stamps(),
    {
        match crate::commands::wall_now_secs() {
            Ok(at) => {
                self.stamps = Ghost(self.stamps@.push(at));
                Some(at)
            },
            Err(_) => None,
        }
    }

    /// Create the tables when missing: `sessions`, `workdays` and `events`.
    pub fn init(conn: rusqlite::Connection) -> (r: Result<Storage, StorageError>)
        ensures
            r is Ok || r matches Err(StorageError::Sqlite(_)),
            r matches Ok(storage) ==> storage.stamps() == Seq::<i64>::empty(),
            r matches Ok(storage) ==> storage.requests() == Seq::<Request>::empty() && storage.sent()
                == sent_statements(conn) + seq![
                stmt(CREATE_SESSIONS, seq![]),
                stmt(CREATE_WORKDAYS, seq![]),
                stmt(CREATE_EVENTS, seq![]),
            ],
    {
        let mut conn = conn;
        let ghost before = sent_statements(conn);
        if let Err(e) = sqlite_execute(&mut conn, CREATE_SESSIONS, no_params().as_slice()) {
            return Err(StorageError::Sqlite(e));
        }
        if let Err(e) = sqlite_execute(&mut conn, CREATE_WORKDAYS, no_params().as_slice()) {
            return Err(StorageError::Sqlite(e));
        }
        if let Err(e) = sqlite_execute(&mut conn, CREATE_EVENTS, no_params().as_slice()) {
            return Err(StorageError::Sqlite(e));
        }
        proof {
            assert(sent_statements(conn) =~= before + seq![
                stmt(CREATE_SESSIONS, seq![]),
                stmt(CREATE_WORKDAYS, seq![]),
                stmt(CREATE_EVENTS, seq![]),
            ]);
        }
        Ok(Storage { conn, log: Ghost(Seq::empty()), stamps: Ghost(Seq::empty()) })
    }

    /// An in-memory database with the tables created.
    pub fn open_in_memory() -> (r: Result<Storage, StorageError>)
        ensures
            r is Ok || r matches Err(StorageError::Sqlite(_)),
            r matches Ok(storage) ==> storage.stamps() == Seq::<i64>::empty(),
            r matches Ok(storage) ==> storage.requests() == Seq::<Request>::empty() && storage.sent() == seq![
                stmt(CREATE_SESSIONS, seq![]),
                stmt(CREATE_WORKDAYS, seq![]),
                stmt(CREATE_EVENTS, seq![]),
            ],
    {
        match sqlite_open_in_memory() {
            Ok(conn) => {
                let r = Storage::init(conn);
                proof {
                    if r is Ok {
                        assert(Seq::<(Seq<char>, Seq<i64>, Seq<char>)>::empty() + seq![
                            stmt(CREATE_SESSIONS, seq![]),
                            stmt(CREATE_WORKDAYS, seq![]),
                            stmt(CREATE_EVENTS, seq![]),
                        ] =~= seq![
                            stmt(CREATE_SESSIONS, seq![]),
                            stmt(CREATE_WORKDAYS, seq![]),
                            stmt(CREATE_EVENTS, seq![]),
                        ]);
                    }
                }
                r
            },
            Err(e) => Err(StorageError::Sqlite(e)),
        }
    }

    /// Record a timed segment that started at `started_at` and lasted `seconds`.
    pub fn add_session(&mut self, started_at: i64, seconds: i64) -> (r: Result<(), StorageError>)
        ensures
            final(self).stamps() == old(self).stamps(),
            r is Ok || r matches Err(StorageError::Sqlite(_)),
            r is Ok ==> final(self).sent() == old(self).sent().push(stmt(INSERT_SESSION, seq![started_at, seconds]))
                && final(self).requests() == old(self).requests().push(Request::AddSession { started_at, seconds }),
            r is Err ==> final(self).sent() == old(self).sent() && final(self).requests() == old(self).requests(),
    {
        match sqlite_execute(&mut self.conn, INSERT_SESSION, params2(started_at, seconds).as_slice()) {
            Ok(_) => {
                self.log = Ghost(self.log@.push(Request::AddSession { started_at, seconds }));
                Ok(())
            },
            Err(e) => Err(StorageError::Sqlite(e)),
        }
    }

    /// Seconds of the segments started at or after `since` (zero for none).
    pub fn total_since(&mut self, since: i64) -> (r: Result<i64, StorageError>)
        ensures
            final(self).stamps() == old(self).stamps(),
            r is Ok || r matches Err(StorageError::Sqlite(_)),
            r matches Ok(total) ==> final(self).sent() == old(self).sent().push(stmt(TOTAL_SINCE, seq![since]))
                && final(self).requests() == old(self).requests().push(Request::TotalSince { since, total }),
            r is Err ==> final(self).sent() == old(self).sent() && final(self).requests() == old(self).requests(),
    {
        match sqlite_query_i64(&mut self.conn, TOTAL_SINCE, params1(since).as_slice()) {
            Ok(total) => {
                self.log = Ghost(self.log@.push(Request::TotalSince { since, total }));
                Ok(total)
            },
            Err(e) => Err(StorageError::Sqlite(e)),
        }
    }

    /// Seconds of the segments started today (from local midnight).
    pub fn today_total(&mut self, now: &ZonedTime) -> (r: Result<i64, StorageError>)
        requires
            zoned_ok(*now),
        ensures
            final(self).stamps() == old(self).stamps(),
            r is Ok || r matches Err(StorageError::Sqlite(_)),
            r matches Ok(total) ==> final(self).sent() == old(self).sent().push(
                stmt(TOTAL_SINCE, seq![day_start_spec(*now) as i64]),
            ) && final(self).requests() == old(self).requests().push(
                Request::TotalSince { since: day_start_spec(*now) as i64, total },
            ),
            r is Err ==> final(self).sent() == old(self).sent() && final(self).requests() == old(self).requests(),
    {
        self.total_since(day_start_secs(now))
    }

    /// Seconds of the segments started this week (from Monday midnight).
    pub fn week_total(&mut self, now: &ZonedTime) -> (r: Result<i64, StorageError>)
        requires
            zoned_ok(*now),
        ensures
            final(self).stamps() == old(self).stamps(),
            r is Ok || r matches Err(StorageError::Sqlite(_)),
            r matches Ok(total) ==> final(self).sent() == old(self).sent().push(
                stmt(TOTAL_SINCE, seq![week_start_spec(*now) as i64]),
            ) && final(self).requests() == old(self).requests().push(
                Request::TotalSince { since: week_start_spec(*now) as i64, total },
            ),
            r is Err ==> final(self).sent() == old(self).sent() && final(self).requests() == old(self).requests(),
    {
        self.total_since(week_start_secs(now))
    }

    /// Seconds of all segments.
    pub fn all_total(&mut self) -> (r: Result<i64, StorageError>)
        ensures
            final(self).stamps() == old(self).stamps(),
            r is Ok || r matches Err(StorageError::Sqlite(_)),
            r matches Ok(total) ==> final(self).sent() == old(self).sent().push(stmt(TOTAL_SINCE, seq![0]))
                && final(self).requests() == old(self).requests().push(Request::TotalSince { since: 0, total }),
            r is Err ==> final(self).sent() == old(self).sent() && final(self).requests() == old(self).requests(),
    {
        self.total_since(0)
    }

    /// The number of recorded segments.
    pub fn session_count(&mut self) -> (r: Result<i64, StorageError>)
        ensures
            final(self).stamps() == old(self).stamps(),
            r is Ok || r matches Err(StorageError::Sqlite(_)),
            r matches Ok(count) ==> final(self).sent() == old(self).sent().push(stmt(COUNT_SESSIONS, seq![]))
                && final(self).requests() == old(self).requests().push(Request::SessionCount { count }),
            r is Err ==> final(self).sent() == old(self).sent() && final(self).requests() == old(self).requests(),
    {
        match sqlite_query_i64(&mut self.conn, COUNT_SESSIONS, no_params().as_slice()) {
            Ok(count) => {
                self.log = Ghost(self.log@.push(Request::SessionCount { count }));
                Ok(count)
            },
            Err(e) => Err(StorageError::Sqlite(e)),
        }
    }

    /// Open a workday (clock-in) at `clock_in_at`; returns its row id. The
    /// clock-out stays empty while on duty.
    pub fn workday_open(&mut self, clock_in_at: i64) -> (r: Result<i64, StorageError>)
        ensures
            final(self).stamps() == old(self).stamps(),
            r is Ok || r matches Err(StorageError::Sqlite(_)),
            r matches Ok(id) ==> final(self).sent() == old(self).sent().push(stmt(OPEN_WORKDAY, seq![clock_in_at]))
                && final(self).requests() == old(self).requests().push(Request::WorkdayOpen { clock_in_at, id }),
            r is Err ==> final(self).sent() == old(self).sent() && final(self).requests() == old(self).requests(),
    {
        match sqlite_execute(&mut self.conn, OPEN_WORKDAY, params1(clock_in_at).as_slice()) {
            Ok(_) => {
                let id = sqlite_last_insert_rowid(&self.conn);
                self.log = Ghost(self.log@.push(Request::WorkdayOpen { clock_in_at, id }));
                Ok(id)
            },
            Err(e) => Err(StorageError::Sqlite(e)),
        }
    }

    /// Close workday `id` (clock-out) at `clock_out_at`; a missing row is an error.
    pub fn workday_close(&mut self, id: i64, clock_out_at: i64) -> (r: Result<(), StorageError>)
        ensures
            final(self).stamps() == old(self).stamps(),
            r is Ok || r matches Err(StorageError::Sqlite(_)) || (r matches Err(StorageError::WorkdayMissing(missing)) && missing == id),
            !(r matches Err(StorageError::Sqlite(_))) ==> final(self).sent() == old(self).sent().push(
                stmt(CLOSE_WORKDAY, seq![clock_out_at, id]),
            ),
            r is Ok ==> exists|changed: usize|
                changed > 0 && final(self).requests() == old(self).requests().push(
                    #[trigger] close_request(id, clock_out_at, changed),
                ),
            r matches Err(StorageError::WorkdayMissing(_)) ==> final(self).requests() == old(self).requests().push(
                close_request(id, clock_out_at, 0),
            ),
            r matches Err(StorageError::Sqlite(_)) ==> final(self).sent() == old(self).sent()
                && final(self).requests() == old(self).requests(),
    {
        match sqlite_execute(&mut self.conn, CLOSE_WORKDAY, params2(clock_out_at, id).as_slice()) {
            Ok(changed) => {
                self.log = Ghost(self.log@.push(close_request(id, clock_out_at, changed)));
                close_outcome(id, changed)
            },
            Err(e) => Err(StorageError::Sqlite(e)),
        }
    }

    /// The newest workday `(id, clock_in_at, clock_out_at)`, or `None` when
    /// there is none; an empty clock-out means on duty.
    pub fn workday_latest(&mut self) -> (r: Result<Option<(i64, i64, Option<i64>)>, StorageError>)
        ensures
            final(self).stamps() == old(self).stamps(),
            r is Ok || r matches Err(StorageError::Sqlite(_)),
            r matches Ok(Some(_)) ==> final(self).sent() == old(self).sent().push(stmt(LATEST_WORKDAY, seq![])),
            !(r matches Ok(Some(_))) ==> final(self).sent() == old(self).sent(),
            r matches Ok(latest) ==> final(self).requests() == old(self).requests().push(
                Request::WorkdayLatest { latest },
            ),
            r is Err ==> final(self).requests() == old(self).requests(),
    {
        let found = match sqlite_query_workday(&mut self.conn, LATEST_WORKDAY) {
            Ok(latest) => Some(latest),
            Err(e) => {
                if sqlite_no_rows(&e) {
                    None
                } else {
                    return Err(StorageError::Sqlite(e));
                }
            },
        };
        self.log = Ghost(self.log@.push(Request::WorkdayLatest { latest: found }));
        Ok(found)
    }

    /// Undo the open transaction. A failure here is dropped: the error that
    /// made the transaction fail is the one reported.
    fn rollback(&mut self)
        ensures
            final(self).stamps() == old(self).stamps(),
            final(self).requests() == old(self).requests(),
    {
        let _ = sqlite_execute(&mut self.conn, ROLLBACK, no_params().as_slice());
    }

    /// In one transaction: insert the segment row `row` when there is one,
    /// and the event `(at, kind)`. On any failure neither is kept.
    pub fn record_session_with_event(&mut self, row: Option<(i64, i64)>, at: i64, kind: EventKind) -> (r: Result<(), StorageError>)
        ensures
            final(self).stamps() == old(self).stamps(),
            r is Ok || r matches Err(StorageError::Sqlite(_)),
            r is Ok ==> final(self).sent() == (old(self).sent().push(stmt(BEGIN, seq![])) + row_stmts(row)).push(
                event_stmt(at, kind),
            ).push(stmt(COMMIT, seq![])) && final(self).requests() == old(self).requests() + row_requests(
                row,
            ).push(event_request(at, kind)),
            r is Err ==> final(self).requests() == old(self).requests(),
    {
        let ghost start = self.sent();
        if let Err(e) = sqlite_execute(&mut self.conn, BEGIN, no_params().as_slice()) {
            return Err(StorageError::Sqlite(e));
        }
        if let Some((started_at, seconds)) = row {
            if let Err(e) = sqlite_execute(&mut self.conn, INSERT_SESSION, params2(started_at, seconds).as_slice()) {
                self.rollback();
                return Err(StorageError::Sqlite(e));
            }
        }
        proof {
            assert(self.sent() =~= start.push(stmt(BEGIN, seq![])) + row_stmts(row));
        }
        if let Err(e) = sqlite_execute_with_text(&mut self.conn, INSERT_EVENT, at, kind.as_str()) {
            self.rollback();
            return Err(StorageError::Sqlite(e));
        }
        if let Err(e) = sqlite_execute(&mut self.conn, COMMIT, no_params().as_slice()) {
            self.rollback();
            return Err(StorageError::Sqlite(e));
        }
        self.log = Ghost(self.log@ + row_requests(row).push(event_request(at, kind)));
        Ok(())
    }

    /// In one transaction: open a workday at `clock_in_at` and record the
    /// clock-in event there; returns the row id. On any failure neither is kept.
    pub fn workday_open_with_event(&mut self, clock_in_at: i64) -> (r: Result<i64, StorageError>)
        ensures
            final(self).stamps() == old(self).stamps(),
            r is Ok || r matches Err(StorageError::Sqlite(_)),
            r matches Ok(id) ==> final(self).sent() == old(self).sent().push(stmt(BEGIN, seq![])).push(
                stmt(OPEN_WORKDAY, seq![clock_in_at]),
            ).push(event_stmt(clock_in_at, EventKind::ClockIn)).push(stmt(COMMIT, seq![]))
                && final(self).requests() == old(self).requests().push(Request::WorkdayOpen { clock_in_at, id }).push(
                event_request(clock_in_at, EventKind::ClockIn),
            ),
            r is Err ==> final(self).requests() == old(self).requests(),
    {
        if let Err(e) = sqlite_execute(&mut self.conn, BEGIN, no_params().as_slice()) {
            return Err(StorageError::Sqlite(e));
        }
        if let Err(e) = sqlite_execute(&mut self.conn, OPEN_WORKDAY, params1(clock_in_at).as_slice()) {
            self.rollback();
            return Err(StorageError::Sqlite(e));
        }
        let id = sqlite_last_insert_rowid(&self.conn);
        if let Err(e) = sqlite_execute_with_text(
            &mut self.conn,
            INSERT_EVENT,
            clock_in_at,
            EventKind::ClockIn.as_str(),
        ) {
            self.rollback();
            return Err(StorageError::Sqlite(e));
        }
        if let Err(e) = sqlite_execute(&mut self.conn, COMMIT, no_params().as_slice()) {
            self.rollback();
            return Err(StorageError::Sqlite(e));
        }
        self.log = Ghost(self.log@.push(Request::WorkdayOpen { clock_in_at, id }).push(
            event_request(clock_in_at, EventKind::ClockIn),
        ));
        Ok(id)
    }

    /// In one transaction: close workday `id` at `at` and record the event
    /// `(at, kind)`. A missing row is an error; on any failure neither is kept.
    pub fn workday_close_with_event(&mut self, id: i64, at: i64, kind: EventKind) -> (r: Result<(), StorageError>)
        ensures
            final(self).stamps() == old(self).stamps(),
            r is Ok || r matches Err(StorageError::Sqlite(_)) || (r matches Err(StorageError::WorkdayMissing(missing)) && missing == id),
            r is Ok ==> final(self).sent() == old(self).sent().push(stmt(BEGIN, seq![])).push(
                stmt(CLOSE_WORKDAY, seq![at, id]),
            ).push(event_stmt(at, kind)).push(stmt(COMMIT, seq![])),
            r is Ok ==> exists|changed: usize|
                changed > 0 && final(self).requests() == old(self).requests().push(
                    #[trigger] close_request(id, at, changed),
                ).push(event_request(at, kind)),
            r is Err ==> final(self).requests() == old(self).requests(),
    {
        if let Err(e) = sqlite_execute(&mut self.conn, BEGIN, no_params().as_slice()) {
            return Err(StorageError::Sqlite(e));
        }
        let changed = match sqlite_execute(&mut self.conn, CLOSE_WORKDAY, params2(at, id).as_slice()) {
            Ok(changed) => changed,
            Err(e) => {
                self.rollback();
                return Err(StorageError::Sqlite(e));
            },
        };
        if let Err(e) = close_outcome(id, changed) {
            self.rollback();
            return Err(e);
        }
        if let Err(e) = sqlite_execute_with_text(&mut self.conn, INSERT_EVENT, at, kind.as_str()) {
            self.rollback();
            return Err(StorageError::Sqlite(e));
        }
        if let Err(e) = sqlite_execute(&mut self.conn, COMMIT, no_params().as_slice()) {
            self.rollback();
            return Err(StorageError::Sqlite(e));
        }
        self.log = Ghost(self.log@.push(close_request(id, at, changed)).push(event_request(at, kind)));
        Ok(())
    }

    /// Record an event, its kind stored as text.
    pub fn insert_event(&mut self, at: i64, kind: EventKind) -> (r: Result<(), StorageError>)
        ensures
            final(self).stamps() == old(self).stamps(),
            r is Ok || r matches Err(StorageError::Sqlite(_)),
            r is Ok ==> final(self).sent() == old(self).sent().push(event_stmt(at, kind))
                && final(self).requests() == old(self).requests().push(event_request(at, kind)),
            r is Err ==> final(self).sent() == old(self).sent() && final(self).requests() == old(self).requests(),
    {
        match sqlite_execute_with_text(&mut self.conn, INSERT_EVENT, at, kind.as_str()) {
            Ok(_) => {
                self.log = Ghost(self.log@.push(event_request(at, kind)));
                Ok(())
            },
            Err(e) => Err(StorageError::Sqlite(e)),
        }
    }

    /// Record an event with its kind text exactly as given (unchecked).
    pub fn insert_raw_event(&mut self, at: i64, kind: &str) -> (r: Result<(), StorageError>)
        ensures
            final(self).stamps() == old(self).stamps(),
            r is Ok || r matches Err(StorageError::Sqlite(_)),
            r is Ok ==> final(self).sent() == old(self).sent().push((INSERT_EVENT@, seq![at], kind@))
                && final(self).requests() == old(self).requests().push(Request::InsertEvent { at, kind: kind@ }),
            r is Err ==> final(self).sent() == old(self).sent() && final(self).requests() == old(self).requests(),
    {
        match sqlite_execute_with_text(&mut self.conn, INSERT_EVENT, at, kind) {
            Ok(_) => {
                self.log = Ghost(self.log@.push(Request::InsertEvent { at, kind: kind@ }));
                Ok(())
            },
            Err(e) => Err(StorageError::Sqlite(e)),
        }
    }

    /// The events in `[start, end)`, ordered by time (ties in recording
    /// order), typed; an unknown stored kind is an error.
    pub fn events_between(&mut self, start: i64, end: i64) -> (r: Result<Vec<(i64, EventKind)>, StorageError>)
        ensures
            final(self).stamps() == old(self).stamps(),
            r is Ok || r matches Err(StorageError::Sqlite(_)) || r matches Err(StorageError::UnknownEventKind(_)),
            r matches Err(StorageError::UnknownEventKind(text)) ==> kind_of_text(text@) is None,
            !(r matches Err(StorageError::Sqlite(_))) ==> final(self).sent() == old(self).sent().push(
                stmt(EVENTS_BETWEEN, seq![start, end]),
            ),
            r matches Err(StorageError::Sqlite(_)) ==> final(self).sent() == old(self).sent(),
            r matches Ok(events) ==> final(self).requests() == old(self).requests().push(
                events_request(start, end, events@),
            ),
            r is Err ==> final(self).requests() == old(self).requests(),
    {
        match sqlite_query_events(&mut self.conn, EVENTS_BETWEEN, start, end) {
            Ok(rows) => match events_from_rows(rows) {
                Ok(events) => {
                    self.log = Ghost(self.log@.push(events_request(start, end, events@)));
                    Ok(events)
                },
                Err(e) => Err(e),
            },
            Err(e) => Err(StorageError::Sqlite(e)),
        }
    }
}

} // verus!
