//! Runs over a bucket in memory and a database on disk.
use aws_sdk_s3::Client;
use resy::object::ListedObject;
use resy::remotes::aws;
use resy::s3::{CompactS3Object, S3};
use resy::statement::{Statement, Value};
use resy::sync::{Action, Event, Page, SyncRun};
use resy::{Change, S3Object};
use sqlx::sqlite::{SqliteConnectOptions, SqliteLockingMode};
use sqlx::{ConnectOptions, Connection, Row, SqliteConnection};
use std::path::Path;
use tempfile::NamedTempFile;
use tokio::runtime::Runtime;

/// A bucket that is listed in the order of its entries.
#[derive(Default)]
struct Bucket {
    entries: Vec<(String, String, i64)>,
    /// Whether the service cannot be reached.
    unreachable: bool,
}

impl Bucket {
    fn put(&mut self, key: &str, etag: &str, size: i64) {
        self.delete(key);
        self.entries.push((key.to_string(), etag.to_string(), size));
    }

    fn delete(&mut self, key: &str) {
        self.entries.retain(|entry| entry.0 != key);
    }

    fn list(&self, max_keys: i32, token: Option<String>) -> Page {
        let start: usize = token.map_or(0, |t| t.parse().unwrap());
        let end = (start + max_keys as usize).min(self.entries.len());
        let contents = self.entries[start..end]
            .iter()
            .map(|(key, etag, size)| ListedObject {
                key: Some(key.clone()),
                e_tag: Some(etag.clone()),
                size: Some(*size),
                last_modified: Some((1609459200, 500_000_000)),
            })
            .collect();
        let more = end < self.entries.len();
        Page {
            contents,
            is_truncated: Some(more),
            next_continuation_token: if more { Some(end.to_string()) } else { None },
        }
    }
}

/// A database of recorded states.
struct Db {
    runtime: Runtime,
    conn: SqliteConnection,
}

fn open(path: &Path) -> Result<Db, sqlx::Error> {
    let plan = S3::create_state_db();
    let mut options =
        SqliteConnectOptions::new().filename(path).create_if_missing(plan.create_if_missing);
    if plan.exclusive {
        options = options.locking_mode(SqliteLockingMode::Exclusive);
    }
    if !plan.statement_logging {
        options = options.disable_statement_logging();
    }
    let runtime = Runtime::new().unwrap();
    let conn = runtime.block_on(SqliteConnection::connect_with(&options))?;
    let mut db = Db { runtime, conn };
    for statement in &plan.statements {
        db.execute(statement)?;
    }
    Ok(db)
}

fn bound(
    statement: &Statement,
) -> sqlx::query::Query<'static, sqlx::Sqlite, sqlx::sqlite::SqliteArguments<'static>> {
    let mut query = sqlx::query(statement.sql);
    for parameter in &statement.parameters {
        query = match parameter {
            Value::Text(text) => query.bind(text.clone()),
            Value::Integer(number) => query.bind(*number),
        };
    }
    query
}

impl Db {
    fn execute(&mut self, statement: &Statement) -> Result<(), sqlx::Error> {
        self.runtime.block_on(bound(statement).execute(&mut self.conn))?;
        Ok(())
    }

    fn sql(&mut self, sql: &'static str) -> Result<(), sqlx::Error> {
        self.runtime.block_on(sqlx::query(sql).execute(&mut self.conn))?;
        Ok(())
    }

    fn rows(&mut self, statement: &Statement) -> Result<Vec<sqlx::sqlite::SqliteRow>, sqlx::Error> {
        self.runtime.block_on(bound(statement).fetch_all(&mut self.conn))
    }

    fn names(&mut self, kind: &str) -> Vec<String> {
        let query = sqlx::query("SELECT name FROM sqlite_master WHERE type=?1").bind(kind.to_string());
        let rows = self.runtime.block_on(query.fetch_all(&mut self.conn)).unwrap();
        rows.into_iter().map(|row| row.get(0)).collect()
    }

    /// The columns of the table of objects.
    fn columns(&mut self) -> Vec<String> {
        let query = sqlx::query("SELECT name FROM pragma_table_info('object_state')");
        let rows = self.runtime.block_on(query.fetch_all(&mut self.conn)).unwrap();
        rows.into_iter().map(|row| row.get(0)).collect()
    }

    /// The rows of both tables, in order.
    fn dump(&mut self) -> (Vec<(String, String, i64, i64)>, Vec<(String, String)>) {
        let query =
            sqlx::query("SELECT key, etag, size, last_modified FROM object_state ORDER BY key");
        let objects = self.runtime.block_on(query.fetch_all(&mut self.conn)).unwrap();
        let query = sqlx::query("SELECT key, value FROM metadata ORDER BY key");
        let facts = self.runtime.block_on(query.fetch_all(&mut self.conn)).unwrap();
        (
            objects.iter().map(|r| (r.get(0), r.get(1), r.get(2), r.get(3))).collect(),
            facts.iter().map(|r| (r.get(0), r.get(1))).collect(),
        )
    }

    /// The recorded keys, in order.
    fn keys(&mut self) -> Vec<String> {
        let query = sqlx::query("SELECT key FROM object_state ORDER BY key");
        let rows = self.runtime.block_on(query.fetch_all(&mut self.conn)).unwrap();
        rows.into_iter().map(|row| row.get(0)).collect()
    }
}

/// What a consumer got, and whether it was told of errors.
#[derive(Default)]
struct Received {
    changes: Vec<Change>,
    errors: Vec<String>,
    /// The actions of the run, by name.
    trace: Vec<String>,
}

fn event(outcome: Result<(), sqlx::Error>) -> Event<String> {
    match outcome {
        Ok(()) => Event::Done,
        Err(error) => Event::Failed(error.to_string()),
    }
}

/// Follows a run to its end. The consumer goes away after `wanted` changes, and the statements of
/// the action called `broken` fail.
fn drive(
    start: (SyncRun<String>, Action<String>),
    db: &mut Db,
    bucket: &Bucket,
    wanted: usize,
    broken: &str,
) -> Received {
    let mut received = Received::default();
    let (mut run, mut action) = start;
    loop {
        let name = format!("{:?}", action);
        let name: String = name.chars().take_while(|c| c.is_alphanumeric()).collect();
        received.trace.push(name.clone());
        let statement = action.statement();
        let outcome = if name == broken {
            Event::Failed(format!("{name} failed"))
        } else {
            match action {
                Action::Finish => return received,
                Action::Begin => event(db.sql("BEGIN")),
                Action::Commit => event(db.sql("COMMIT")),
                Action::Rollback => event(db.sql("ROLLBACK")),
                Action::List { max_keys, continuation_token, .. } => {
                    if bucket.unreachable {
                        Event::Failed("dispatch failure".to_string())
                    } else {
                        Event::Listed(bucket.list(max_keys, continuation_token))
                    }
                }
                Action::FetchPrevious { .. } => {
                    let rows = db.rows(&statement.unwrap()).unwrap();
                    Event::Fetched(rows.first().map(|row| CompactS3Object {
                        etag: row.get(0),
                        size: row.get(1),
                        last_modified: row.get(2),
                    }))
                }
                Action::FetchUnseen => {
                    let rows = db.rows(&statement.unwrap()).unwrap();
                    let found = rows.iter().map(|row| {
                        let state = CompactS3Object {
                            etag: row.get(1),
                            size: row.get(2),
                            last_modified: row.get(3),
                        };
                        (row.get(0), state)
                    });
                    Event::Unseen(found.collect())
                }
                Action::Send { change } => {
                    if received.changes.len() < wanted {
                        received.changes.push(change);
                        Event::Accepted
                    } else {
                        Event::Closed
                    }
                }
                Action::ReadClock => Event::Clock(1_700_000_000),
                Action::SendError { error } => {
                    received.errors.push(error);
                    Event::Done
                }
                _ => event(db.execute(&statement.unwrap())),
            }
        };
        let next = run.after(outcome);
        run = next.0;
        action = next.1;
    }
}

fn client() -> Client {
    let setup = S3::builder()
        .bucket("my-test-bucket")
        .region("us-east-1")
        .credentials("test", "test")
        .build()
        .unwrap();
    Client::from_conf(setup.config)
}

fn by_page(batch_size: Option<i32>) -> S3 {
    S3::from_client(client(), "my-test-bucket".to_string(), batch_size)
}

fn whole_run() -> aws::S3 {
    aws::S3::from_client(client(), "test-bucket".to_string())
}

/// The start of a run with a transaction for each page.
fn start(s3: &S3) -> (SyncRun<String>, Action<String>) {
    let (_, run, action) = s3.stream_changes("");
    (run, action)
}

/// A run with a transaction for each page.
fn sync(s3: &S3, path: &Path, bucket: &Bucket) -> Received {
    drive(start(s3), &mut open(path).unwrap(), bucket, usize::MAX, "")
}

/// A run with one transaction.
fn sync_whole(path: &Path, bucket: &Bucket) -> Received {
    let s3 = aws::S3::from_client(client(), "my-test-bucket".to_string());
    drive(s3.stream_diff_and_update(), &mut open(path).unwrap(), bucket, usize::MAX, "")
}

fn key(change: &Change) -> &str {
    match change {
        Change::Added(object) => &object.key,
        Change::Modified { new, .. } => &new.key,
        Change::Deleted(object) => &object.key,
    }
}

fn keys(changes: &[Change]) -> Vec<&str> {
    changes.iter().map(key).collect()
}

fn numbered(count: usize) -> Bucket {
    let mut bucket = Bucket::default();
    for i in 0..count {
        bucket.put(&format!("file-{:03}.txt", i), &format!("tag-{i}"), i as i64);
    }
    bucket
}

/// The life of one file, run by run.
fn follow_one_file(run: &dyn Fn(&Bucket) -> Received) {
    let mut bucket = Bucket::default();

    // 1. Initial check: No changes
    let changes = run(&bucket).changes;
    assert_eq!(changes.len(), 0);

    // 2. Add a file
    let key = "test-file.txt";
    let content = "Hello, Resy!";
    bucket.put(key, "first", content.len() as i64);
    let changes = run(&bucket).changes;
    assert_eq!(changes.len(), 1);
    match &changes[0] {
        Change::Added(obj) => {
            assert_eq!(obj.key, key);
            assert_eq!(obj.size, content.len() as i64);
        }
        _ => panic!("Expected Added change"),
    }

    // 3. Modify the file
    let updated_content = "Hello, Resy! Updated.";
    bucket.put(key, "second", updated_content.len() as i64);
    let changes = run(&bucket).changes;
    assert_eq!(changes.len(), 1);
    match &changes[0] {
        Change::Modified { old, new } => {
            assert_eq!(new.key, key);
            assert_eq!(old.size, content.len() as i64);
            assert_eq!(new.size, updated_content.len() as i64);
        }
        _ => panic!("Expected Modified change"),
    }

    // 4. Delete the file
    bucket.delete(key);
    let changes = run(&bucket).changes;
    assert_eq!(changes.len(), 1);
    match &changes[0] {
        Change::Deleted(obj) => {
            assert_eq!(obj.key, key);
            assert_eq!(obj.size, updated_content.len() as i64);
        }
        _ => panic!("Expected Deleted change"),
    }
}

#[test]
fn test_stream_changes() {
    let db_file = NamedTempFile::new().unwrap();
    let s3 = by_page(None);
    follow_one_file(&|bucket| sync(&s3, db_file.path(), bucket));
}

#[test]
fn test_stream_diff_and_update() {
    let db_file = NamedTempFile::new().unwrap();
    follow_one_file(&|bucket| sync_whole(db_file.path(), bucket));
}

#[test]
fn s3_integration_test_test_stream_stops_at_first_error() {
    let db_file = NamedTempFile::new().unwrap();
    let bucket = Bucket { unreachable: true, ..Bucket::default() };
    let s3 = S3::from_client(client(), "test-bucket".to_string(), None);
    let received = sync(&s3, db_file.path(), &bucket);
    assert_eq!(
        received.errors,
        vec!["dispatch failure".to_string()],
        "Should receive an error from invalid endpoint"
    );
    assert_eq!(
        received.changes.len(),
        0,
        "Stream should stop after first error, no more items should be yielded"
    );
    assert_eq!(received.trace.last().unwrap(), "Finish");
}

#[test]
fn aws_integration_test_test_stream_stops_at_first_error() {
    let db_file = NamedTempFile::new().unwrap();
    let bucket = Bucket { unreachable: true, ..Bucket::default() };
    let received = drive(
        whole_run().stream_diff_and_update(),
        &mut open(db_file.path()).unwrap(),
        &bucket,
        usize::MAX,
        "",
    );
    assert_eq!(
        received.errors,
        vec!["dispatch failure".to_string()],
        "Should receive an error from invalid endpoint"
    );
    assert_eq!(
        received.changes.len(),
        0,
        "Stream should stop after first error, no more items should be yielded"
    );
    assert_eq!(received.trace.last().unwrap(), "Finish");
}

#[test]
fn test_concurrent_db_access() {
    let db_file = NamedTempFile::new().unwrap();
    let first = open(db_file.path()).unwrap();
    let second = open(db_file.path());
    assert!(second.is_err());
    let cause = second.err().unwrap().to_string();
    assert!(
        S3::state_db_error(&db_file.path().display().to_string(), &cause)
            .contains("error returned from database: (code: 5) database is locked")
    );
    drop(first);
}

#[test]
fn test_per_batch_commit_crash_recovery() {
    let bucket = numbered(25);
    let db_file = NamedTempFile::new().unwrap();
    let db_path = db_file.path();
    let s3 = S3::from_client(client(), "batch-test-bucket".to_string(), Some(8));

    // First sync: Simulate a "crash" by only consuming first 10 changes
    let first_sync_changes =
        drive(start(&s3), &mut open(db_path).unwrap(), &bucket, 10, "").changes;
    assert_eq!(
        first_sync_changes.len(),
        10,
        "Should have processed 10 changes before 'crash'"
    );
    for change in &first_sync_changes {
        match change {
            Change::Added(_) => {}
            _ => panic!("Expected all changes to be Added in first sync"),
        }
    }

    // Second sync: Restart after "crash"
    // we should get 15 (remaining objects) + 2 (previous run - batch size)
    // we prefer to reprocess objects instead of silently ignoring them.
    let second_sync_changes = sync(&s3, db_path, &bucket).changes;
    assert_eq!(second_sync_changes.len(), 17);
    for change in &second_sync_changes {
        match change {
            Change::Added(_) => {}
            _ => panic!("Expected all changes to be Added in second sync"),
        }
    }

    // Third sync: Should report no changes since everything is synced
    let third_sync_changes = sync(&s3, db_path, &bucket).changes;
    assert_eq!(third_sync_changes.len(), 0);
}

fn check_send_sync<T: Send + Sync>(_: T) {}

#[test]
fn test_sync_send() {
    let setup = S3::builder()
        .bucket("my-bucket")
        .region("us-west-2")
        .credentials("key", "secret")
        .build()
        .unwrap();
    let s3 = S3::from_client(Client::from_conf(setup.config), setup.bucket, Some(setup.batch_size));
    check_send_sync(s3.stream_changes::<String>(""));
    check_send_sync(s3);
}

#[test]
fn mod_test_create_state_db() {
    let temp_file = NamedTempFile::new().unwrap();
    let mut db = open(temp_file.path()).unwrap();

    let tables = db.names("table");
    assert!(tables.contains(&"object_state".to_string()));
    assert!(tables.contains(&"metadata".to_string()));

    let index_exists = db.names("index").contains(&"idx_etag".to_string());
    assert!(index_exists);
}

/// Opens a database that has to exist.
fn open_whole(path: &Path) -> Result<Db, sqlx::Error> {
    let plan = aws::S3::create_state_db(&path.display().to_string());
    let runtime = Runtime::new().unwrap();
    let conn = runtime.block_on(SqliteConnection::connect(&plan.url))?;
    let mut db = Db { runtime, conn };
    for statement in &plan.statements {
        db.execute(statement)?;
    }
    Ok(db)
}

#[test]
fn aws_test_create_state_db() {
    let temp_file = NamedTempFile::new().unwrap();
    let mut db = open_whole(temp_file.path()).unwrap();

    let tables = db.names("table");
    assert!(tables.contains(&"object_state".to_string()));
    assert!(tables.contains(&"metadata".to_string()));

    let index_exists = db.names("index").contains(&"idx_etag".to_string());
    assert!(index_exists);
}

#[test]
fn a_whole_run_needs_a_database_that_exists() {
    let directory = tempfile::tempdir().unwrap();
    let path = directory.path().join("state.db");
    assert!(open_whole(&path).is_err());
    assert!(open(&path).is_ok());
    assert!(open_whole(&path).is_ok());
    assert_eq!(aws::S3::create_state_db("/tmp/x.db").url, "sqlite:/tmp/x.db");
}

#[test]
fn test_database_operations() {
    let temp_file = NamedTempFile::new().unwrap();
    let mut db = open_whole(temp_file.path()).unwrap();

    let insert = sqlx::query(
        "INSERT INTO object_state (key, etag, size, last_modified) VALUES (?1, ?2, ?3, ?4)",
    )
    .bind("test/file.txt")
    .bind("etag123")
    .bind(1024_i64)
    .bind(1609459200_i64);
    db.runtime.block_on(insert.execute(&mut db.conn)).unwrap();

    let select =
        sqlx::query("SELECT key, etag, size, last_modified FROM object_state WHERE key = ?1")
            .bind("test/file.txt");
    let row = db.runtime.block_on(select.fetch_one(&mut db.conn)).unwrap();

    let key: String = row.get(0);
    let etag: String = row.get(1);
    let size: i64 = row.get(2);
    let last_modified: i64 = row.get(3);

    assert_eq!(key, "test/file.txt");
    assert_eq!(etag, "etag123");
    assert_eq!(size, 1024);
    assert_eq!(last_modified, 1609459200);

    let rows = db.rows(&S3::fetch_previous_state("test/file.txt")).unwrap();
    assert_eq!(rows.len(), 1);
    assert_eq!(rows[0].get::<String, _>(0), "etag123");
    assert_eq!(rows[0].get::<i64, _>(1), 1024);
    assert_eq!(rows[0].get::<i64, _>(2), 1609459200);
}

#[test]
fn test_database_with_temp_seen_column() {
    let temp_file = NamedTempFile::new().unwrap();
    let mut db = open_whole(temp_file.path()).unwrap();

    let insert = sqlx::query(
        "INSERT INTO object_state (key, etag, size, last_modified) VALUES (?1, ?2, ?3, ?4)",
    )
    .bind("test/file.txt")
    .bind("etag123")
    .bind(1024_i64)
    .bind(1609459200_i64);
    db.runtime.block_on(insert.execute(&mut db.conn)).unwrap();

    db.sql("BEGIN").unwrap();
    db.execute(&S3::setup_temp_tracking_column().0).unwrap();
    db.execute(&S3::mark_object_seen("test/file.txt")).unwrap();

    let select =
        sqlx::query("SELECT temp_seen FROM object_state WHERE key = ?1").bind("test/file.txt");
    let row = db.runtime.block_on(select.fetch_one(&mut db.conn)).unwrap();
    let temp_seen: i32 = row.get(0);
    assert_eq!(temp_seen, 1);

    db.sql("COMMIT").unwrap();
}

#[test]
fn statements_do_what_they_say() {
    let temp_file = NamedTempFile::new().unwrap();
    let mut db = open(temp_file.path()).unwrap();
    let (add, reset) = S3::setup_temp_tracking_column();
    db.execute(&add).unwrap();
    assert!(db.execute(&add).is_err());
    let object = |key: &str, etag: &str| S3Object {
        key: key.to_string(),
        etag: etag.to_string(),
        size: 7,
        last_modified: resy::timestamp::Timestamp::from_timestamp(1609459200, 900_000_000).unwrap(),
    };
    db.execute(&S3::insert_object_state(&object("a", "1"))).unwrap();
    db.execute(&S3::insert_object_state(&object("b", "2"))).unwrap();
    db.execute(&S3::insert_object_state(&object("a", "3"))).unwrap();
    assert_eq!(db.keys(), vec!["a", "b"]);
    assert_eq!(db.rows(&S3::fetch_deleted_objects()).unwrap().len(), 0);

    let rows = db.rows(&S3::fetch_previous_state("a")).unwrap();
    assert_eq!(rows[0].get::<String, _>(0), "3");
    assert_eq!(rows[0].get::<i64, _>(2), 1609459200);
    assert!(db.rows(&S3::fetch_previous_state("c")).unwrap().is_empty());

    db.execute(&reset).unwrap();
    db.execute(&S3::mark_object_seen("b")).unwrap();
    let unseen = db.rows(&S3::fetch_deleted_objects()).unwrap();
    assert_eq!(unseen.len(), 1);
    assert_eq!(unseen[0].get::<String, _>(0), "a");
    assert_eq!(unseen[0].get::<String, _>(1), "3");
    assert_eq!(unseen[0].get::<i64, _>(2), 7);

    db.execute(&S3::delete_object_state("a")).unwrap();
    assert_eq!(db.keys(), vec!["b"]);
}

#[test]
fn the_end_of_a_run_is_recorded() {
    let db_file = NamedTempFile::new().unwrap();
    sync(&by_page(None), db_file.path(), &Bucket::default());
    let mut db = open(db_file.path()).unwrap();
    let query = sqlx::query("SELECT value FROM metadata WHERE key = 'last_updated'");
    let row = db.runtime.block_on(query.fetch_one(&mut db.conn)).unwrap();
    assert_eq!(row.get::<String, _>(0), "1700000000");
    assert_eq!(
        S3::update_last_sync_metadata(5),
        Statement {
            sql: "INSERT OR REPLACE INTO metadata (key, value) VALUES ('last_updated', ?1)",
            parameters: vec![Value::Integer(5)],
        }
    );
}

#[test]
fn actions_and_their_statements() {
    let action: Action<String> = Action::Delete { key: "k".to_string() };
    assert_eq!(action.statement(), Some(S3::delete_object_state("k")));
    let action: Action<String> = Action::DropSeenColumn;
    assert_eq!(action.statement(), Some(S3::cleanup_temp_column()));
    let action: Action<String> = Action::Begin;
    assert_eq!(action.statement(), None);
    let action: Action<String> = Action::Finish;
    assert_eq!(action.statement(), None);
}

#[test]
fn a_repeated_run_is_silent() {
    for batch_size in [1, 3, 7, 1000] {
        let db_file = NamedTempFile::new().unwrap();
        let bucket = numbered(7);
        let s3 = by_page(Some(batch_size));
        assert_eq!(sync(&s3, db_file.path(), &bucket).changes.len(), 7);
        assert_eq!(sync(&s3, db_file.path(), &bucket).changes.len(), 0);
        assert_eq!(sync_whole(db_file.path(), &bucket).changes.len(), 0);
    }
}

#[test]
fn pages_and_transactions_do_not_matter() {
    let mut earlier = numbered(5);
    let mut later = numbered(6);
    earlier.put("gone", "x", 1);
    later.put("file-002.txt", "changed", 9);
    later.delete("file-004.txt");
    let mut outcomes: Vec<(Vec<Change>, Vec<String>)> = Vec::new();
    for batch_size in [0, 1, 2, 1000] {
        let db_file = NamedTempFile::new().unwrap();
        let path = db_file.path();
        let run = |bucket: &Bucket| {
            if batch_size == 0 {
                sync_whole(path, bucket)
            } else {
                sync(&by_page(Some(batch_size)), path, bucket)
            }
        };
        run(&earlier);
        let mut changes = run(&later).changes;
        changes.sort_by(|a, b| key(a).cmp(key(b)));
        outcomes.push((changes, open(path).unwrap().keys()));
    }
    assert_eq!(
        keys(&outcomes[0].0),
        vec!["file-002.txt", "file-004.txt", "file-005.txt", "gone"]
    );
    for outcome in &outcomes[1..] {
        assert_eq!(outcome.0, outcomes[0].0);
        assert_eq!(outcome.1, outcomes[0].1);
    }
}

#[test]
fn the_database_ends_up_with_the_listed_keys() {
    let db_file = NamedTempFile::new().unwrap();
    let mut bucket = numbered(4);
    sync(&by_page(Some(2)), db_file.path(), &bucket);
    bucket.delete("file-001.txt");
    bucket.put("another", "t", 3);
    let changes = sync(&by_page(Some(2)), db_file.path(), &bucket).changes;
    assert_eq!(keys(&changes), vec!["another", "file-001.txt"]);
    assert!(matches!(changes[0], Change::Added(_)));
    assert!(matches!(changes[1], Change::Deleted(_)));
    assert_eq!(
        open(db_file.path()).unwrap().keys(),
        vec!["another", "file-000.txt", "file-002.txt", "file-003.txt"]
    );
}

#[test]
fn every_cut_loses_nothing_and_repeats_at_most_a_page() {
    for wanted in 0..12 {
        let db_file = NamedTempFile::new().unwrap();
        let path = db_file.path();
        let bucket = numbered(12);
        let s3 = by_page(Some(5));
        let first = drive(start(&s3), &mut open(path).unwrap(), &bucket, wanted, "");
        assert_eq!(first.changes.len(), wanted);
        assert!(first.errors.is_empty());
        let kept = open(path).unwrap().keys();
        assert_eq!(kept.len(), wanted / 5 * 5);
        let second = sync(&s3, path, &bucket).changes;
        assert!(first.changes.len() + second.len() - 12 <= 5);
        for entry in &bucket.entries {
            let times = keys(&first.changes).iter().filter(|k| **k == entry.0).count()
                + keys(&second).iter().filter(|k| **k == entry.0).count();
            assert!(times >= 1);
        }
        assert!(sync(&s3, path, &bucket).changes.is_empty());
    }
}

#[test]
fn a_whole_run_that_is_cut_leaves_nothing_behind() {
    let db_file = NamedTempFile::new().unwrap();
    let path = db_file.path();
    let bucket = numbered(3);
    let s3 = aws::S3::from_client(client(), "b".to_string());
    let first = drive(s3.stream_diff_and_update(), &mut open(path).unwrap(), &bucket, 2, "");
    assert_eq!(first.changes.len(), 2);
    assert!(open(path).unwrap().keys().is_empty());
    assert_eq!(sync_whole(path, &bucket).changes.len(), 3);
}

#[test]
fn a_deletion_that_was_not_taken_comes_again() {
    let db_file = NamedTempFile::new().unwrap();
    let path = db_file.path();
    let s3 = by_page(None);
    sync(&s3, path, &numbered(3));
    let nothing = Bucket::default();
    let first = drive(start(&s3), &mut open(path).unwrap(), &nothing, 1, "");
    assert_eq!(first.changes.len(), 1);
    assert_eq!(open(path).unwrap().keys().len(), 2);
    let second = sync(&s3, path, &nothing).changes;
    assert_eq!(second.len(), 2);
    assert!(second.iter().all(|change| matches!(change, Change::Deleted(_))));
    assert!(open(path).unwrap().keys().is_empty());
}

#[test]
fn any_failure_is_reported_once_and_ends_the_run() {
    for broken in [
        "ResetSeen",
        "Begin",
        "FetchPrevious",
        "Insert",
        "Commit",
        "FetchUnseen",
        "RecordSync",
    ] {
        let db_file = NamedTempFile::new().unwrap();
        let path = db_file.path();
        let bucket = numbered(3);
        let s3 = by_page(None);
        let received =
            drive(start(&s3), &mut open(path).unwrap(), &bucket, usize::MAX, broken);
        assert_eq!(received.errors, vec![format!("{broken} failed")]);
        let trace = &received.trace;
        assert_eq!(trace[trace.len() - 2..], ["SendError".to_string(), "Finish".to_string()]);
        let whole = aws::S3::from_client(client(), "b".to_string());
        let other = NamedTempFile::new().unwrap();
        let received = drive(
            whole.stream_diff_and_update(),
            &mut open(other.path()).unwrap(),
            &bucket,
            usize::MAX,
            broken,
        );
        assert_eq!(received.errors, vec![format!("{broken} failed")]);
        assert!(open(other.path()).unwrap().keys().is_empty());
    }
}

#[test]
fn marking_and_deleting_can_fail_too() {
    let db_file = NamedTempFile::new().unwrap();
    let path = db_file.path();
    let s3 = by_page(None);
    sync(&s3, path, &numbered(2));
    let marked =
        drive(start(&s3), &mut open(path).unwrap(), &numbered(2), usize::MAX, "MarkSeen");
    assert_eq!(marked.errors, vec!["MarkSeen failed".to_string()]);
    let deleted = drive(
        start(&s3),
        &mut open(path).unwrap(),
        &Bucket::default(),
        usize::MAX,
        "Delete",
    );
    assert_eq!(deleted.errors, vec!["Delete failed".to_string()]);
    assert_eq!(deleted.changes.len(), 1);
    assert_eq!(open(path).unwrap().keys().len(), 2);
}

#[test]
fn the_column_of_marks_may_stay() {
    let db_file = NamedTempFile::new().unwrap();
    let path = db_file.path();
    let bucket = numbered(2);
    let s3 = by_page(None);
    let received =
        drive(start(&s3), &mut open(path).unwrap(), &bucket, usize::MAX, "DropSeenColumn");
    assert!(received.errors.is_empty());
    let received =
        drive(start(&s3), &mut open(path).unwrap(), &bucket, usize::MAX, "AddSeenColumn");
    assert!(received.errors.is_empty());
    assert!(received.changes.is_empty());
}

#[test]
fn entries_with_a_missing_field_are_skipped() {
    let s3 = by_page(None);
    let (run, _) = start(&s3);
    let (run, _) = run.after(Event::Done);
    let (run, _) = run.after(Event::Done);
    let (run, _) = run.after(Event::Done);
    let page = Page {
        contents: vec![
            ListedObject {
                key: None,
                e_tag: Some("e".to_string()),
                size: Some(1),
                last_modified: Some((0, 0)),
            },
            ListedObject {
                key: Some("k".to_string()),
                e_tag: Some("e".to_string()),
                size: Some(1),
                last_modified: Some((0, 0)),
            },
        ],
        is_truncated: None,
        next_continuation_token: Some("ignored".to_string()),
    };
    let (run, action) = run.after(Event::Listed(page));
    assert!(matches!(action, Action::FetchPrevious { ref key } if key == "k"));
    let (run, action) = run.after(Event::Fetched(None));
    assert!(matches!(action, Action::Insert { ref object } if object.key == "k"));
    let (run, action) = run.after(Event::Done);
    assert!(matches!(action, Action::Send { change: Change::Added(_) }));
    let (run, action) = run.after(Event::Accepted);
    assert!(matches!(action, Action::Commit));
    let (_, action) = run.after(Event::Done);
    assert!(matches!(action, Action::FetchUnseen));
}

#[test]
fn a_truncated_page_is_followed_by_the_next_one() {
    let s3 = by_page(Some(1));
    let (run, _) = start(&s3);
    let (run, _) = run.after(Event::Done);
    let (run, _) = run.after(Event::Done);
    let (run, _) = run.after(Event::Done);
    let page = Page {
        contents: vec![],
        is_truncated: Some(true),
        next_continuation_token: Some("token".to_string()),
    };
    let (run, action) = run.after(Event::Listed(page));
    assert!(matches!(action, Action::Commit));
    let (run, action) = run.after(Event::Done);
    assert!(matches!(action, Action::Begin));
    let (_, action) = run.after(Event::Done);
    assert!(
        matches!(action, Action::List { continuation_token: Some(ref t), .. } if t == "token")
    );
}

#[test]
fn an_outcome_that_does_not_belong_ends_the_run() {
    let s3 = by_page(None);
    let (run, _) = start(&s3);
    let (run, action) = run.after(Event::Accepted);
    assert!(matches!(action, Action::Finish));
    let (_, action) = run.after(Event::Done);
    assert!(matches!(action, Action::Finish));
}

#[test]
fn a_failure_inside_a_page_drops_its_transaction_first() {
    let db_file = NamedTempFile::new().unwrap();
    let path = db_file.path();
    let s3 = by_page(Some(2));
    let received =
        drive(start(&s3), &mut open(path).unwrap(), &numbered(2), usize::MAX, "Insert");
    let trace = &received.trace;
    assert_eq!(
        trace[trace.len() - 4..],
        [
            "Insert".to_string(),
            "Rollback".to_string(),
            "SendError".to_string(),
            "Finish".to_string()
        ]
    );
}

#[test]
fn what_the_database_error_says() {
    assert_eq!(
        S3::state_db_error("/tmp/a.db", "no"),
        "Failed to create state database at /tmp/a.db: no"
    );
}

#[test]
fn the_same_key_listed_twice_is_reported_twice() {
    let db_file = NamedTempFile::new().unwrap();
    let path = db_file.path();
    let mut bucket = Bucket::default();
    bucket.entries.push(("k".to_string(), "e1".to_string(), 1));
    bucket.entries.push(("k".to_string(), "e2".to_string(), 2));
    let s3 = by_page(None);
    assert_eq!(sync(&s3, path, &bucket).changes.len(), 2);
    assert_eq!(sync(&s3, path, &bucket).changes.len(), 2);
}

#[test]
fn work_is_bounded_by_what_was_listed_and_handed_over() {
    let db_file = NamedTempFile::new().unwrap();
    let path = db_file.path();
    let s3 = by_page(Some(4));
    let bucket = numbered(10);
    // Three pages, ten objects, ten changes.
    assert!(sync(&s3, path, &bucket).trace.len() <= 4 * 10 + 3 * 3 + 2 * 10 + 14);
    // The same again without a change.
    assert!(sync(&s3, path, &bucket).trace.len() <= 4 * 10 + 3 * 3 + 14);
    // One empty page and ten deletions.
    assert!(sync(&s3, path, &Bucket::default()).trace.len() <= 3 + 2 * 10 + 14);
}

#[test]
fn the_same_entry_listed_twice_is_reported_once() {
    let db_file = NamedTempFile::new().unwrap();
    let path = db_file.path();
    let mut bucket = Bucket::default();
    bucket.entries.push(("k".to_string(), "e1".to_string(), 1));
    bucket.entries.push(("k".to_string(), "e1".to_string(), 1));
    let s3 = by_page(Some(1));
    assert_eq!(sync(&s3, path, &bucket).changes.len(), 1);
    assert_eq!(sync(&s3, path, &bucket).changes.len(), 0);
}

#[test]
fn the_clean_up_drops_the_column_and_keeps_the_rows() {
    let temp_file = NamedTempFile::new().unwrap();
    let mut db = open(temp_file.path()).unwrap();
    db.execute(&S3::setup_temp_tracking_column().0).unwrap();
    for (key, etag, size) in [("a", "1", 10), ("b", "2", 20)] {
        let object = S3Object {
            key: key.to_string(),
            etag: etag.to_string(),
            size,
            last_modified: resy::timestamp::Timestamp::from_timestamp(1609459200, 0).unwrap(),
        };
        db.execute(&S3::insert_object_state(&object)).unwrap();
    }
    let before = db.dump();
    assert!(db.columns().contains(&"temp_seen".to_string()));
    assert_eq!(
        S3::cleanup_temp_column().sql,
        "ALTER TABLE object_state DROP COLUMN temp_seen"
    );
    db.execute(&S3::cleanup_temp_column()).unwrap();
    assert_eq!(db.columns(), vec!["key", "etag", "size", "last_modified"]);
    assert_eq!(db.dump(), before);
    assert_eq!(before.0.len(), 2);
    // There is nothing left to drop.
    assert!(db.execute(&S3::cleanup_temp_column()).is_err());
}

#[test]
fn a_completed_run_leaves_no_column_behind() {
    let db_file = NamedTempFile::new().unwrap();
    let path = db_file.path();
    let bucket = numbered(5);
    for _ in 0..2 {
        sync(&by_page(Some(2)), path, &bucket);
        assert_eq!(
            open(path).unwrap().columns(),
            vec!["key", "etag", "size", "last_modified"]
        );
        sync_whole(path, &bucket);
        assert_eq!(
            open(path).unwrap().columns(),
            vec!["key", "etag", "size", "last_modified"]
        );
    }
    assert_eq!(open(path).unwrap().keys().len(), 5);
}

#[test]
fn a_column_that_was_left_over_does_not_matter() {
    let db_file = NamedTempFile::new().unwrap();
    let path = db_file.path();
    let s3 = by_page(Some(2));
    let received =
        drive(start(&s3), &mut open(path).unwrap(), &numbered(4), usize::MAX, "DropSeenColumn");
    assert_eq!(received.changes.len(), 4);
    assert!(open(path).unwrap().columns().contains(&"temp_seen".to_string()));
    let mut bucket = numbered(4);
    bucket.delete("file-001.txt");
    assert_eq!(keys(&sync(&s3, path, &bucket).changes), vec!["file-001.txt"]);
    assert!(!open(path).unwrap().columns().contains(&"temp_seen".to_string()));
}

#[test]
fn an_error_is_reported_although_the_rollback_fails() {
    let s3 = by_page(None);
    let (run, _) = start(&s3);
    let (run, _) = run.after(Event::Done);
    let (run, _) = run.after(Event::Done);
    let (run, action) = run.after(Event::Done);
    assert!(matches!(action, Action::List { .. }));
    let (run, action) = run.after(Event::Failed("dispatch failure".to_string()));
    assert!(matches!(action, Action::Rollback));
    let (run, action) = run.after(Event::Failed("no transaction".to_string()));
    assert!(matches!(action, Action::SendError { ref error } if error == "dispatch failure"));
    let (_, action) = run.after(Event::Done);
    assert!(matches!(action, Action::Finish));
}

#[test]
fn opening_a_database_again_keeps_its_rows() {
    let db_file = NamedTempFile::new().unwrap();
    let path = db_file.path();
    sync(&by_page(None), path, &numbered(3));
    let before = open(path).unwrap().dump();
    assert_eq!(before.0.len(), 3);
    assert_eq!(before.1, vec![("last_updated".to_string(), "1700000000".to_string())]);
    assert_eq!(open(path).unwrap().dump(), before);
    assert_eq!(open_whole(path).unwrap().dump(), before);
}

#[test]
fn the_database_holds_the_completed_pages_and_nothing_of_the_next() {
    for broken_after in 0..9 {
        let db_file = NamedTempFile::new().unwrap();
        let path = db_file.path();
        let s3 = by_page(Some(3));
        drive(start(&s3), &mut open(path).unwrap(), &numbered(9), broken_after, "");
        assert_eq!(open(path).unwrap().keys().len(), broken_after / 3 * 3);
    }
}

#[test]
fn owed_changes_follow_even_where_a_key_is_listed_again() {
    let mut bucket = Bucket::default();
    for (key, etag, size) in
        [("k", "e1", 1), ("k", "e2", 2), ("k", "e1", 3), ("m", "x", 4), ("k", "e3", 5)]
    {
        bucket.entries.push((key.to_string(), etag.to_string(), size));
    }
    let whole = NamedTempFile::new().unwrap();
    let owed = sync(&by_page(None), whole.path(), &bucket).changes;
    assert_eq!(owed.len(), 5);
    for batch_size in 1..4 {
        for wanted in 0..5 {
            let db_file = NamedTempFile::new().unwrap();
            let path = db_file.path();
            let s3 = by_page(Some(batch_size));
            let first = drive(start(&s3), &mut open(path).unwrap(), &bucket, wanted, "").changes;
            assert_eq!(first[..], owed[..wanted]);
            let second = sync(&s3, path, &bucket).changes;
            for change in &owed[wanted..] {
                assert!(second.contains(change));
            }
        }
    }
}

#[test]
fn a_whole_run_hands_its_error_over_before_it_drops_its_transaction() {
    for (broken, end) in [
        ("ResetSeen", ["ResetSeen", "SendError", "Rollback", "Finish"]),
        ("FetchPrevious", ["FetchPrevious", "SendError", "Rollback", "Finish"]),
        ("Insert", ["Insert", "SendError", "Rollback", "Finish"]),
        ("RecordSync", ["RecordSync", "SendError", "Rollback", "Finish"]),
        // A failed commit takes its transaction along.
        ("Commit", ["Commit", "Rollback", "SendError", "Finish"]),
    ] {
        let db_file = NamedTempFile::new().unwrap();
        let path = db_file.path();
        let before = open(path).unwrap().dump();
        let received = drive(
            whole_run().stream_diff_and_update(),
            &mut open(path).unwrap(),
            &numbered(2),
            usize::MAX,
            broken,
        );
        let trace = &received.trace;
        assert_eq!(trace[trace.len() - 4..], end.map(str::to_string));
        assert_eq!(received.errors, vec![format!("{broken} failed")]);
        assert_eq!(open(path).unwrap().dump(), before);
    }
    let db_file = NamedTempFile::new().unwrap();
    let received = drive(
        whole_run().stream_diff_and_update(),
        &mut open(db_file.path()).unwrap(),
        &numbered(2),
        usize::MAX,
        "Begin",
    );
    assert_eq!(received.trace, vec!["Begin", "SendError", "Finish"]);
}

#[test]
fn a_run_that_ended_with_an_error_leaves_the_time_of_the_last_one() {
    for broken in ["ResetSeen", "List", "Insert", "Commit", "FetchUnseen", "RecordSync"] {
        let db_file = NamedTempFile::new().unwrap();
        let path = db_file.path();
        let s3 = by_page(None);
        sync(&s3, path, &numbered(1));
        let mut db = open(path).unwrap();
        db.sql("UPDATE metadata SET value = '1600000000'").unwrap();
        drive(start(&s3), &mut db, &numbered(2), usize::MAX, broken);
        assert_eq!(
            db.dump().1,
            vec![("last_updated".to_string(), "1600000000".to_string())]
        );
    }
}

#[test]
fn the_former_side_is_what_was_handed_over_last() {
    let db_file = NamedTempFile::new().unwrap();
    let path = db_file.path();
    let s3 = by_page(None);
    let mut bucket = Bucket::default();
    for (etag, size) in [("e1", 1), ("e2", 2), ("e2", 3)] {
        bucket.entries.push(("k".to_string(), etag.to_string(), size));
    }
    let first = sync(&s3, path, &bucket).changes;
    let last = match first.last() {
        Some(Change::Modified { new, .. }) => new.clone(),
        _ => panic!("Expected Modified change"),
    };
    assert_eq!((last.etag.as_str(), last.size), ("e2", 2));
    bucket.put("k", "e3", 4);
    match &sync(&s3, path, &bucket).changes[0] {
        Change::Modified { old, .. } => {
            assert_eq!((old.etag.as_str(), old.size), ("e2", 2));
            assert_eq!(old.last_modified.timestamp(), last.last_modified.timestamp());
        }
        _ => panic!("Expected Modified change"),
    }
    bucket.delete("k");
    assert!(matches!(sync(&s3, path, &bucket).changes[0], Change::Deleted(_)));
    bucket.put("k", "e3", 4);
    assert!(matches!(sync(&s3, path, &bucket).changes[0], Change::Added(_)));
}
