//! Monitoring of a bucket, with one database transaction for each page of its listing.
use crate::builder::{BuilderView, DEFAULT_BATCH_SIZE};
use crate::object::{ChangeView, ListedObject, ListedView, ObjectView};
use crate::statement::{
    plain, schema, schema_statements, Statement, StatementView, Value, ValueView, ADD_SEEN_COLUMN,
    DELETE_STATE, DROP_SEEN_COLUMN, FETCH_PREVIOUS, FETCH_UNSEEN, INSERT_STATE, MARK_SEEN,
    RECORD_SYNC, RESET_SEEN,
};
use crate::sync::{Action, SyncRun, Target, TargetView, TransactionScope};
use crate::timestamp::{instant_or_epoch, Timestamp};
use crate::views::{viewed, views};
use aws_sdk_s3::Client;
use vstd::prelude::*;

pub use crate::builder::{S3Builder, S3BuilderError, S3Setup};
pub use crate::object::{Change, S3Object};

verus! {

/// The recorded state of an object, under its key.
#[derive(Debug)]
pub struct CompactS3Object {
    pub etag: String,
    pub size: i64,
    /// Seconds since the epoch.
    pub last_modified: i64,
}

/// What a [`CompactS3Object`] stands for.
pub struct CompactView {
    pub etag: Seq<char>,
    pub size: i64,
    pub last_modified: i64,
}

impl View for CompactS3Object {
    type V = CompactView;

    open spec fn view(&self) -> CompactView {
        CompactView { etag: self.etag@, size: self.size, last_modified: self.last_modified }
    }
}

impl Clone for CompactS3Object {
    fn clone(&self) -> (copy: CompactS3Object)
        ensures
            copy@ == self@,
    {
        CompactS3Object {
            etag: self.etag.clone(),
            size: self.size,
            last_modified: self.last_modified,
        }
    }
}

/// The object that a recorded state was recorded for. A time that cannot be represented is read as
/// the epoch.
pub open spec fn restored(key: Seq<char>, state: CompactView) -> ObjectView {
    ObjectView {
        key,
        etag: state.etag,
        size: state.size,
        last_modified: instant_or_epoch(state.last_modified as int, 0),
    }
}

/// The state that is recorded for an object.
pub open spec fn stored(object: ObjectView) -> CompactView {
    CompactView {
        etag: object.etag,
        size: object.size,
        last_modified: object.last_modified.secs as i64,
    }
}

/// The change that an object stands for, given its recorded state: an object without one is new,
/// and one whose entity tag differs was modified.
pub open spec fn judged(current: ObjectView, previous: Option<CompactView>) -> Option<ChangeView> {
    match previous {
        None => Some(ChangeView::Added(current)),
        Some(state) => if state.etag != current.etag {
            Some(ChangeView::Modified { old: restored(current.key, state), new: current })
        } else {
            None
        },
    }
}

/// The object that an entry of a listing describes, if no field of the entry is missing.
pub open spec fn parsed(entry: ListedView) -> Option<ObjectView> {
    match (entry.key, entry.e_tag, entry.size, entry.last_modified) {
        (Some(key), Some(etag), Some(size), Some((secs, nanos))) => Some(
            ObjectView {
                key,
                etag,
                size,
                last_modified: instant_or_epoch(secs as int, nanos as int),
            },
        ),
        _ => None,
    }
}

/// What is done about an object of a listing.
#[derive(Debug)]
pub struct ObjectPlan {
    /// The change to hand over. Where there is one, the state of the object is recorded.
    pub change: Option<Change>,
    /// Whether the object is marked as seen on its own, before anything is recorded.
    pub mark_seen: bool,
}

/// `aws_sdk_s3::Client`, a handle on the service.
#[verifier::external_type_specification]
#[verifier::external_body]
pub struct ExClient(Client);

/// `<aws_sdk_s3::Client as Clone>::clone`. Claimed: the copy is a handle on the same client.
#[verifier::external_body]
fn clone_client(client: &Client) -> (copy: Client)
    ensures
        copy == *client,
{
    client.clone()
}

/// How the database of recorded states is opened.
#[derive(Debug)]
pub struct StateDb {
    /// Whether the database is created where there is none.
    pub create_if_missing: bool,
    /// Whether the database is locked for as long as it is open, so that only one process can use
    /// it at a time.
    pub exclusive: bool,
    /// Whether statements are logged.
    pub statement_logging: bool,
    /// What is executed at once, in order.
    pub statements: Vec<Statement>,
}

/// What a [`StateDb`] stands for.
pub struct StateDbView {
    pub create_if_missing: bool,
    pub exclusive: bool,
    pub statement_logging: bool,
    pub statements: Seq<StatementView>,
}

impl View for StateDb {
    type V = StateDbView;

    open spec fn view(&self) -> StateDbView {
        StateDbView {
            create_if_missing: self.create_if_missing,
            exclusive: self.exclusive,
            statement_logging: self.statement_logging,
            statements: views(self.statements@),
        }
    }
}

/// The statement that records the state of an object, and marks it.
pub open spec fn insertion(object: ObjectView) -> StatementView {
    StatementView {
        sql: INSERT_STATE@,
        parameters: seq![
            ValueView::Text(object.key),
            ValueView::Text(object.etag),
            ValueView::Integer(stored(object).size),
            ValueView::Integer(stored(object).last_modified),
        ],
    }
}

/// A statement whose one parameter is the key of an object.
pub open spec fn about_key(sql: Seq<char>, key: Seq<char>) -> StatementView {
    StatementView { sql, parameters: seq![ValueView::Text(key)] }
}

/// The statement that records when a run came to its end.
pub open spec fn sync_record(now: i64) -> StatementView {
    StatementView { sql: RECORD_SYNC@, parameters: seq![ValueView::Integer(now)] }
}

/// What is reported where the database cannot be opened.
pub open spec fn open_failure(db_path: Seq<char>, cause: Seq<char>) -> Seq<char> {
    "Failed to create state database at "@ + db_path + ": "@ + cause
}

/// S3 client for monitoring bucket changes
#[derive(Debug)]
pub struct S3 {
    client: Client,
    bucket: String,
    batch_size: i32,
}

/// What an [`S3`] stands for.
pub struct S3View {
    pub client: Client,
    pub bucket: Seq<char>,
    pub batch_size: i32,
}

impl View for S3 {
    type V = S3View;

    closed spec fn view(&self) -> S3View {
        S3View { client: self.client, bucket: self.bucket@, batch_size: self.batch_size }
    }
}

impl Clone for S3 {
    fn clone(&self) -> (copy: S3)
        ensures
            copy@ == self@,
    {
        S3 {
            client: clone_client(&self.client),
            bucket: self.bucket.clone(),
            batch_size: self.batch_size,
        }
    }
}

impl S3View {
    /// The path of the database: the given one, or one made from the name of the bucket where none
    /// is given.
    pub open spec fn db_path(self, given: Seq<char>) -> Seq<char> {
        if given.len() == 0 {
            self.bucket + ".db"@
        } else {
            given
        }
    }

    /// What a run over the bucket works on.
    pub open spec fn target(self) -> TargetView {
        TargetView {
            scope: TransactionScope::PerPage,
            bucket: self.bucket,
            max_keys: self.batch_size,
        }
    }
}

impl S3 {
    /// Create a new S3Builder to configure and build an S3 client
    pub fn builder() -> (builder: S3Builder)
        ensures
            builder@ == BuilderView::fresh(),
    {
        S3Builder::new()
    }

    /// Create an S3 instance from an existing AWS SDK S3 client
    pub fn from_client(client: Client, bucket: String, batch_size: Option<i32>) -> (s3: S3)
        ensures
            s3@ == (S3View {
                client,
                bucket: bucket@,
                batch_size: match batch_size {
                    Some(size) => size,
                    None => DEFAULT_BATCH_SIZE,
                },
            }),
    {
        let batch_size: i32 = match batch_size {
            Some(size) => size,
            None => DEFAULT_BATCH_SIZE,
        };
        S3 { client, bucket, batch_size }
    }

    /// The client that the bucket is listed with.
    pub fn client(&self) -> (client: &Client)
        ensures
            *client == self@.client,
    {
        &self.client
    }

    /// How the database is opened. It is acquired with an exclusive lock, so only one process can
    /// use it at a time. A transaction is not needed.
    pub fn create_state_db() -> (db: StateDb)
        ensures
            db@ == (StateDbView {
                create_if_missing: true,
                exclusive: true,
                statement_logging: false,
                statements: schema(),
            }),
    {
        StateDb {
            create_if_missing: true,
            exclusive: true,
            statement_logging: false,
            statements: schema_statements(),
        }
    }

    /// What is reported where the database at `db_path` cannot be opened.
    pub fn state_db_error(db_path: &str, cause: &str) -> (text: String)
        ensures
            text@ == open_failure(db_path@, cause@),
    {
        let mut text = String::from("Failed to create state database at ");
        text.append(db_path);
        text.append(": ");
        text.append(cause);
        text
    }

    /// The database that a run is to use: the one at the given path, or one that is named after
    /// the bucket where the path is empty.
    pub fn db_path(&self, given: &str) -> (path: String)
        ensures
            path@ == self@.db_path(given@),
    {
        if given.is_empty() {
            let mut path = self.bucket.clone();
            path.append(".db");
            path
        } else {
            String::from(given)
        }
    }

    /// Starts a run over the bucket, using the given or auto-generated database path: its changes
    /// come one by one.
    pub fn stream_changes<E>(&self, db_path: &str) -> (first: (String, SyncRun<E>, Action<E>))
        ensures
            first.0@ == self@.db_path(db_path@),
            (first.1@, first.2@) == self@.target().started::<E>(),
    {
        let (run, action) = self.stream_diff_and_update();
        (self.db_path(db_path), run, action)
    }

    /// Starts a run over the bucket, which hands over every change and records it.
    pub fn stream_diff_and_update<E>(&self) -> (first: (SyncRun<E>, Action<E>))
        ensures
            (first.0@, first.1@) == self@.target().started::<E>(),
    {
        SyncRun::start(
            Target {
                scope: TransactionScope::PerPage,
                bucket: self.bucket.clone(),
                max_keys: self.batch_size,
            },
        )
    }

    /// The change that `current_obj` stands for, given what was recorded for it before.
    pub fn determine_change(
        current_obj: &S3Object,
        previous_state: Option<CompactS3Object>,
    ) -> (change: Option<Change>)
        ensures
            viewed(change) == judged(current_obj@, viewed(previous_state)),
    {
        match previous_state {
            None => Some(Change::Added(current_obj.clone())),
            Some(prev_obj) => if prev_obj.etag != current_obj.etag {
                Some(
                    Change::Modified {
                        old: Self::compact_to_s3_object(&current_obj.key, &prev_obj),
                        new: current_obj.clone(),
                    },
                )
            } else {
                None
            },
        }
    }

    /// What is done about `current_obj`, given what was recorded for it before.
    pub fn process_s3_object(
        current_obj: &S3Object,
        previous_state: Option<CompactS3Object>,
    ) -> (plan: ObjectPlan)
        ensures
            viewed(plan.change) == judged(current_obj@, viewed(previous_state)),
            plan.mark_seen == previous_state is Some,
    {
        let mark_seen = previous_state.is_some();
        ObjectPlan { change: Self::determine_change(current_obj, previous_state), mark_seen }
    }

    /// The object that an entry of a listing describes. An entry with a missing field gives none.
    pub fn parse_aws_object(obj: &ListedObject) -> (object: Option<S3Object>)
        ensures
            viewed(object) == parsed(obj@),
    {
        match (&obj.key, &obj.e_tag, obj.size, obj.last_modified) {
            (Some(key), Some(etag), Some(size), Some((secs, nanos))) => Some(
                S3Object {
                    key: key.clone(),
                    etag: etag.clone(),
                    size,
                    last_modified: Timestamp::from_timestamp_or_default(secs, nanos),
                },
            ),
            _ => None,
        }
    }

    /// The object that `compact` was recorded for.
    pub fn compact_to_s3_object(key: &str, compact: &CompactS3Object) -> (object: S3Object)
        ensures
            object@ == restored(key@, compact@),
    {
        S3Object {
            key: String::from(key),
            etag: compact.etag.clone(),
            size: compact.size,
            last_modified: Timestamp::from_timestamp_or_default(compact.last_modified, 0),
        }
    }

    /// Records the state of `obj`, and marks it as seen.
    pub fn insert_object_state(obj: &S3Object) -> (statement: Statement)
        ensures
            statement@ == insertion(obj@),
    {
        let statement = Statement {
            sql: INSERT_STATE,
            parameters: vec![
                Value::Text(obj.key.clone()),
                Value::Text(obj.etag.clone()),
                Value::Integer(obj.size),
                Value::Integer(obj.last_modified.timestamp()),
            ],
        };
        assert(statement@.parameters =~= insertion(obj@).parameters);
        statement
    }

    /// Marks a recorded object as seen.
    pub fn mark_object_seen(key: &str) -> (statement: Statement)
        ensures
            statement@ == about_key(MARK_SEEN@, key@),
    {
        Statement::with_text(MARK_SEEN, key)
    }

    /// Sets up the temporary column in which objects are marked. The first statement adds the
    /// column, and may fail where it is there; the second resets every mark.
    pub fn setup_temp_tracking_column() -> (statements: (Statement, Statement))
        ensures
            statements.0@ == plain(ADD_SEEN_COLUMN@),
            statements.1@ == plain(RESET_SEEN@),
    {
        (Statement::plain(ADD_SEEN_COLUMN), Statement::plain(RESET_SEEN))
    }

    /// Drops the temporary column, for the next run. A failure does not matter: SQLite before
    /// version 3.35.0 cannot drop a column.
    pub fn cleanup_temp_column() -> (statement: Statement)
        ensures
            statement@ == plain(DROP_SEEN_COLUMN@),
    {
        Statement::plain(DROP_SEEN_COLUMN)
    }

    /// Fetches the recorded state of an object: its entity tag, size and time.
    pub fn fetch_previous_state(key: &str) -> (statement: Statement)
        ensures
            statement@ == about_key(FETCH_PREVIOUS@, key@),
    {
        Statement::with_text(FETCH_PREVIOUS, key)
    }

    /// Fetches every object that was not seen: its key, entity tag, size and time.
    pub fn fetch_deleted_objects() -> (statement: Statement)
        ensures
            statement@ == plain(FETCH_UNSEEN@),
    {
        Statement::plain(FETCH_UNSEEN)
    }

    /// Removes a recorded object.
    pub fn delete_object_state(key: &str) -> (statement: Statement)
        ensures
            statement@ == about_key(DELETE_STATE@, key@),
    {
        Statement::with_text(DELETE_STATE, key)
    }

    /// Records that a run came to its end `now` seconds after the epoch.
    pub fn update_last_sync_metadata(now: i64) -> (statement: Statement)
        ensures
            statement@ == sync_record(now),
    {
        let statement = Statement { sql: RECORD_SYNC, parameters: vec![Value::Integer(now)] };
        assert(statement@.parameters =~= sync_record(now).parameters);
        statement
    }
}

} // verus!
