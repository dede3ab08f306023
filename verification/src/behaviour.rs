//! What single operations give, told by their arguments and results.
use crate::builder::{S3Builder, S3BuilderError, S3Setup};
use crate::config::{client_config, config_settings};
use crate::laws::{law_at_most_one_page_again, law_page_by_page};
use crate::listing::law_pages_are_followed;
use crate::model::{absorbed, is_course, Moment, Table};
use crate::object::{Change, ChangeView, ListedObject, ListedView, S3Object};
use crate::remotes::aws;
use crate::s3::{CompactS3Object, CompactView, ObjectPlan, StateDb, S3};
use crate::statement::{Statement, Value};
use crate::sync::{all_parsed, Action, ActionView, SyncRun, TransactionScope};
use crate::text::{decimal, signed_decimal, signed_decimal_text};
use crate::timestamp::Timestamp;
use crate::views::converts;
use aws_sdk_s3::{Client, Config};
use vstd::prelude::*;

verus! {

/// A point in time is what its counters say, within the years of `chrono`: whole seconds with less
/// than a billion nanoseconds, or with up to another billion at the end of a minute. Elsewhere
/// there is none.
pub proof fn law_point_in_time(secs: i64, nanos: u32, time: Option<Timestamp>)
    requires
        call_ensures(Timestamp::from_timestamp, (secs, nanos), time),
    ensures
        time is Some <==> -8_334_601_228_800 <= secs <= 8_210_266_876_799 && (nanos < 1_000_000_000
            || (nanos < 2_000_000_000 && secs % 60 == 59)),
        time is Some ==> time->0@.secs == secs && time->0@.nanos == nanos,
{
}

/// Where there is no such point in time, the epoch stands in for it.
pub proof fn law_epoch_stands_in(
    secs: i64,
    nanos: u32,
    time: Option<Timestamp>,
    told: Timestamp,
)
    requires
        call_ensures(Timestamp::from_timestamp, (secs, nanos), time),
        call_ensures(Timestamp::from_timestamp_or_default, (secs, nanos), told),
    ensures
        time is Some ==> told@ == time->0@,
        time is None ==> told@.secs == 0 && told@.nanos == 0,
{
}

/// A point in time gives its counters back.
pub proof fn law_counters_come_back(
    secs: i64,
    nanos: u32,
    time: Option<Timestamp>,
    told_secs: i64,
    told_nanos: u32,
)
    requires
        call_ensures(Timestamp::from_timestamp, (secs, nanos), time),
        time is Some,
        call_ensures(Timestamp::timestamp, (&time->0,), told_secs),
        call_ensures(Timestamp::timestamp_subsec_nanos, (&time->0,), told_nanos),
    ensures
        told_secs == secs,
        told_nanos == nanos,
{
}

/// An entry of a listing gives an object exactly where none of its fields is missing. The object
/// has the key, tag and size of the entry, and its time where there is such a time.
pub proof fn law_parsed_entry(entry: ListedObject, object: Option<S3Object>)
    requires
        call_ensures(S3::parse_aws_object, (&entry,), object),
    ensures
        object is Some <==> entry.key is Some && entry.e_tag is Some && entry.size is Some
            && entry.last_modified is Some,
        object is Some ==> {
            let (secs, nanos) = entry.last_modified->0;
            let time = object->0.last_modified@;
            let there = -8_334_601_228_800 <= secs <= 8_210_266_876_799 && (nanos < 1_000_000_000
                || (nanos < 2_000_000_000 && secs % 60 == 59));
            &&& object->0.key@ == entry.key->0@
            &&& object->0.etag@ == entry.e_tag->0@
            &&& object->0.size == entry.size->0
            &&& there ==> time.secs == secs && time.nanos == nanos
            &&& !there ==> time.secs == 0 && time.nanos == 0
        },
{
}

/// Both ways of monitoring parse an entry alike.
pub proof fn law_parsed_alike(
    entry: ListedObject,
    object: Option<S3Object>,
    other: Option<S3Object>,
)
    requires
        call_ensures(S3::parse_aws_object, (&entry,), object),
        call_ensures(aws::S3::parse_aws_object, (&entry,), other),
    ensures
        object is Some <==> other is Some,
        object is Some ==> object->0@ == other->0@,
{
}

/// The objects of a page are those that its entries give, in order: nothing comes of no entries,
/// an entry alone gives its object or nothing, and what entries give together is what each part
/// of them gives.
pub proof fn law_page_of_objects(
    entry: ListedObject,
    object: Option<S3Object>,
    first: Seq<ListedView>,
    rest: Seq<ListedView>,
)
    requires
        call_ensures(S3::parse_aws_object, (&entry,), object),
    ensures
        all_parsed(seq![]).len() == 0,
        object is Some ==> all_parsed(seq![entry@]) == seq![object->0@],
        object is None ==> all_parsed(seq![entry@]).len() == 0,
        all_parsed(first + rest) == all_parsed(first) + all_parsed(rest),
{
    let one = seq![entry@];
    assert(one.drop_last() =~= seq![]);
    if object is Some {
        assert(all_parsed(one) =~= seq![object->0@]);
    }
    lemma_parsed_concat(first, rest);
}

proof fn lemma_parsed_concat(first: Seq<ListedView>, rest: Seq<ListedView>)
    ensures
        all_parsed(first + rest) == all_parsed(first) + all_parsed(rest),
    decreases rest.len(),
{
    if rest.len() == 0 {
        assert(first + rest =~= first);
        assert(all_parsed(first) + all_parsed(rest) =~= all_parsed(first));
    } else {
        assert((first + rest).drop_last() =~= first + rest.drop_last());
        lemma_parsed_concat(first, rest.drop_last());
        assert(all_parsed(first + rest) =~= all_parsed(first) + all_parsed(rest));
    }
}

/// A recorded state gives back its key, tag and size, and its whole seconds where there is such a
/// time.
pub proof fn law_restored_object(key: &str, state: CompactS3Object, object: S3Object)
    requires
        call_ensures(S3::compact_to_s3_object, (key, &state), object),
    ensures
        object.key@ == key@,
        object.etag@ == state.etag@,
        object.size == state.size,
        object.last_modified@.nanos == 0,
        -8_334_601_228_800 <= state.last_modified <= 8_210_266_876_799
            ==> object.last_modified@.secs == state.last_modified,
        !(-8_334_601_228_800 <= state.last_modified <= 8_210_266_876_799)
            ==> object.last_modified@.secs == 0,
{
}

/// A state with an unsigned size gives back the same, with the bits of its size read as signed.
pub proof fn law_restored_unsigned(key: &str, state: aws::CompactS3Object, object: S3Object)
    requires
        call_ensures(aws::S3::compact_to_s3_object, (key, &state), object),
    ensures
        object.key@ == key@,
        object.etag@ == state.etag@,
        state.size < 0x8000_0000_0000_0000 ==> object.size == state.size,
        state.size >= 0x8000_0000_0000_0000 ==> object.size == state.size
            - 0x1_0000_0000_0000_0000,
        object.last_modified@.nanos == 0,
        -8_334_601_228_800 <= state.last_modified <= 8_210_266_876_799
            ==> object.last_modified@.secs == state.last_modified,
        !(-8_334_601_228_800 <= state.last_modified <= 8_210_266_876_799)
            ==> object.last_modified@.secs == 0,
{
}

/// A state keeps its tag and time when its size gets a sign.
pub proof fn law_signed_state(state: aws::CompactS3Object, same: CompactS3Object)
    requires
        call_ensures(aws::CompactS3Object::into_signed, (state,), same),
    ensures
        same.etag@ == state.etag@,
        same.last_modified == state.last_modified,
        state.size < 0x8000_0000_0000_0000 ==> same.size == state.size,
        state.size >= 0x8000_0000_0000_0000 ==> same.size == state.size
            - 0x1_0000_0000_0000_0000,
{
}

/// An object without a recorded state was added, one whose tag is the recorded one did not change,
/// and any other was modified: its new side is the object, and its old side is what was recorded
/// under its key.
pub proof fn law_determined_change(
    current: S3Object,
    previous: Option<CompactS3Object>,
    change: Option<Change>,
)
    requires
        call_ensures(S3::determine_change, (&current, previous), change),
    ensures
        previous is None ==> change is Some && change->0 is Added,
        change matches Some(Change::Added(object)) ==> previous is None && object.key@
            == current.key@ && object.etag@ == current.etag@ && object.size == current.size
            && object.last_modified@ == current.last_modified@,
        previous is Some ==> (change is None <==> previous->0.etag@ == current.etag@),
        previous is Some && change is Some ==> change->0 is Modified,
        change matches Some(Change::Modified { old, new }) ==> previous is Some && new.key@
            == current.key@ && new.etag@ == current.etag@ && new.size == current.size
            && new.last_modified@ == current.last_modified@ && old.key@ == current.key@
            && old.etag@ == previous->0.etag@ && old.size == previous->0.size
            && old.last_modified@.nanos == 0,
        change matches Some(Change::Modified { old, .. }) ==> old.last_modified@.secs == if
            -8_334_601_228_800 <= previous->0.last_modified <= 8_210_266_876_799 {
            previous->0.last_modified as int
        } else {
            0
        },
{
}

/// Both ways of monitoring judge alike where they recorded alike.
pub proof fn law_determined_alike(
    current: S3Object,
    state: aws::CompactS3Object,
    same: CompactS3Object,
    change: Option<Change>,
    other: Option<Change>,
    added: Option<Change>,
)
    requires
        call_ensures(aws::CompactS3Object::into_signed, (state,), same),
        call_ensures(S3::determine_change, (&current, Some(same)), change),
        call_ensures(aws::S3::determine_change, (&current, Some(state)), other),
        call_ensures(
            aws::S3::determine_change,
            (&current, None::<aws::CompactS3Object>),
            added,
        ),
    ensures
        change is Some <==> other is Some,
        change is Some ==> change->0@ == other->0@,
        added is Some && added->0@ == ChangeView::Added(current@),
{
}

/// What is done about an object hands over the change that it stands for, and marks exactly the
/// objects that are recorded.
pub proof fn law_planned_object(
    current: S3Object,
    previous: Option<CompactS3Object>,
    change: Option<Change>,
    plan: ObjectPlan,
)
    requires
        call_ensures(S3::determine_change, (&current, previous), change),
        call_ensures(S3::process_s3_object, (&current, previous), plan),
    ensures
        plan.mark_seen <==> previous is Some,
        plan.change is Some <==> change is Some,
        change is Some ==> plan.change->0@ == change->0@,
{
}

/// What the parameters of a statement stand for is what each of them stands for.
proof fn lemma_parameters(statement: Statement)
    ensures
        statement@.parameters.len() == statement.parameters@.len(),
        forall|i: int|
            0 <= i < statement.parameters@.len() ==> statement@.parameters[i]
                == #[trigger] statement.parameters@[i]@,
        forall|i: int|
            0 <= i < statement.parameters@.len() ==> #[trigger] statement@.parameters[i]
                == statement.parameters@[i]@,
{
}

/// Recording an object binds its key, tag, size and whole seconds, unchanged and in this order.
/// That is the row which the tables have afterwards.
pub proof fn law_inserted_row(object: S3Object, statement: Statement, table: Table)
    requires
        call_ensures(S3::insert_object_state, (&object,), statement),
        object.last_modified@.wf(),
    ensures
        statement.sql@ == "INSERT OR REPLACE INTO object_state (key, etag, size, last_modified, temp_seen) VALUES (?1, ?2, ?3, ?4, 1)"@,
        statement.parameters@.len() == 4,
        statement.parameters@[0] matches Value::Text(key) && key@ == object.key@,
        statement.parameters@[1] matches Value::Text(etag) && etag@ == object.etag@,
        statement.parameters@[2] matches Value::Integer(size) && size == object.size,
        statement.parameters@[3] matches Value::Integer(secs) && secs
            == object.last_modified@.secs,
        table.inserted(object@).rows == table.rows.insert(
            statement.parameters@[0]->Text_0@,
            CompactView {
                etag: statement.parameters@[1]->Text_0@,
                size: statement.parameters@[2]->Integer_0,
                last_modified: statement.parameters@[3]->Integer_0,
            },
        ),
{
    lemma_parameters(statement);
    assert(statement@.parameters[0] == statement.parameters@[0]@);
    assert(statement@.parameters[1] == statement.parameters@[1]@);
    assert(statement@.parameters[2] == statement.parameters@[2]@);
    assert(statement@.parameters[3] == statement.parameters@[3]@);
}

/// A statement about one object binds its key and nothing else.
pub proof fn law_statements_about_keys(
    key: &str,
    mark: Statement,
    fetch: Statement,
    delete: Statement,
)
    requires
        call_ensures(S3::mark_object_seen, (key,), mark),
        call_ensures(S3::fetch_previous_state, (key,), fetch),
        call_ensures(S3::delete_object_state, (key,), delete),
    ensures
        mark.sql@ == "UPDATE object_state SET temp_seen = 1 WHERE key = ?1"@,
        fetch.sql@ == "SELECT etag, size, last_modified FROM object_state WHERE key = ?1"@,
        delete.sql@ == "DELETE FROM object_state WHERE key = ?1"@,
        mark.parameters@.len() == 1 && fetch.parameters@.len() == 1 && delete.parameters@.len()
            == 1,
        mark.parameters@[0] matches Value::Text(text) && text@ == key@,
        fetch.parameters@[0] matches Value::Text(text) && text@ == key@,
        delete.parameters@[0] matches Value::Text(text) && text@ == key@,
{
    lemma_parameters(mark);
    lemma_parameters(fetch);
    lemma_parameters(delete);
    assert(mark@.parameters[0] == mark.parameters@[0]@);
    assert(fetch@.parameters[0] == fetch.parameters@[0]@);
    assert(delete@.parameters[0] == delete.parameters@[0]@);
}

/// The statements about all objects bind nothing.
pub proof fn law_statements_about_all(
    setup: (Statement, Statement),
    cleanup: Statement,
    unseen: Statement,
)
    requires
        call_ensures(S3::setup_temp_tracking_column, (), setup),
        call_ensures(S3::cleanup_temp_column, (), cleanup),
        call_ensures(S3::fetch_deleted_objects, (), unseen),
    ensures
        setup.0.sql@ == "ALTER TABLE object_state ADD COLUMN temp_seen INTEGER DEFAULT 0"@,
        setup.1.sql@ == "UPDATE object_state SET temp_seen = 0"@,
        cleanup.sql@ == "ALTER TABLE object_state DROP COLUMN temp_seen"@,
        unseen.sql@ == "SELECT key, etag, size, last_modified FROM object_state WHERE temp_seen = 0"@,
        setup.0.parameters@.len() == 0 && setup.1.parameters@.len() == 0,
        cleanup.parameters@.len() == 0 && unseen.parameters@.len() == 0,
{
    lemma_parameters(setup.0);
    lemma_parameters(setup.1);
    lemma_parameters(cleanup);
    lemma_parameters(unseen);
}

/// The end of a run is recorded with the time that it is given.
pub proof fn law_recorded_time(now: i64, statement: Statement)
    requires
        call_ensures(S3::update_last_sync_metadata, (now,), statement),
    ensures
        statement.sql@ == "INSERT OR REPLACE INTO metadata (key, value) VALUES ('last_updated', ?1)"@,
        statement.parameters@.len() == 1,
        statement.parameters@[0] matches Value::Integer(time) && time == now,
{
    lemma_parameters(statement);
    assert(statement@.parameters[0] == statement.parameters@[0]@);
}

/// Each action on the tables is carried out with its own statement, which binds what the action
/// names, and no other action has one.
pub proof fn law_statement_of_action<E>(action: Action<E>, statement: Option<Statement>)
    requires
        call_ensures(Action::<E>::statement, (&action,), statement),
    ensures
        statement is Some <==> action is AddSeenColumn || action is ResetSeen
            || action is FetchPrevious || action is Insert || action is MarkSeen
            || action is FetchUnseen || action is Delete || action is DropSeenColumn
            || action is RecordSync,
        action is AddSeenColumn ==> statement->0.sql@ == "ALTER TABLE object_state ADD COLUMN temp_seen INTEGER DEFAULT 0"@
            && statement->0.parameters@.len() == 0,
        action is ResetSeen ==> statement->0.sql@ == "UPDATE object_state SET temp_seen = 0"@
            && statement->0.parameters@.len() == 0,
        action is DropSeenColumn ==> statement->0.sql@ == "ALTER TABLE object_state DROP COLUMN temp_seen"@
            && statement->0.parameters@.len() == 0,
        action is FetchUnseen ==> statement->0.sql@ == "SELECT key, etag, size, last_modified FROM object_state WHERE temp_seen = 0"@
            && statement->0.parameters@.len() == 0,
        action matches Action::FetchPrevious { key } ==> statement->0.sql@ == "SELECT etag, size, last_modified FROM object_state WHERE key = ?1"@
            && statement->0.parameters@.len() == 1 && (
        statement->0.parameters@[0] matches Value::Text(text) && text@ == key@),
        action matches Action::MarkSeen { key } ==> statement->0.sql@ == "UPDATE object_state SET temp_seen = 1 WHERE key = ?1"@
            && statement->0.parameters@.len() == 1 && (
        statement->0.parameters@[0] matches Value::Text(text) && text@ == key@),
        action matches Action::Delete { key } ==> statement->0.sql@ == "DELETE FROM object_state WHERE key = ?1"@
            && statement->0.parameters@.len() == 1 && (
        statement->0.parameters@[0] matches Value::Text(text) && text@ == key@),
        action matches Action::RecordSync { now } ==> statement->0.sql@ == "INSERT OR REPLACE INTO metadata (key, value) VALUES ('last_updated', ?1)"@
            && statement->0.parameters@.len() == 1 && (
        statement->0.parameters@[0] matches Value::Integer(time) && time == now),
        action matches Action::Insert { object } ==> statement->0.sql@ == "INSERT OR REPLACE INTO object_state (key, etag, size, last_modified, temp_seen) VALUES (?1, ?2, ?3, ?4, 1)"@
            && statement->0.parameters@.len() == 4 && (
        statement->0.parameters@[0] matches Value::Text(text) && text@ == object.key@) && (
        statement->0.parameters@[1] matches Value::Text(text) && text@ == object.etag@) && (
        statement->0.parameters@[2] matches Value::Integer(size) && size == object.size) && (
        statement->0.parameters@[3] matches Value::Integer(secs) && secs
            == object.last_modified@.secs as i64),
{
    if statement is Some {
        let made = statement->0;
        lemma_parameters(made);
        if made@.parameters.len() > 0 {
            assert(made@.parameters[0] == made.parameters@[0]@);
        }
        if made@.parameters.len() == 4 {
            assert(made@.parameters[1] == made.parameters@[1]@);
            assert(made@.parameters[2] == made.parameters@[2]@);
            assert(made@.parameters[3] == made.parameters@[3]@);
        }
    }
}

/// Opening a database creates it where it is missing, locks it for itself, and makes sure of two
/// tables and an index.
pub proof fn law_opened_database(db: StateDb)
    requires
        call_ensures(S3::create_state_db, (), db),
    ensures
        db.create_if_missing && db.exclusive && !db.statement_logging,
        db.statements@.len() == 3,
        db.statements@[0].sql@ == "CREATE TABLE IF NOT EXISTS object_state (
    key TEXT PRIMARY KEY,
    etag TEXT NOT NULL,
    size INTEGER NOT NULL,
    last_modified INTEGER NOT NULL
)"@,
        db.statements@[1].sql@ == "CREATE TABLE IF NOT EXISTS metadata (
    key TEXT PRIMARY KEY,
    value TEXT NOT NULL
)"@,
        db.statements@[2].sql@ == "CREATE INDEX IF NOT EXISTS idx_etag ON object_state(etag)"@,
        forall|i: int| 0 <= i < 3 ==> (#[trigger] db.statements@[i]).parameters@.len() == 0,
{
    lemma_schema(db.statements@);
}

/// Opening a database for a whole run takes the database at a path, which has to exist, and makes
/// sure of the same.
pub proof fn law_opened_for_whole_run(db_path: &str, db: aws::StateDb)
    requires
        call_ensures(aws::S3::create_state_db, (db_path,), db),
    ensures
        db.url@ == "sqlite:"@ + db_path@,
        db.statements@.len() == 3,
        db.statements@[0].sql@ == "CREATE TABLE IF NOT EXISTS object_state (
    key TEXT PRIMARY KEY,
    etag TEXT NOT NULL,
    size INTEGER NOT NULL,
    last_modified INTEGER NOT NULL
)"@,
        db.statements@[1].sql@ == "CREATE TABLE IF NOT EXISTS metadata (
    key TEXT PRIMARY KEY,
    value TEXT NOT NULL
)"@,
        db.statements@[2].sql@ == "CREATE INDEX IF NOT EXISTS idx_etag ON object_state(etag)"@,
        forall|i: int| 0 <= i < 3 ==> (#[trigger] db.statements@[i]).parameters@.len() == 0,
{
    lemma_schema(db.statements@);
}

proof fn lemma_schema(statements: Seq<Statement>)
    requires
        crate::views::views(statements) == crate::statement::schema(),
    ensures
        statements.len() == 3,
        statements[0].sql@ == "CREATE TABLE IF NOT EXISTS object_state (
    key TEXT PRIMARY KEY,
    etag TEXT NOT NULL,
    size INTEGER NOT NULL,
    last_modified INTEGER NOT NULL
)"@,
        statements[1].sql@ == "CREATE TABLE IF NOT EXISTS metadata (
    key TEXT PRIMARY KEY,
    value TEXT NOT NULL
)"@,
        statements[2].sql@ == "CREATE INDEX IF NOT EXISTS idx_etag ON object_state(etag)"@,
        forall|i: int| 0 <= i < 3 ==> (#[trigger] statements[i]).parameters@.len() == 0,
{
    let all = crate::views::views(statements);
    assert(all.len() == 3);
    assert(all[0] == statements[0]@ && all[1] == statements[1]@ && all[2] == statements[2]@);
    lemma_parameters(statements[0]);
    lemma_parameters(statements[1]);
    lemma_parameters(statements[2]);
}

/// What is reported where a database cannot be opened names the path and the cause.
pub proof fn law_open_failure(db_path: &str, cause: &str, text: String)
    requires
        call_ensures(S3::state_db_error, (db_path, cause), text),
    ensures
        text@ == "Failed to create state database at "@ + db_path@ + ": "@ + cause@,
{
}

/// The database of a run is the one at the path that is given, or one that has the name of the
/// bucket where the path is empty.
pub proof fn law_database_path(
    client: Client,
    bucket: String,
    batch_size: Option<i32>,
    s3: S3,
    given: &str,
    path: String,
)
    requires
        call_ensures(S3::from_client, (client, bucket, batch_size), s3),
        call_ensures(S3::db_path, (&s3, given), path),
    ensures
        given@.len() > 0 ==> path@ == given@,
        given@.len() == 0 ==> path@ == bucket@ + ".db"@,
{
}

/// A run of a client lists exactly its bucket, asks for exactly its batch size, or for a thousand
/// objects where none is given, and makes each page a transaction. It uses the database that its
/// path leads to, and begins with the column of marks.
pub proof fn law_started_run<E>(
    client: Client,
    bucket: String,
    batch_size: Option<i32>,
    s3: S3,
    db_path: &str,
    first: (String, SyncRun<E>, Action<E>),
    other: (SyncRun<E>, Action<E>),
)
    requires
        call_ensures(S3::from_client, (client, bucket, batch_size), s3),
        call_ensures(S3::stream_changes::<E>, (&s3, db_path), first),
        call_ensures(S3::stream_diff_and_update::<E>, (&s3,), other),
    ensures
        first.1@.target.scope == TransactionScope::PerPage,
        first.1@.target.bucket == bucket@,
        batch_size matches Some(size) ==> first.1@.target.max_keys == size,
        batch_size is None ==> first.1@.target.max_keys == 1000,
        first.2 is AddSeenColumn,
        db_path@.len() > 0 ==> first.0@ == db_path@,
        db_path@.len() == 0 ==> first.0@ == bucket@ + ".db"@,
        other.0@ == first.1@,
        other.1@ == first.2@,
{
}

/// At every moment of every run of a client, the database holds the completed pages and nothing of
/// the page in hand, at most one page of changes would be handed over again, and what is listed is
/// the bucket of the client, as many objects at a time as it was made with.
pub proof fn law_every_run_of_a_client<E>(
    client: Client,
    bucket: String,
    batch_size: Option<i32>,
    s3: S3,
    db_path: &str,
    first: (String, SyncRun<E>, Action<E>),
    table: Table,
    moments: Seq<Moment<E>>,
)
    requires
        call_ensures(S3::from_client, (client, bucket, batch_size), s3),
        call_ensures(S3::stream_changes::<E>, (&s3, db_path), first),
        is_course(first.1@.target, table, moments),
    ensures
        ({
            let step = moments.last().run.step;
            let world = moments.last().world;
            let kept = world.committed.rows;
            let in_hand = step is Fetching || step is Marking || step is Inserting
                || step is Sending || step is Committing;
            let outstanding = world.delivered.len() - world.acknowledged;
            &&& in_hand ==> kept == absorbed(
                table.rows,
                world.listed.take(world.listed.len() - world.page_size),
            )
            &&& step is Listing ==> kept == absorbed(table.rows, world.listed)
            &&& outstanding <= world.page_size || outstanding <= 1
            &&& moments.last().action matches ActionView::List {
                bucket: listed_bucket,
                max_keys,
                ..
            } ==> listed_bucket == bucket@ && (batch_size matches Some(size) ==> max_keys == size)
                && (batch_size is None ==> max_keys == 1000)
        }),
{
    law_page_by_page(first.1@.target, table, moments);
    law_at_most_one_page_again(first.1@.target, table, moments);
    law_pages_are_followed(first.1@.target, table, moments);
}

/// A whole run lists exactly its bucket, a thousand objects at a time, in one transaction.
pub proof fn law_started_whole_run<E>(
    client: Client,
    bucket: String,
    s3: aws::S3,
    first: (SyncRun<E>, Action<E>),
)
    requires
        call_ensures(aws::S3::from_client, (client, bucket), s3),
        call_ensures(aws::S3::stream_diff_and_update::<E>, (&s3,), first),
    ensures
        first.0@.target.scope == TransactionScope::WholeRun,
        first.0@.target.bucket == bucket@,
        first.0@.target.max_keys == 1000,
        first.1 is Begin,
{
}

/// A client is configured with the keys that it is given, each in its place, without a session
/// token and under the name of this library, with the region, with the SDK's latest behaviour,
/// and with an endpoint, addressed by path, exactly where one is given.
pub proof fn law_configured_client(
    access_key_id: &str,
    secret_access_key: &str,
    region: String,
    endpoint_url: Option<&str>,
    config: Config,
)
    requires
        call_ensures(
            client_config,
            (access_key_id, secret_access_key, region, endpoint_url),
            config,
        ),
    ensures
        ({
            let settings = config_settings(config);
            &&& settings.0 is Some
            &&& (settings.0->0).0 == access_key_id@
            &&& (settings.0->0).1 == secret_access_key@
            &&& (settings.0->0).2 is None
            &&& (settings.0->0).3 == "resy"@
            &&& settings.1 == Some(region@)
            &&& endpoint_url is None ==> settings.2 is None && settings.3 is None
            &&& endpoint_url matches Some(url) ==> settings.2 == Some(url@) && settings.3 == Some(
                true,
            )
            &&& settings.4
        }),
{
}

/// A complete configuration gives a client the keys, region and endpoint that were set, and goes
/// to the bucket that was set, as many objects at a time as were asked for.
pub proof fn law_built_client(builder: S3Builder, outcome: Result<S3Setup, S3BuilderError>)
    requires
        call_ensures(S3Builder::build, (builder,), outcome),
    ensures
        outcome matches Ok(setup) ==> {
            let settings = config_settings(setup.config);
            &&& builder@.bucket == Some(setup.bucket@)
            &&& builder@.credentials is Some
            &&& settings.0 is Some
            &&& (settings.0->0).0 == builder@.credentials->0.access_key_id
            &&& (settings.0->0).1 == builder@.credentials->0.secret_access_key
            &&& (settings.0->0).2 is None
            &&& (settings.0->0).3 == "resy"@
            &&& builder@.region is Some && settings.1 == builder@.region
            &&& settings.2 == builder@.endpoint_url
            &&& builder@.endpoint_url is Some ==> settings.3 == Some(true)
            &&& builder@.endpoint_url is None ==> settings.3 is None
            &&& settings.4
            &&& setup.batch_size >= 1
            &&& builder@.batch_size matches Some(size) ==> setup.batch_size == size
            &&& builder@.batch_size is None ==> setup.batch_size == 1000
        },
{
}

/// A configuration is refused exactly where bucket, region or credentials are missing, or the batch
/// size is not positive. The error names the first that is missing, or the batch size.
pub proof fn law_refused_configuration(
    builder: S3Builder,
    outcome: Result<S3Setup, S3BuilderError>,
)
    requires
        call_ensures(S3Builder::build, (builder,), outcome),
    ensures
        outcome is Err <==> builder@.bucket is None || builder@.region is None
            || builder@.credentials is None || (builder@.batch_size is Some
            && builder@.batch_size->0 <= 0),
        builder@.bucket is None ==> (outcome->Err_0 matches S3BuilderError::MissingField(field)
            && field@ == "bucket"@),
        builder@.bucket is Some && builder@.region is None ==> (
        outcome->Err_0 matches S3BuilderError::MissingField(field) && field@ == "region"@),
        builder@.bucket is Some && builder@.region is Some && builder@.credentials is None ==> (
        outcome->Err_0 matches S3BuilderError::MissingField(field) && field@ == "credentials"@),
        builder@.bucket is Some && builder@.region is Some && builder@.credentials is Some
            && outcome is Err ==> (outcome->Err_0 matches S3BuilderError::InvalidBatchSize(size)
            && builder@.batch_size == Some(size)),
{
}

/// A fresh builder asks for a thousand objects at a time, and has nothing else set.
pub proof fn law_fresh_builder(builder: S3Builder, other: S3Builder, third: S3Builder)
    requires
        call_ensures(S3Builder::new, (), builder),
        call_ensures(S3::builder, (), other),
        call_ensures(<S3Builder as Default>::default, (), third),
    ensures
        builder@.bucket is None && builder@.region is None && builder@.credentials is None
            && builder@.endpoint_url is None,
        builder@.batch_size == Some(1000i32),
        other@ == builder@,
        third@ == builder@,
{
}

/// A batch size that is set is the one that was given, and touches nothing else.
pub proof fn law_batch_size(builder: S3Builder, size: i32, next: S3Builder)
    requires
        call_ensures(S3Builder::batch_size, (builder, size), next),
    ensures
        next@.batch_size == Some(size),
        next@.bucket == builder@.bucket,
        next@.region == builder@.region,
        next@.credentials == builder@.credentials,
        next@.endpoint_url == builder@.endpoint_url,
{
}

/// A client for a whole run is configured with what its bucket was described with.
pub proof fn law_whole_run_client(
    conf: aws::S3Conf,
    setup: aws::ClientSetup,
    other: aws::ClientSetup,
)
    requires
        call_ensures(aws::S3::new, (&conf,), setup),
        call_ensures(aws::S3::create_client, (&conf,), other),
    ensures
        ({
            let settings = config_settings(setup.config);
            &&& setup.bucket@ == conf.bucket@
            &&& settings.0 is Some
            &&& (settings.0->0).0 == crate::secret::secret_text(conf.access_key_id)
            &&& (settings.0->0).1 == crate::secret::secret_text(conf.secret_access_key)
            &&& (settings.0->0).2 is None
            &&& (settings.0->0).3 == "resy"@
            &&& settings.1 == Some(conf.region@)
            &&& conf.endpoint_url matches Some(url) ==> settings.2 == Some(url@) && settings.3
                == Some(true)
            &&& conf.endpoint_url is None ==> settings.2 is None && settings.3 is None
            &&& settings.4
            &&& config_settings(other.config) == settings
            &&& other.bucket@ == setup.bucket@
        }),
{
}

/// A description of a bucket holds what it was made from, each part in its place.
pub proof fn law_described_bucket(
    bucket: String,
    access_key_id: String,
    secret_access_key: String,
    region: String,
    endpoint_url: String,
    conf: aws::S3Conf,
    other: aws::S3Conf,
)
    requires
        call_ensures(aws::S3Conf::new, (bucket, access_key_id, secret_access_key, region), conf),
        call_ensures(
            aws::S3Conf::new_with_endpoint,
            (bucket, access_key_id, secret_access_key, region, endpoint_url),
            other,
        ),
    ensures
        conf.bucket@ == bucket@ && other.bucket@ == bucket@,
        conf.region@ == region@ && other.region@ == region@,
        crate::secret::secret_text(conf.access_key_id) == access_key_id@,
        crate::secret::secret_text(conf.secret_access_key) == secret_access_key@,
        crate::secret::secret_text(other.access_key_id) == access_key_id@,
        crate::secret::secret_text(other.secret_access_key) == secret_access_key@,
        conf.endpoint_url is None,
        other.endpoint_url matches Some(url) && url@ == endpoint_url@,
{
}

/// The keys of a description come back, each under its own name.
pub proof fn law_keys_come_back(conf: aws::S3Conf, id: &str, secret: &str)
    requires
        call_ensures(aws::S3Conf::get_access_key_id, (&conf,), id),
        call_ensures(aws::S3Conf::get_secret_access_key, (&conf,), secret),
    ensures
        id@ == crate::secret::secret_text(conf.access_key_id),
        secret@ == crate::secret::secret_text(conf.secret_access_key),
{
}

/// An error in words names what is missing, or the batch size in decimal.
pub proof fn law_error_in_words(error: S3BuilderError, text: String, size: i32, number: String)
    requires
        call_ensures(S3BuilderError::message, (&error,), text),
        call_ensures(signed_decimal_text, (size,), number),
    ensures
        error matches S3BuilderError::MissingField(field) ==> text@ == "Missing required field: "@
            + field@,
        error matches S3BuilderError::InvalidBatchSize(wrong) ==> wrong == size ==> text@
            == "Invalid batch size: "@ + number@ + ". Must be at least 1"@,
{
}

/// Text that is handed over as a string or as a slice is taken as it is.
pub proof fn law_text_is_taken(whole: String, slice: &str, text: String, other: String)
    requires
        converts(whole, text),
        converts(slice, other),
    ensures
        text@ == whole@,
        other@ == slice@,
{
}

/// The number that a row of digits stands for.
pub open spec fn read_digits(text: Seq<char>) -> int
    decreases text.len(),
{
    if text.len() == 0 {
        0
    } else {
        10 * read_digits(text.drop_last()) + (text.last() as int - '0' as int)
    }
}

/// The number that digits stand for, which may come after a minus sign.
pub open spec fn read(text: Seq<char>) -> int {
    if text.len() > 0 && text[0] == '-' {
        -read_digits(text.drop_first())
    } else {
        read_digits(text)
    }
}

proof fn lemma_read_decimal(value: nat)
    ensures
        read_digits(decimal(value)) == value,
        decimal(value).len() > 0,
        forall|i: int|
            0 <= i < decimal(value).len() ==> '0' <= #[trigger] decimal(value)[i] <= '9',
        value > 0 ==> decimal(value)[0] != '0',
    decreases value,
{
    reveal_strlit("0123456789");
    if value < 10 {
        let text = decimal(value);
        assert(text.drop_last() =~= seq![]);
        assert(read_digits(text.drop_last()) == 0);
    } else {
        let before = decimal(value / 10);
        lemma_read_decimal(value / 10);
        assert(decimal(value).drop_last() =~= before);
        assert(decimal(value)[0] == before[0]);
        assert forall|i: int| 0 <= i < decimal(value).len() implies '0' <= #[trigger] decimal(
            value,
        )[i] <= '9' by {
            if i < before.len() {
                assert(decimal(value)[i] == before[i]);
            }
        }
    }
}

proof fn lemma_read_signed(value: int)
    ensures
        read(signed_decimal(value)) == value,
{
    reveal_strlit("-");
    if value < 0 {
        lemma_read_decimal((-value) as nat);
        let text = signed_decimal(value);
        assert(text.drop_first() =~= decimal((-value) as nat));
    } else {
        lemma_read_decimal(value as nat);
    }
}

/// A number in decimal reads as that number, and is made of digits, without leading zeros and with
/// at most a minus sign before them.
pub proof fn law_decimal_reads_back(value: i32, text: String)
    requires
        call_ensures(signed_decimal_text, (value,), text),
    ensures
        read(text@) == value,
        text@.len() > 0,
        value < 0 <==> text@[0] == '-',
        forall|i: int|
            0 <= i < text@.len() && (i > 0 || value >= 0) ==> '0' <= #[trigger] text@[i] <= '9',
        value > 0 ==> text@[0] != '0',
        value < 0 ==> text@[1] != '0',
        value == 0 ==> text@.len() == 1,
{
    reveal_strlit("-");
    lemma_read_signed(value as int);
    if value < 0 {
        let digits = decimal((-value) as nat);
        lemma_read_decimal((-value) as nat);
        assert forall|i: int| 0 < i < text@.len() implies '0' <= #[trigger] text@[i] <= '9' by {
            assert(text@[i] == digits[i - 1]);
        }
        assert(text@[1] == digits[0]);
    } else {
        lemma_read_decimal(value as nat);
    }
}

} // verus!
