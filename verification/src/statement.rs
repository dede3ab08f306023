//! The SQL that keeps the recorded state of a bucket.
use crate::views::views;
use vstd::prelude::*;

verus! {

/// A value bound to a numbered parameter of a statement.
#[derive(Debug, PartialEq)]
pub enum Value {
    Text(String),
    Integer(i64),
}

/// What a [`Value`] stands for.
pub enum ValueView {
    Text(Seq<char>),
    Integer(i64),
}

impl View for Value {
    type V = ValueView;

    open spec fn view(&self) -> ValueView {
        match self {
            Value::Text(text) => ValueView::Text(text@),
            Value::Integer(number) => ValueView::Integer(*number),
        }
    }
}

/// A statement, with the values of its parameters `?1`, `?2` and so on in order.
#[derive(Debug, PartialEq)]
pub struct Statement {
    pub sql: &'static str,
    pub parameters: Vec<Value>,
}

/// What a [`Statement`] stands for.
pub struct StatementView {
    pub sql: Seq<char>,
    pub parameters: Seq<ValueView>,
}

impl View for Statement {
    type V = StatementView;

    open spec fn view(&self) -> StatementView {
        StatementView { sql: self.sql@, parameters: views(self.parameters@) }
    }
}

/// A statement without parameters.
pub open spec fn plain(sql: Seq<char>) -> StatementView {
    StatementView { sql, parameters: seq![] }
}

impl Statement {
    /// The statement `sql`, which has no parameters.
    pub fn plain(sql: &'static str) -> (statement: Statement)
        ensures
            statement@ == plain(sql@),
    {
        let statement = Statement { sql, parameters: Vec::new() };
        assert(statement@.parameters =~= seq![]);
        statement
    }

    /// The statement `sql`, whose one parameter is a text.
    pub fn with_text(sql: &'static str, text: &str) -> (statement: Statement)
        ensures
            statement@ == (StatementView { sql: sql@, parameters: seq![ValueView::Text(text@)] }),
    {
        let statement = Statement { sql, parameters: vec![Value::Text(String::from(text))] };
        assert(statement@.parameters =~= seq![ValueView::Text(text@)]);
        statement
    }
}

/// One row for each object, with its last recorded state.
pub const CREATE_OBJECT_STATE: &'static str =
    "CREATE TABLE IF NOT EXISTS object_state (
    key TEXT PRIMARY KEY,
    etag TEXT NOT NULL,
    size INTEGER NOT NULL,
    last_modified INTEGER NOT NULL
)";

/// Facts about the runs themselves.
pub const CREATE_METADATA: &'static str =
    "CREATE TABLE IF NOT EXISTS metadata (
    key TEXT PRIMARY KEY,
    value TEXT NOT NULL
)";

pub const CREATE_ETAG_INDEX: &'static str =
    "CREATE INDEX IF NOT EXISTS idx_etag ON object_state(etag)";

/// Adds the column in which a run marks the objects that it came across.
pub const ADD_SEEN_COLUMN: &'static str =
    "ALTER TABLE object_state ADD COLUMN temp_seen INTEGER DEFAULT 0";

/// Unmarks every object. The column may be left over from a run that was cut off, or from one with
/// an SQLite before version 3.35.0, which cannot drop a column.
pub const RESET_SEEN: &'static str = "UPDATE object_state SET temp_seen = 0";

/// Drops the column of marks, and leaves everything else in the rows as it is.
pub const DROP_SEEN_COLUMN: &'static str = "ALTER TABLE object_state DROP COLUMN temp_seen";

pub const FETCH_PREVIOUS: &'static str =
    "SELECT etag, size, last_modified FROM object_state WHERE key = ?1";

pub const INSERT_STATE: &'static str =
    "INSERT OR REPLACE INTO object_state (key, etag, size, last_modified, temp_seen) VALUES (?1, ?2, ?3, ?4, 1)";

pub const MARK_SEEN: &'static str = "UPDATE object_state SET temp_seen = 1 WHERE key = ?1";

pub const FETCH_UNSEEN: &'static str =
    "SELECT key, etag, size, last_modified FROM object_state WHERE temp_seen = 0";

pub const DELETE_STATE: &'static str = "DELETE FROM object_state WHERE key = ?1";

pub const RECORD_SYNC: &'static str =
    "INSERT OR REPLACE INTO metadata (key, value) VALUES ('last_updated', ?1)";

/// The statements that make sure the tables exist, in order.
pub open spec fn schema() -> Seq<StatementView> {
    seq![plain(CREATE_OBJECT_STATE@), plain(CREATE_METADATA@), plain(CREATE_ETAG_INDEX@)]
}

/// The statements that make sure the tables exist, in order.
pub fn schema_statements() -> (statements: Vec<Statement>)
    ensures
        views(statements@) == schema(),
{
    let statements = vec![
        Statement::plain(CREATE_OBJECT_STATE),
        Statement::plain(CREATE_METADATA),
        Statement::plain(CREATE_ETAG_INDEX),
    ];
    assert(views(statements@) =~= schema());
    statements
}

} // verus!
