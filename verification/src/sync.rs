//! The course of one run, as a machine that asks for one piece of work at a time.
//!
//! The machine never touches the network, the database or the consumer itself. It names an
//! [`Action`]; its driver performs it and hands the outcome back as an [`Event`].
use crate::object::{Change, ChangeView, ListedObject, ListedView, ObjectView, S3Object};
use crate::s3::{
    about_key, insertion, judged, parsed, restored, sync_record, CompactS3Object, CompactView, S3,
};
use crate::statement::{
    plain, Statement, StatementView, ADD_SEEN_COLUMN, DELETE_STATE, DROP_SEEN_COLUMN,
    FETCH_PREVIOUS, FETCH_UNSEEN, MARK_SEEN, RESET_SEEN,
};
use crate::views::{viewed, views};
use vstd::prelude::*;

verus! {

/// How much work one database transaction covers.
#[derive(Clone, Copy, Debug, PartialEq, Eq, Structural)]
pub enum TransactionScope {
    /// Each page of the listing, with its changes, is one transaction. What comes after the
    /// listing runs outside of any.
    PerPage,
    /// The whole run is one transaction.
    WholeRun,
}

/// One page of a bucket listing.
#[derive(Debug)]
pub struct Page {
    pub contents: Vec<ListedObject>,
    pub is_truncated: Option<bool>,
    pub next_continuation_token: Option<String>,
}

/// What a [`Page`] stands for.
pub struct PageView {
    pub contents: Seq<ListedView>,
    pub is_truncated: Option<bool>,
    pub next_continuation_token: Option<Seq<char>>,
}

impl View for Page {
    type V = PageView;

    open spec fn view(&self) -> PageView {
        PageView {
            contents: views(self.contents@),
            is_truncated: self.is_truncated,
            next_continuation_token: viewed(self.next_continuation_token),
        }
    }
}

/// The objects that a listing describes, in its order. Entries with a missing field are skipped.
pub open spec fn all_parsed(contents: Seq<ListedView>) -> Seq<ObjectView>
    decreases contents.len(),
{
    if contents.len() == 0 {
        seq![]
    } else {
        let before = all_parsed(contents.drop_last());
        match parsed(contents.last()) {
            Some(object) => before.push(object),
            None => before,
        }
    }
}

/// What a driver is asked to do.
#[derive(Debug)]
pub enum Action<E> {
    /// Add the column of marks.
    AddSeenColumn,
    /// Unmark every recorded object.
    ResetSeen,
    /// Open a transaction.
    Begin,
    /// List a page of the bucket.
    List { bucket: String, max_keys: i32, continuation_token: Option<String> },
    /// Fetch the recorded state of an object.
    FetchPrevious { key: String },
    /// Record the state of an object, and mark it.
    Insert { object: S3Object },
    /// Mark a recorded object.
    MarkSeen { key: String },
    /// Hand a change to the consumer.
    Send { change: Change },
    /// Commit the transaction.
    Commit,
    /// Drop the transaction, with everything written in it.
    Rollback,
    /// Fetch every recorded object that is not marked.
    FetchUnseen,
    /// Remove a recorded object.
    Delete { key: String },
    /// Drop the column of marks.
    DropSeenColumn,
    /// Read the current time.
    ReadClock,
    /// Record that a run came to its end, at a time in seconds since the epoch.
    RecordSync { now: i64 },
    /// Hand an error to the consumer.
    SendError { error: E },
    /// Stop.
    Finish,
}

/// What an [`Action`] stands for.
pub enum ActionView<E> {
    AddSeenColumn,
    ResetSeen,
    Begin,
    List { bucket: Seq<char>, max_keys: i32, continuation_token: Option<Seq<char>> },
    FetchPrevious { key: Seq<char> },
    Insert { object: ObjectView },
    MarkSeen { key: Seq<char> },
    Send { change: ChangeView },
    Commit,
    Rollback,
    FetchUnseen,
    Delete { key: Seq<char> },
    DropSeenColumn,
    ReadClock,
    RecordSync { now: i64 },
    SendError { error: E },
    Finish,
}

impl<E> View for Action<E> {
    type V = ActionView<E>;

    open spec fn view(&self) -> ActionView<E> {
        match self {
            Action::AddSeenColumn => ActionView::AddSeenColumn,
            Action::ResetSeen => ActionView::ResetSeen,
            Action::Begin => ActionView::Begin,
            Action::List { bucket, max_keys, continuation_token } => ActionView::List {
                bucket: bucket@,
                max_keys: *max_keys,
                continuation_token: viewed(*continuation_token),
            },
            Action::FetchPrevious { key } => ActionView::FetchPrevious { key: key@ },
            Action::Insert { object } => ActionView::Insert { object: object@ },
            Action::MarkSeen { key } => ActionView::MarkSeen { key: key@ },
            Action::Send { change } => ActionView::Send { change: change@ },
            Action::Commit => ActionView::Commit,
            Action::Rollback => ActionView::Rollback,
            Action::FetchUnseen => ActionView::FetchUnseen,
            Action::Delete { key } => ActionView::Delete { key: key@ },
            Action::DropSeenColumn => ActionView::DropSeenColumn,
            Action::ReadClock => ActionView::ReadClock,
            Action::RecordSync { now } => ActionView::RecordSync { now: *now },
            Action::SendError { error } => ActionView::SendError { error: *error },
            Action::Finish => ActionView::Finish,
        }
    }
}

impl<E> ActionView<E> {
    /// The statement that the action is carried out with, if it is one on the tables.
    pub open spec fn statement(self) -> Option<StatementView> {
        match self {
            ActionView::AddSeenColumn => Some(plain(ADD_SEEN_COLUMN@)),
            ActionView::ResetSeen => Some(plain(RESET_SEEN@)),
            ActionView::FetchPrevious { key } => Some(about_key(FETCH_PREVIOUS@, key)),
            ActionView::Insert { object } => Some(insertion(object)),
            ActionView::MarkSeen { key } => Some(about_key(MARK_SEEN@, key)),
            ActionView::FetchUnseen => Some(plain(FETCH_UNSEEN@)),
            ActionView::Delete { key } => Some(about_key(DELETE_STATE@, key)),
            ActionView::DropSeenColumn => Some(plain(DROP_SEEN_COLUMN@)),
            ActionView::RecordSync { now } => Some(sync_record(now)),
            _ => None,
        }
    }
}

impl<E> Action<E> {
    /// The statement that the action is carried out with, if it is one on the tables.
    pub fn statement(&self) -> (statement: Option<Statement>)
        ensures
            viewed(statement) == self@.statement(),
    {
        match self {
            Action::AddSeenColumn => Some(S3::setup_temp_tracking_column().0),
            Action::ResetSeen => Some(S3::setup_temp_tracking_column().1),
            Action::FetchPrevious { key } => Some(S3::fetch_previous_state(key)),
            Action::Insert { object } => Some(S3::insert_object_state(object)),
            Action::MarkSeen { key } => Some(S3::mark_object_seen(key)),
            Action::FetchUnseen => Some(S3::fetch_deleted_objects()),
            Action::Delete { key } => Some(S3::delete_object_state(key)),
            Action::DropSeenColumn => Some(S3::cleanup_temp_column()),
            Action::RecordSync { now } => Some(S3::update_last_sync_metadata(*now)),
            _ => None,
        }
    }
}

/// The outcome of an [`Action`].
#[derive(Debug)]
pub enum Event<E> {
    /// It was done, and there is nothing to tell.
    Done,
    /// It failed.
    Failed(E),
    /// The page that was listed.
    Listed(Page),
    /// The recorded state that was fetched, if there is one.
    Fetched(Option<CompactS3Object>),
    /// The unmarked objects that were fetched, each with its key.
    Unseen(Vec<(String, CompactS3Object)>),
    /// The consumer took the change.
    Accepted,
    /// The consumer is gone.
    Closed,
    /// The current time, in seconds since the epoch.
    Clock(i64),
}

/// What an [`Event`] stands for.
pub enum EventView<E> {
    Done,
    Failed(E),
    Listed(PageView),
    Fetched(Option<CompactView>),
    Unseen(Seq<(Seq<char>, CompactView)>),
    Accepted,
    Closed,
    Clock(i64),
}

impl<E> View for Event<E> {
    type V = EventView<E>;

    open spec fn view(&self) -> EventView<E> {
        match self {
            Event::Done => EventView::Done,
            Event::Failed(error) => EventView::Failed(*error),
            Event::Listed(page) => EventView::Listed(page@),
            Event::Fetched(state) => EventView::Fetched(viewed(*state)),
            Event::Unseen(rows) => EventView::Unseen(views(rows@)),
            Event::Accepted => EventView::Accepted,
            Event::Closed => EventView::Closed,
            Event::Clock(now) => EventView::Clock(*now),
        }
    }
}

/// What follows the current page of the listing.
#[derive(Debug)]
pub enum Continuation {
    /// Another page, listed with this token.
    More(Option<String>),
    /// Nothing.
    Complete,
}

/// What a [`Continuation`] stands for.
pub enum ContinuationView {
    More(Option<Seq<char>>),
    Complete,
}

impl View for Continuation {
    type V = ContinuationView;

    open spec fn view(&self) -> ContinuationView {
        match self {
            Continuation::More(token) => ContinuationView::More(viewed(*token)),
            Continuation::Complete => ContinuationView::Complete,
        }
    }
}

/// A place in a page.
#[derive(Debug)]
pub struct Cursor {
    pub objects: Vec<S3Object>,
    pub next: usize,
    pub continuation: Continuation,
}

/// What a [`Cursor`] stands for.
pub struct CursorView {
    pub objects: Seq<ObjectView>,
    pub next: int,
    pub continuation: ContinuationView,
}

impl View for Cursor {
    type V = CursorView;

    open spec fn view(&self) -> CursorView {
        CursorView {
            objects: views(self.objects@),
            next: self.next as int,
            continuation: self.continuation@,
        }
    }
}

impl CursorView {
    /// Whether there is an object at this place.
    pub open spec fn wf(self) -> bool {
        0 <= self.next < self.objects.len()
    }

    /// The object at this place.
    pub open spec fn object(self) -> ObjectView {
        self.objects[self.next]
    }

    /// The next place.
    pub open spec fn advanced(self) -> CursorView {
        CursorView { next: self.next + 1, ..self }
    }
}

/// The start of a page.
pub open spec fn page_start(page: PageView) -> CursorView {
    CursorView {
        objects: all_parsed(page.contents),
        next: 0,
        continuation: if page.is_truncated == Some(true) {
            ContinuationView::More(page.next_continuation_token)
        } else {
            ContinuationView::Complete
        },
    }
}

/// Where a run goes on after its transaction was dropped.
#[derive(Debug)]
pub enum Resumption<E> {
    /// It looks for deleted objects.
    Sweep,
    /// It reports an error.
    Report(E),
    /// It stops.
    Stop,
}

/// Recorded objects, by key.
pub type Rows = Vec<(String, CompactS3Object)>;

/// What recorded objects stand for.
pub type RowsView = Seq<(Seq<char>, CompactView)>;

/// The action whose outcome a run waits for, with what it needs to go on.
#[derive(Debug)]
pub enum Step<E> {
    AddingColumn,
    ResettingSeen,
    Beginning(Option<String>),
    Listing,
    Fetching(Cursor),
    Marking(Cursor, Option<Change>),
    Inserting(Cursor, Change),
    Sending(Cursor),
    Committing(Continuation),
    FetchingUnseen,
    SendingDeleted(Rows, usize),
    Deleting(Rows, usize),
    DroppingColumn,
    ReadingClock,
    Recording,
    RollingBack(Resumption<E>),
    /// Whether a transaction is to be dropped afterwards.
    Reporting(bool),
    Finished,
}

/// What a [`Step`] stands for.
pub enum StepView<E> {
    AddingColumn,
    ResettingSeen,
    Beginning(Option<Seq<char>>),
    Listing,
    Fetching(CursorView),
    Marking(CursorView, Option<ChangeView>),
    Inserting(CursorView, ChangeView),
    Sending(CursorView),
    Committing(ContinuationView),
    FetchingUnseen,
    SendingDeleted(RowsView, int),
    Deleting(RowsView, int),
    DroppingColumn,
    ReadingClock,
    Recording,
    RollingBack(Resumption<E>),
    /// Whether a transaction is to be dropped afterwards.
    Reporting(bool),
    Finished,
}

impl<E> View for Step<E> {
    type V = StepView<E>;

    open spec fn view(&self) -> StepView<E> {
        match self {
            Step::AddingColumn => StepView::AddingColumn,
            Step::ResettingSeen => StepView::ResettingSeen,
            Step::Beginning(token) => StepView::Beginning(viewed(*token)),
            Step::Listing => StepView::Listing,
            Step::Fetching(cursor) => StepView::Fetching(cursor@),
            Step::Marking(cursor, change) => StepView::Marking(cursor@, viewed(*change)),
            Step::Inserting(cursor, change) => StepView::Inserting(cursor@, change@),
            Step::Sending(cursor) => StepView::Sending(cursor@),
            Step::Committing(continuation) => StepView::Committing(continuation@),
            Step::FetchingUnseen => StepView::FetchingUnseen,
            Step::SendingDeleted(rows, next) => StepView::SendingDeleted(
                views(rows@),
                *next as int,
            ),
            Step::Deleting(rows, next) => StepView::Deleting(views(rows@), *next as int),
            Step::DroppingColumn => StepView::DroppingColumn,
            Step::ReadingClock => StepView::ReadingClock,
            Step::Recording => StepView::Recording,
            Step::RollingBack(resumption) => StepView::RollingBack(*resumption),
            Step::Reporting(open) => StepView::Reporting(*open),
            Step::Finished => StepView::Finished,
        }
    }
}

impl<E> StepView<E> {
    /// Whether the place that the step keeps is one.
    pub open spec fn wf(self) -> bool {
        match self {
            StepView::Fetching(cursor) => cursor.wf(),
            StepView::Marking(cursor, _) => cursor.wf(),
            StepView::Inserting(cursor, _) => cursor.wf(),
            StepView::Sending(cursor) => cursor.wf(),
            StepView::SendingDeleted(rows, next) => 0 <= next < rows.len(),
            StepView::Deleting(rows, next) => 0 <= next < rows.len(),
            _ => true,
        }
    }

    /// Whether the run ends with an error if the action fails.
    pub open spec fn fallible(self) -> bool {
        match self {
            StepView::ResettingSeen => true,
            StepView::Beginning(_) => true,
            StepView::Listing => true,
            StepView::Fetching(_) => true,
            StepView::Marking(_, _) => true,
            StepView::Inserting(_, _) => true,
            StepView::Committing(_) => true,
            StepView::FetchingUnseen => true,
            StepView::Deleting(_, _) => true,
            StepView::Recording => true,
            _ => false,
        }
    }

    /// Whether the step belongs to the handling of a page.
    pub open spec fn in_page(self) -> bool {
        match self {
            StepView::Listing => true,
            StepView::Fetching(_) => true,
            StepView::Marking(_, _) => true,
            StepView::Inserting(_, _) => true,
            StepView::Sending(_) => true,
            StepView::Committing(_) => true,
            _ => false,
        }
    }
}

/// What a run works on.
#[derive(Debug)]
pub struct Target {
    pub scope: TransactionScope,
    pub bucket: String,
    pub max_keys: i32,
}

/// What a [`Target`] stands for.
pub struct TargetView {
    pub scope: TransactionScope,
    pub bucket: Seq<char>,
    pub max_keys: i32,
}

impl View for Target {
    type V = TargetView;

    open spec fn view(&self) -> TargetView {
        TargetView { scope: self.scope, bucket: self.bucket@, max_keys: self.max_keys }
    }
}

/// What a [`SyncRun`] stands for.
pub struct RunView<E> {
    pub target: TargetView,
    pub step: StepView<E>,
}

impl<E> RunView<E> {
    /// Whether a transaction is open while the run waits.
    pub open spec fn in_transaction(self) -> bool {
        match self.target.scope {
            TransactionScope::PerPage => self.step.in_page() || self.step is RollingBack,
            TransactionScope::WholeRun => match self.step {
                StepView::Beginning(_) => false,
                StepView::Reporting(open) => open,
                StepView::Finished => false,
                _ => true,
            },
        }
    }

    /// Whether a transaction is dropped before a failure is reported, and not after it. In a whole
    /// run, only a failed commit takes its transaction along.
    pub open spec fn drops_first(self) -> bool {
        self.in_transaction() && (self.target.scope == TransactionScope::PerPage
            || self.step is Committing)
    }
}

impl TargetView {
    pub open spec fn at<E>(self, step: StepView<E>, action: ActionView<E>) -> (
        RunView<E>,
        ActionView<E>,
    ) {
        (RunView { target: self, step }, action)
    }

    pub open spec fn started<E>(self) -> (RunView<E>, ActionView<E>) {
        match self.scope {
            TransactionScope::PerPage => self.at(
                StepView::AddingColumn,
                ActionView::AddSeenColumn,
            ),
            TransactionScope::WholeRun => self.at(StepView::Beginning(None), ActionView::Begin),
        }
    }

    pub open spec fn finished<E>(self) -> (RunView<E>, ActionView<E>) {
        self.at(StepView::Finished, ActionView::Finish)
    }

    pub open spec fn listing<E>(self, token: Option<Seq<char>>) -> (RunView<E>, ActionView<E>) {
        self.at(
            StepView::Listing,
            ActionView::List {
                bucket: self.bucket,
                max_keys: self.max_keys,
                continuation_token: token,
            },
        )
    }

    pub open spec fn sweeping<E>(self) -> (RunView<E>, ActionView<E>) {
        self.at(StepView::FetchingUnseen, ActionView::FetchUnseen)
    }

    pub open spec fn dropping<E>(self) -> (RunView<E>, ActionView<E>) {
        self.at(StepView::DroppingColumn, ActionView::DropSeenColumn)
    }

    pub open spec fn rolling_back<E>(self, resumption: Resumption<E>) -> (
        RunView<E>,
        ActionView<E>,
    ) {
        self.at(StepView::RollingBack(resumption), ActionView::Rollback)
    }

    pub open spec fn reporting<E>(self, error: E, open: bool) -> (RunView<E>, ActionView<E>) {
        self.at(StepView::Reporting(open), ActionView::SendError { error })
    }

    /// What comes after the transaction was dropped.
    pub open spec fn resuming<E>(self, resumption: Resumption<E>) -> (RunView<E>, ActionView<E>) {
        match resumption {
            Resumption::Sweep => self.sweeping(),
            Resumption::Report(error) => self.reporting(error, false),
            Resumption::Stop => self.finished(),
        }
    }

    pub open spec fn committing<E>(self, continuation: ContinuationView) -> (
        RunView<E>,
        ActionView<E>,
    ) {
        self.at(StepView::Committing(continuation), ActionView::Commit)
    }

    /// What comes after a page whose work is done.
    pub open spec fn after_page<E>(self, continuation: ContinuationView) -> (
        RunView<E>,
        ActionView<E>,
    ) {
        match continuation {
            ContinuationView::More(token) => match self.scope {
                TransactionScope::PerPage => self.at(
                    StepView::Beginning(token),
                    ActionView::Begin,
                ),
                TransactionScope::WholeRun => self.listing(token),
            },
            ContinuationView::Complete => self.sweeping(),
        }
    }

    /// What comes at a place of a page: its object, or the end of the page.
    pub open spec fn visiting<E>(self, cursor: CursorView) -> (RunView<E>, ActionView<E>) {
        if cursor.next < cursor.objects.len() {
            self.at(
                StepView::Fetching(cursor),
                ActionView::FetchPrevious { key: cursor.object().key },
            )
        } else {
            match self.scope {
                TransactionScope::PerPage => self.committing(cursor.continuation),
                TransactionScope::WholeRun => self.after_page(cursor.continuation),
            }
        }
    }

    pub open spec fn inserting<E>(self, cursor: CursorView, change: ChangeView) -> (
        RunView<E>,
        ActionView<E>,
    ) {
        self.at(
            StepView::Inserting(cursor, change),
            ActionView::Insert { object: cursor.object() },
        )
    }

    /// What comes once the recorded state of the object at a place is known: a new object is
    /// recorded, a known one is marked.
    pub open spec fn comparing<E>(self, cursor: CursorView, previous: Option<CompactView>) -> (
        RunView<E>,
        ActionView<E>,
    ) {
        let change = judged(cursor.object(), previous);
        match previous {
            None => self.inserting(cursor, change->0),
            Some(_) => self.at(
                StepView::Marking(cursor, change),
                ActionView::MarkSeen { key: cursor.object().key },
            ),
        }
    }

    /// What comes at a place among the objects that were not marked.
    pub open spec fn deleting<E>(self, rows: RowsView, next: int) -> (RunView<E>, ActionView<E>) {
        if next < rows.len() {
            self.at(
                StepView::SendingDeleted(rows, next),
                ActionView::Send {
                    change: ChangeView::Deleted(restored(rows[next].0, rows[next].1)),
                },
            )
        } else {
            self.dropping()
        }
    }
}

impl<E> RunView<E> {
    /// How a run goes on after an outcome, and what it asks for next. An outcome that does not
    /// belong to the action ends the run.
    pub open spec fn after(self, event: EventView<E>) -> (RunView<E>, ActionView<E>) {
        let target = self.target;
        let per_page = target.scope == TransactionScope::PerPage;
        if self.step.fallible() && event is Failed {
            if self.drops_first() {
                target.rolling_back(Resumption::Report(event->Failed_0))
            } else {
                target.reporting(event->Failed_0, self.in_transaction())
            }
        } else {
            match self.step {
                // Whether the column was there before does not matter.
                StepView::AddingColumn if event is Done || event is Failed => target.at(
                    StepView::ResettingSeen,
                    ActionView::ResetSeen,
                ),
                StepView::ResettingSeen if event is Done => if per_page {
                    target.at(StepView::Beginning(None), ActionView::Begin)
                } else {
                    target.listing(None)
                },
                StepView::Beginning(token) if event is Done => if per_page {
                    target.listing(token)
                } else {
                    target.at(StepView::AddingColumn, ActionView::AddSeenColumn)
                },
                StepView::Listing if event is Listed => target.visiting(
                    page_start(event->Listed_0),
                ),
                StepView::Fetching(cursor) if event is Fetched => target.comparing(
                    cursor,
                    event->Fetched_0,
                ),
                StepView::Marking(cursor, change) if event is Done => match change {
                    Some(c) => target.inserting(cursor, c),
                    None => target.visiting(cursor.advanced()),
                },
                StepView::Inserting(cursor, change) if event is Done => target.at(
                    StepView::Sending(cursor),
                    ActionView::Send { change },
                ),
                StepView::Sending(cursor) if event is Accepted => target.visiting(
                    cursor.advanced(),
                ),
                StepView::Sending(cursor) if event is Closed => target.rolling_back(
                    if per_page {
                        Resumption::Sweep
                    } else {
                        Resumption::Stop
                    },
                ),
                StepView::Committing(continuation) if event is Done => if per_page {
                    target.after_page(continuation)
                } else {
                    target.finished()
                },
                StepView::FetchingUnseen if event is Unseen => target.deleting(
                    event->Unseen_0,
                    0,
                ),
                StepView::SendingDeleted(rows, next) if event is Accepted => target.at(
                    StepView::Deleting(rows, next),
                    ActionView::Delete { key: rows[next].0 },
                ),
                StepView::SendingDeleted(rows, next) if event is Closed => if per_page {
                    target.dropping()
                } else {
                    target.rolling_back(Resumption::Stop)
                },
                StepView::Deleting(rows, next) if event is Done => target.deleting(rows, next + 1),
                // Nor does it matter whether the column could be dropped.
                StepView::DroppingColumn if event is Done || event is Failed => target.at(
                    StepView::ReadingClock,
                    ActionView::ReadClock,
                ),
                StepView::ReadingClock if event is Clock => target.at(
                    StepView::Recording,
                    ActionView::RecordSync { now: event->Clock_0 },
                ),
                StepView::Recording if event is Done => if per_page {
                    target.finished()
                } else {
                    target.committing(ContinuationView::Complete)
                },
                // A transaction that cannot be rolled back is gone all the same.
                StepView::RollingBack(resumption) if event is Done || event is Failed =>
                    target.resuming(resumption),
                StepView::Reporting(true) => target.rolling_back(Resumption::Stop),
                _ => target.finished(),
            }
        }
    }
}

/// The objects that a page describes.
fn parse_page(contents: &Vec<ListedObject>) -> (objects: Vec<S3Object>)
    ensures
        views(objects@) == all_parsed(views(contents@)),
{
    let mut objects: Vec<S3Object> = Vec::new();
    let ghost entries = views(contents@);
    assert(views(objects@) =~= all_parsed(entries.take(0)));
    for i in 0..contents.len()
        invariant
            entries == views(contents@),
            views(objects@) == all_parsed(entries.take(i as int)),
    {
        assert(entries.take(i + 1).drop_last() =~= entries.take(i as int));
        assert(entries.take(i + 1).last() == contents@[i as int]@);
        let ghost before = views(objects@);
        if let Some(object) = S3::parse_aws_object(&contents[i]) {
            objects.push(object);
            assert(views(objects@) =~= before.push(object@));
        }
    }
    assert(entries.take(contents@.len() as int) =~= entries);
    objects
}

impl Cursor {
    /// The next place. There is an object at this one.
    fn advanced(self) -> (next: Cursor)
        requires
            self@.wf(),
        ensures
            next@ == self@.advanced(),
    {
        assert(self.next < self.objects.len());
        Cursor { objects: self.objects, next: self.next + 1, continuation: self.continuation }
    }
}

impl<E> Step<E> {
    fn fallible(&self) -> (answer: bool)
        ensures
            answer == self@.fallible(),
    {
        match self {
            Step::ResettingSeen => true,
            Step::Beginning(_) => true,
            Step::Listing => true,
            Step::Fetching(_) => true,
            Step::Marking(_, _) => true,
            Step::Inserting(_, _) => true,
            Step::Committing(_) => true,
            Step::FetchingUnseen => true,
            Step::Deleting(_, _) => true,
            Step::Recording => true,
            _ => false,
        }
    }

    fn in_transaction(&self, scope: TransactionScope) -> (answer: bool)
        ensures
            forall|target: TargetView|
                target.scope == scope ==> answer == #[trigger] (RunView {
                    target,
                    step: self@,
                }).in_transaction(),
    {
        match scope {
            TransactionScope::PerPage => match self {
                Step::Listing => true,
                Step::Fetching(_) => true,
                Step::Marking(_, _) => true,
                Step::Inserting(_, _) => true,
                Step::Sending(_) => true,
                Step::Committing(_) => true,
                Step::RollingBack(_) => true,
                _ => false,
            },
            TransactionScope::WholeRun => match self {
                Step::Beginning(_) => false,
                Step::Reporting(open) => *open,
                Step::Finished => false,
                _ => true,
            },
        }
    }
}

impl Target {
    fn at<E>(self, step: Step<E>, action: Action<E>) -> (next: (SyncRun<E>, Action<E>))
        requires
            step@.wf(),
        ensures
            (next.0@, next.1@) == self@.at(step@, action@),
    {
        (SyncRun { target: self, step }, action)
    }

    fn listing<E>(self, token: Option<String>) -> (next: (SyncRun<E>, Action<E>))
        ensures
            (next.0@, next.1@) == self@.listing::<E>(viewed(token)),
    {
        let action = Action::List {
            bucket: self.bucket.clone(),
            max_keys: self.max_keys,
            continuation_token: token,
        };
        self.at(Step::Listing, action)
    }

    fn after_page<E>(self, continuation: Continuation) -> (next: (SyncRun<E>, Action<E>))
        ensures
            (next.0@, next.1@) == self@.after_page::<E>(continuation@),
    {
        match continuation {
            Continuation::More(token) => match self.scope {
                TransactionScope::PerPage => self.at(Step::Beginning(token), Action::Begin),
                TransactionScope::WholeRun => self.listing(token),
            },
            Continuation::Complete => self.at(Step::FetchingUnseen, Action::FetchUnseen),
        }
    }

    fn visiting<E>(self, cursor: Cursor) -> (next: (SyncRun<E>, Action<E>))
        ensures
            (next.0@, next.1@) == self@.visiting::<E>(cursor@),
    {
        if cursor.next < cursor.objects.len() {
            let key = cursor.objects[cursor.next].key.clone();
            self.at(Step::Fetching(cursor), Action::FetchPrevious { key })
        } else {
            match self.scope {
                TransactionScope::PerPage => self.at(
                    Step::Committing(cursor.continuation),
                    Action::Commit,
                ),
                TransactionScope::WholeRun => self.after_page(cursor.continuation),
            }
        }
    }

    fn inserting<E>(self, cursor: Cursor, change: Change) -> (next: (SyncRun<E>, Action<E>))
        requires
            cursor@.wf(),
        ensures
            (next.0@, next.1@) == self@.inserting::<E>(cursor@, change@),
    {
        let object = cursor.objects[cursor.next].clone();
        self.at(Step::Inserting(cursor, change), Action::Insert { object })
    }

    fn comparing<E>(self, cursor: Cursor, previous: Option<CompactS3Object>) -> (next: (
        SyncRun<E>,
        Action<E>,
    ))
        requires
            cursor@.wf(),
        ensures
            (next.0@, next.1@) == self@.comparing::<E>(cursor@, viewed(previous)),
    {
        let plan = S3::process_s3_object(&cursor.objects[cursor.next], previous);
        match (plan.mark_seen, plan.change) {
            (false, Some(change)) => self.inserting(cursor, change),
            (_, change) => {
                let key = cursor.objects[cursor.next].key.clone();
                self.at(Step::Marking(cursor, change), Action::MarkSeen { key })
            },
        }
    }

    fn failing<E>(self, step: Step<E>, error: E) -> (next: (SyncRun<E>, Action<E>))
        ensures
            (next.0@, next.1@) == if !step@.fallible() {
                self@.finished::<E>()
            } else if (RunView { target: self@, step: step@ }).drops_first() {
                self@.rolling_back(Resumption::Report(error))
            } else {
                self@.reporting(
                    error,
                    (RunView { target: self@, step: step@ }).in_transaction(),
                )
            },
    {
        if !step.fallible() {
            return self.at(Step::Finished, Action::Finish);
        }
        let open = step.in_transaction(self.scope);
        let drops_first = open && match (self.scope, &step) {
            (TransactionScope::PerPage, _) => true,
            (_, Step::Committing(_)) => true,
            _ => false,
        };
        if drops_first {
            self.at(Step::RollingBack(Resumption::Report(error)), Action::Rollback)
        } else {
            self.at(Step::Reporting(open), Action::SendError { error })
        }
    }

    fn resuming<E>(self, resumption: Resumption<E>) -> (next: (SyncRun<E>, Action<E>))
        ensures
            (next.0@, next.1@) == self@.resuming(resumption),
    {
        match resumption {
            Resumption::Sweep => self.at(Step::FetchingUnseen, Action::FetchUnseen),
            Resumption::Report(error) => self.at(
                Step::Reporting(false),
                Action::SendError { error },
            ),
            Resumption::Stop => self.at(Step::Finished, Action::Finish),
        }
    }

    fn deleting<E>(self, rows: Rows, next: usize) -> (result: (SyncRun<E>, Action<E>))
        ensures
            (result.0@, result.1@) == self@.deleting::<E>(views(rows@), next as int),
    {
        if next < rows.len() {
            let (key, state) = &rows[next];
            let change = Change::Deleted(S3::compact_to_s3_object(key, state));
            self.at(Step::SendingDeleted(rows, next), Action::Send { change })
        } else {
            self.at(Step::DroppingColumn, Action::DropSeenColumn)
        }
    }
}

/// A run that waits for the outcome of its last action.
#[derive(Debug)]
pub struct SyncRun<E> {
    target: Target,
    step: Step<E>,
}

impl<E> View for SyncRun<E> {
    type V = RunView<E>;

    closed spec fn view(&self) -> RunView<E> {
        RunView { target: self.target@, step: self.step@ }
    }
}

impl<E> SyncRun<E> {
    #[verifier::type_invariant]
    spec fn type_inv(self) -> bool {
        self.step@.wf()
    }

    /// Starts a run, with its first action.
    pub fn start(target: Target) -> (first: (SyncRun<E>, Action<E>))
        ensures
            (first.0@, first.1@) == target@.started::<E>(),
    {
        match target.scope {
            TransactionScope::PerPage => target.at(Step::AddingColumn, Action::AddSeenColumn),
            TransactionScope::WholeRun => target.at(Step::Beginning(None), Action::Begin),
        }
    }

    /// Takes the outcome of the last action, and names the next one.
    pub fn after(self, event: Event<E>) -> (next: (SyncRun<E>, Action<E>))
        ensures
            (next.0@, next.1@) == self@.after(event@),
    {
        proof {
            use_type_invariant(&self);
        }
        let SyncRun { target, step } = self;
        let scope = target.scope;
        match (step, event) {
            // Whether the column was there before does not matter.
            (Step::AddingColumn, Event::Done) => target.at(Step::ResettingSeen, Action::ResetSeen),
            (Step::AddingColumn, Event::Failed(_)) => target.at(
                Step::ResettingSeen,
                Action::ResetSeen,
            ),
            (Step::ResettingSeen, Event::Done) => match scope {
                TransactionScope::PerPage => target.at(Step::Beginning(None), Action::Begin),
                TransactionScope::WholeRun => target.listing(None),
            },
            (Step::Beginning(token), Event::Done) => match scope {
                TransactionScope::PerPage => target.listing(token),
                TransactionScope::WholeRun => target.at(Step::AddingColumn, Action::AddSeenColumn),
            },
            (Step::Listing, Event::Listed(page)) => {
                let objects = parse_page(&page.contents);
                let continuation = match page.is_truncated {
                    Some(true) => Continuation::More(page.next_continuation_token),
                    _ => Continuation::Complete,
                };
                target.visiting(Cursor { objects, next: 0, continuation })
            },
            (Step::Fetching(cursor), Event::Fetched(previous)) => target.comparing(
                cursor,
                previous,
            ),
            (Step::Marking(cursor, Some(change)), Event::Done) => target.inserting(cursor, change),
            (Step::Marking(cursor, None), Event::Done) => target.visiting(cursor.advanced()),
            (Step::Inserting(cursor, change), Event::Done) => target.at(
                Step::Sending(cursor),
                Action::Send { change },
            ),
            (Step::Sending(cursor), Event::Accepted) => target.visiting(cursor.advanced()),
            (Step::Sending(_), Event::Closed) => {
                let resumption = match scope {
                    TransactionScope::PerPage => Resumption::Sweep,
                    TransactionScope::WholeRun => Resumption::Stop,
                };
                target.at(Step::RollingBack(resumption), Action::Rollback)
            },
            (Step::Committing(continuation), Event::Done) => match scope {
                TransactionScope::PerPage => target.after_page(continuation),
                TransactionScope::WholeRun => target.at(Step::Finished, Action::Finish),
            },
            (Step::FetchingUnseen, Event::Unseen(rows)) => target.deleting(rows, 0),
            (Step::SendingDeleted(rows, next), Event::Accepted) => {
                let key = rows[next].0.clone();
                target.at(Step::Deleting(rows, next), Action::Delete { key })
            },
            (Step::SendingDeleted(_, _), Event::Closed) => match scope {
                TransactionScope::PerPage => target.at(
                    Step::DroppingColumn,
                    Action::DropSeenColumn,
                ),
                TransactionScope::WholeRun => target.at(
                    Step::RollingBack(Resumption::Stop),
                    Action::Rollback,
                ),
            },
            (Step::Deleting(rows, next), Event::Done) => {
                assert(next < rows.len());
                target.deleting(rows, next + 1)
            },
            // Nor does it matter whether the column could be dropped.
            (Step::DroppingColumn, Event::Done) => target.at(
                Step::ReadingClock,
                Action::ReadClock,
            ),
            (Step::DroppingColumn, Event::Failed(_)) => target.at(
                Step::ReadingClock,
                Action::ReadClock,
            ),
            (Step::ReadingClock, Event::Clock(now)) => target.at(
                Step::Recording,
                Action::RecordSync { now },
            ),
            (Step::Recording, Event::Done) => match scope {
                TransactionScope::PerPage => target.at(Step::Finished, Action::Finish),
                TransactionScope::WholeRun => target.at(
                    Step::Committing(Continuation::Complete),
                    Action::Commit,
                ),
            },
            // A transaction that cannot be rolled back is gone all the same.
            (Step::RollingBack(resumption), Event::Done) => target.resuming(resumption),
            (Step::RollingBack(resumption), Event::Failed(_)) => target.resuming(resumption),
            (Step::Reporting(true), _) => target.at(
                Step::RollingBack(Resumption::Stop),
                Action::Rollback,
            ),
            (step, Event::Failed(error)) => target.failing(step, error),
            _ => target.at(Step::Finished, Action::Finish),
        }
    }
}

} // verus!
