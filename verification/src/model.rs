//! What runs do to the recorded state of a bucket.
//!
//! A run is followed together with its surroundings: a database with at most one transaction, and
//! a consumer that may go away. Any statement may fail, and a run may be cut off after any action.
//! Before that, the database is opened, which brings its tables into being where they are missing.
use crate::object::{ChangeView, ObjectView};
use crate::s3::{judged, restored, stored, CompactView};
use crate::statement::{
    plain, StatementView, CREATE_ETAG_INDEX, CREATE_METADATA, CREATE_OBJECT_STATE,
};
use crate::sync::{all_parsed, ActionView, EventView, PageView, RowsView, RunView, TargetView};
use crate::text::signed_decimal;
use vstd::prelude::*;

verus! {

/// Recorded states, by key.
pub type States = Map<Seq<char>, CompactView>;

/// Facts about the runs, by name.
pub type Facts = Map<Seq<char>, Seq<char>>;

/// The tables of a database.
pub struct Table {
    pub rows: States,
    /// The marked keys.
    pub seen: Set<Seq<char>>,
    /// Whether there is a column of marks.
    pub column: bool,
    pub metadata: Facts,
}

/// The table of recorded objects alone.
pub struct Objects {
    pub rows: States,
    pub seen: Set<Seq<char>>,
    pub column: bool,
}

/// A database, each of whose tables may be missing.
pub struct Database {
    pub objects: Option<Objects>,
    pub metadata: Option<Facts>,
    /// Whether the recorded objects are indexed by their tags.
    pub indexed: bool,
}

/// One thing that opening a database makes sure of.
pub enum Preparation {
    ObjectState,
    Metadata,
    EtagIndex,
}

impl Preparation {
    /// The statement that it is done with.
    pub open spec fn statement(self) -> StatementView {
        match self {
            Preparation::ObjectState => plain(CREATE_OBJECT_STATE@),
            Preparation::Metadata => plain(CREATE_METADATA@),
            Preparation::EtagIndex => plain(CREATE_ETAG_INDEX@),
        }
    }
}

/// What opening a database makes sure of, in order.
pub open spec fn preparations() -> Seq<Preparation> {
    seq![Preparation::ObjectState, Preparation::Metadata, Preparation::EtagIndex]
}

impl Database {
    /// The database once one thing was made sure of, unless that fails: what exists stays as it
    /// is, and an index needs its table.
    pub open spec fn prepared(self, preparation: Preparation) -> Option<Database> {
        match preparation {
            Preparation::ObjectState => Some(
                Database {
                    objects: match self.objects {
                        Some(objects) => Some(objects),
                        None => Some(
                            Objects { rows: Map::empty(), seen: Set::empty(), column: false },
                        ),
                    },
                    ..self
                },
            ),
            Preparation::Metadata => Some(
                Database {
                    metadata: match self.metadata {
                        Some(facts) => Some(facts),
                        None => Some(Map::empty()),
                    },
                    ..self
                },
            ),
            Preparation::EtagIndex => match self.objects {
                Some(_) => Some(Database { indexed: true, ..self }),
                None => None,
            },
        }
    }

    /// The database after several preparations, unless one of them fails.
    pub open spec fn prepared_all(self, all: Seq<Preparation>) -> Option<Database>
        decreases all.len(),
    {
        if all.len() == 0 {
            Some(self)
        } else {
            match self.prepared(all.first()) {
                Some(next) => next.prepared_all(all.drop_first()),
                None => None,
            }
        }
    }

    /// The database once it is open.
    pub open spec fn opened(self) -> Option<Database> {
        self.prepared_all(preparations())
    }

    /// What the tables hold. A missing table holds nothing.
    pub open spec fn contents(self) -> Table {
        let objects = match self.objects {
            Some(objects) => objects,
            None => Objects { rows: Map::empty(), seen: Set::empty(), column: false },
        };
        Table {
            rows: objects.rows,
            seen: objects.seen,
            column: objects.column,
            metadata: match self.metadata {
                Some(facts) => facts,
                None => Map::empty(),
            },
        }
    }
}

/// The recorded state under a key, if there is one.
pub open spec fn lookup(rows: States, key: Seq<char>) -> Option<CompactView> {
    if rows.contains_key(key) {
        Some(rows[key])
    } else {
        None
    }
}

/// The keys of some objects.
pub open spec fn keys(objects: Seq<ObjectView>) -> Set<Seq<char>> {
    Set::new(|key: Seq<char>| exists|i: int| 0 <= i < objects.len() && objects[i].key == key)
}

/// Whether no key occurs twice.
pub open spec fn distinct_keys(objects: Seq<ObjectView>) -> bool {
    forall|i: int, j: int| 0 <= i < j < objects.len() ==> objects[i].key != objects[j].key
}

/// The recorded states once the objects of a listing were compared with them, one by one: the
/// state of an object is replaced where the object stands for a change.
pub open spec fn absorbed(rows: States, objects: Seq<ObjectView>) -> States
    decreases objects.len(),
{
    if objects.len() == 0 {
        rows
    } else {
        let before = absorbed(rows, objects.drop_last());
        let object = objects.last();
        match judged(object, lookup(before, object.key)) {
            Some(_) => before.insert(object.key, stored(object)),
            None => before,
        }
    }
}

/// The changes that the objects of a listing stand for, when they are compared one by one.
pub open spec fn reported(rows: States, objects: Seq<ObjectView>) -> Seq<ChangeView>
    decreases objects.len(),
{
    if objects.len() == 0 {
        seq![]
    } else {
        let before = reported(rows, objects.drop_last());
        let object = objects.last();
        match judged(object, lookup(absorbed(rows, objects.drop_last()), object.key)) {
            Some(change) => before.push(change),
            None => before,
        }
    }
}

/// Recorded states with one change applied.
pub open spec fn applied(rows: States, change: ChangeView) -> States {
    match change {
        ChangeView::Added(object) => rows.insert(object.key, stored(object)),
        ChangeView::Modified { old, new } => rows.insert(new.key, stored(new)),
        ChangeView::Deleted(object) => rows.remove(object.key),
    }
}

/// Recorded states with changes applied in order.
pub open spec fn replayed(rows: States, changes: Seq<ChangeView>) -> States
    decreases changes.len(),
{
    if changes.len() == 0 {
        rows
    } else {
        applied(replayed(rows, changes.drop_last()), changes.last())
    }
}

/// Whether `found` lists, in any order, each recorded object whose key is not among `seen`.
pub open spec fn lists_unseen(rows: States, seen: Set<Seq<char>>, found: RowsView) -> bool {
    &&& forall|i: int, j: int| 0 <= i < j < found.len() ==> found[i].0 != found[j].0
    &&& forall|i: int|
        0 <= i < found.len() ==> {
            &&& #[trigger] rows.contains_key(found[i].0)
            &&& rows[found[i].0] == found[i].1
            &&& !seen.contains(found[i].0)
        }
    &&& forall|key: Seq<char>| #[trigger]
        rows.contains_key(key) && !seen.contains(key) ==> exists|i: int|
            0 <= i < found.len() && found[i].0 == key
}

/// The deletions of some recorded objects.
pub open spec fn deletions(found: RowsView) -> Seq<ChangeView> {
    Seq::new(found.len(), |i: int| ChangeView::Deleted(restored(found[i].0, found[i].1)))
}

/// The keys of the first `count` of some objects.
pub open spec fn first_keys(found: RowsView, count: int) -> Set<Seq<char>> {
    Set::new(
        |key: Seq<char>| exists|i: int| 0 <= i < count && i < found.len() && found[i].0 == key,
    )
}

/// Recorded states without the first `count` of some objects.
pub open spec fn without(rows: States, found: RowsView, count: int) -> States {
    rows.remove_keys(first_keys(found, count))
}

impl Table {
    pub open spec fn reset(self) -> Table {
        Table { seen: Set::empty(), ..self }
    }

    pub open spec fn inserted(self, object: ObjectView) -> Table {
        Table {
            rows: self.rows.insert(object.key, stored(object)),
            seen: self.seen.insert(object.key),
            ..self
        }
    }

    pub open spec fn marked(self, key: Seq<char>) -> Table {
        if self.rows.contains_key(key) {
            Table { seen: self.seen.insert(key), ..self }
        } else {
            self
        }
    }

    pub open spec fn removed(self, key: Seq<char>) -> Table {
        Table { rows: self.rows.remove(key), seen: self.seen.remove(key), ..self }
    }

    /// With a column of marks, none of which is set.
    pub open spec fn with_column(self) -> Table {
        Table { seen: Set::empty(), column: true, ..self }
    }

    pub open spec fn without_column(self) -> Table {
        Table { seen: Set::empty(), column: false, ..self }
    }

    /// With the time at which a run came to its end.
    pub open spec fn noted(self, now: i64) -> Table {
        Table {
            metadata: self.metadata.insert("last_updated"@, signed_decimal(now as int)),
            ..self
        }
    }
}

/// What surrounds a run.
pub struct World<E> {
    /// What the database holds if the process stops now.
    pub committed: Table,
    /// What the statements of the run see.
    pub working: Table,
    /// Whether a transaction is open.
    pub open: bool,
    /// Whether the consumer is gone.
    pub closed: bool,
    /// The changes that the consumer took.
    pub delivered: Seq<ChangeView>,
    /// How many of them had been taken when the database last kept what was written.
    pub acknowledged: nat,
    /// The objects that were listed.
    pub listed: Seq<ObjectView>,
    /// How many of them had been listed when the database last kept what was written.
    pub covered: nat,
    /// How many of them were on the last page.
    pub page_size: nat,
    /// How many pages were listed.
    pub pages: nat,
    /// The tokens that they were listed with.
    pub asked: Seq<Option<Seq<char>>>,
    /// The pages themselves.
    pub served: Seq<PageView>,
    /// The time that was read.
    pub clock: Option<i64>,
    /// Whether the column of marks could not be dropped.
    pub undropped: bool,
    /// The errors that were reported.
    pub errors: Seq<E>,
}

impl<E> World<E> {
    /// The surroundings of a run that has not begun.
    pub open spec fn initial(table: Table) -> World<E> {
        World {
            committed: table,
            working: table,
            open: false,
            closed: false,
            delivered: seq![],
            acknowledged: 0,
            listed: seq![],
            covered: 0,
            page_size: 0,
            pages: 0,
            asked: seq![],
            served: seq![],
            clock: None,
            undropped: false,
            errors: seq![],
        }
    }

    /// The database keeps what is written outside of a transaction at once.
    pub open spec fn written(self, table: Table) -> World<E> {
        if self.open {
            World { working: table, ..self }
        } else {
            World {
                working: table,
                committed: table,
                acknowledged: self.delivered.len(),
                covered: self.listed.len(),
                ..self
            }
        }
    }

    /// The tables change in what has nothing to do with the objects.
    pub open spec fn altered(self, table: Table) -> World<E> {
        World {
            working: table,
            committed: if self.open {
                self.committed
            } else {
                table
            },
            ..self
        }
    }

    /// Whether an action can have this outcome, with these surroundings after it.
    pub open spec fn answers(
        self,
        action: ActionView<E>,
        event: EventView<E>,
        next: World<E>,
    ) -> bool {
        match action {
            ActionView::AddSeenColumn => {
                ||| event is Failed && next == self
                ||| event is Done && !self.working.column && next == self.altered(
                    self.working.with_column(),
                )
            },
            ActionView::DropSeenColumn => {
                ||| event is Failed && next == (World { undropped: true, ..self })
                ||| event is Done && self.working.column && next == self.altered(
                    self.working.without_column(),
                )
            },
            ActionView::ReadClock => event is Clock && next == (World {
                clock: Some(event->Clock_0),
                ..self
            }),
            ActionView::SendError { error } => event is Done && next == (World {
                errors: self.errors.push(error),
                ..self
            }),
            // SQLite refuses a rollback only where the transaction is gone already.
            ActionView::Rollback => (event is Done || event is Failed) && next == (World {
                working: self.committed,
                open: false,
                ..self
            }),
            ActionView::Finish => false,
            ActionView::Send { change } => {
                ||| event is Accepted && !self.closed && next == (World {
                    delivered: self.delivered.push(change),
                    ..self
                })
                ||| event is Closed && next == (World { closed: true, ..self })
            },
            // A commit may have taken place although it failed.
            ActionView::Commit => {
                ||| event is Failed && (next == self || next == (World {
                    open: true,
                    ..self.kept()
                }))
                ||| self.succeeds(action, event, next)
            },
            _ => {
                ||| event is Failed && next == self
                ||| self.succeeds(action, event, next)
            },
        }
    }

    /// The transaction is committed.
    pub open spec fn kept(self) -> World<E> {
        World {
            committed: self.working,
            open: false,
            acknowledged: self.delivered.len(),
            covered: self.listed.len(),
            ..self
        }
    }

    /// The outcome of an action that can fail, where it does not. Marks need their column.
    pub open spec fn succeeds(
        self,
        action: ActionView<E>,
        event: EventView<E>,
        next: World<E>,
    ) -> bool {
        match action {
            ActionView::ResetSeen => event is Done && self.working.column && next == self.written(
                self.working.reset(),
            ),
            ActionView::Begin => event is Done && next == (World {
                working: self.committed,
                open: true,
                ..self
            }),
            ActionView::List { continuation_token, .. } => event is Listed && next == (World {
                listed: self.listed + all_parsed(event->Listed_0.contents),
                page_size: all_parsed(event->Listed_0.contents).len(),
                pages: self.pages + 1,
                asked: self.asked.push(continuation_token),
                served: self.served.push(event->Listed_0),
                ..self
            }),
            ActionView::FetchPrevious { key } => event == EventView::<E>::Fetched(
                lookup(self.working.rows, key),
            ) && next == self,
            ActionView::Insert { object } => event is Done && self.working.column && next
                == self.written(self.working.inserted(object)),
            ActionView::MarkSeen { key } => event is Done && self.working.column && next
                == self.written(self.working.marked(key)),
            ActionView::Commit => event is Done && next == self.kept(),
            ActionView::FetchUnseen => event is Unseen && self.working.column && lists_unseen(
                self.working.rows,
                self.working.seen,
                event->Unseen_0,
            ) && next == self,
            ActionView::Delete { key } => event is Done && next == self.written(
                self.working.removed(key),
            ),
            ActionView::RecordSync { now } => event is Done && next == self.altered(
                self.working.noted(now),
            ),
            _ => false,
        }
    }
}

/// A run in the middle of its course.
pub struct Moment<E> {
    pub run: RunView<E>,
    /// The action that is about to be performed.
    pub action: ActionView<E>,
    pub world: World<E>,
}

impl<E> Moment<E> {
    /// The start of a run.
    pub open spec fn initial(target: TargetView, table: Table) -> Moment<E> {
        Moment {
            run: target.started().0,
            action: target.started().1,
            world: World::initial(table),
        }
    }

    /// Whether `next` can come right after this moment, with this outcome of its action.
    pub open spec fn leads_to_by(self, event: EventView<E>, next: Moment<E>) -> bool {
        &&& self.world.answers(self.action, event, next.world)
        &&& (next.run, next.action) == self.run.after(event)
    }

    /// Whether `next` can come right after this moment.
    pub open spec fn leads_to(self, next: Moment<E>) -> bool {
        exists|event: EventView<E>| self.leads_to_by(event, next)
    }
}

/// Whether `moments` is the course of a run over a recorded state, from its start to some point.
pub open spec fn is_course<E>(target: TargetView, table: Table, moments: Seq<Moment<E>>) -> bool
    decreases moments.len(),
{
    if moments.len() == 0 {
        false
    } else if moments.len() == 1 {
        moments[0] == Moment::<E>::initial(target, table)
    } else {
        &&& is_course(target, table, moments.drop_last())
        &&& moments.drop_last().last().leads_to(moments.last())
    }
}

} // verus!
