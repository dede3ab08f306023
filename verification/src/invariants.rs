//! What holds at every moment of a run.
use crate::model::{
    absorbed, applied, deletions, is_course, keys, lists_unseen, lookup, replayed, reported,
    without, Moment, States, Table, World,
};
use crate::object::{ChangeView, ListedView, ObjectView};
use crate::s3::{judged, restored, stored};
use crate::sync::{
    all_parsed, ActionView, CursorView, EventView, Resumption, RowsView, RunView, StepView,
    TargetView, TransactionScope,
};
use vstd::prelude::*;

verus! {

/// Whether an action is the one whose outcome a run waits for.
pub open spec fn matches_step<E>(step: StepView<E>, action: ActionView<E>) -> bool {
    match step {
        StepView::AddingColumn => action is AddSeenColumn,
        StepView::ResettingSeen => action is ResetSeen,
        StepView::Beginning(_) => action is Begin,
        StepView::Listing => action is List,
        StepView::Fetching(cursor) => action == ActionView::<E>::FetchPrevious {
            key: cursor.object().key,
        },
        StepView::Marking(cursor, _) => action == ActionView::<E>::MarkSeen {
            key: cursor.object().key,
        },
        StepView::Inserting(cursor, _) => action == ActionView::<E>::Insert {
            object: cursor.object(),
        },
        StepView::Sending(_) => action is Send,
        StepView::Committing(_) => action is Commit,
        StepView::FetchingUnseen => action is FetchUnseen,
        StepView::SendingDeleted(found, next) => action == ActionView::<E>::Send {
            change: ChangeView::Deleted(restored(found[next].0, found[next].1)),
        },
        StepView::Deleting(found, next) => action == ActionView::<E>::Delete {
            key: found[next].0,
        },
        StepView::DroppingColumn => action is DropSeenColumn,
        StepView::ReadingClock => action is ReadClock,
        StepView::Recording => action is RecordSync,
        StepView::RollingBack(_) => action is Rollback,
        StepView::Reporting(_) => action is SendError,
        StepView::Finished => action is Finish,
    }
}

/// Whether a step can come after the consumer has gone.
pub open spec fn after_closing<E>(run: RunView<E>) -> bool {
    match run.step {
        StepView::RollingBack(_) => true,
        StepView::Reporting(_) => true,
        StepView::Finished => true,
        StepView::FetchingUnseen => run.target.scope == TransactionScope::PerPage,
        StepView::SendingDeleted(_, _) => run.target.scope == TransactionScope::PerPage,
        StepView::DroppingColumn => run.target.scope == TransactionScope::PerPage,
        StepView::ReadingClock => run.target.scope == TransactionScope::PerPage,
        StepView::Recording => run.target.scope == TransactionScope::PerPage,
        _ => false,
    }
}

/// Whether recording an object is what a change amounts to.
pub open spec fn records(change: ChangeView, object: ObjectView) -> bool {
    change == ChangeView::Added(object) || (change is Modified && change->new == object)
}

/// How the working table relates to the changes that the consumer took.
pub open spec fn in_step<E>(rows: States, moment: Moment<E>) -> bool {
    let world = moment.world;
    match moment.run.step {
        StepView::RollingBack(_) => true,
        StepView::Reporting(_) => true,
        StepView::Finished => true,
        StepView::Marking(cursor, change) => {
            &&& world.working.rows == replayed(rows, world.delivered)
            &&& change matches Some(c) ==> records(c, cursor.object())
        },
        StepView::Inserting(cursor, change) => {
            &&& world.working.rows == replayed(rows, world.delivered)
            &&& records(change, cursor.object())
        },
        StepView::Sending(_) => world.working.rows == replayed(
            rows,
            world.delivered.push(moment.action->Send_change),
        ),
        StepView::Deleting(found, next) => {
            &&& world.delivered.len() > 0
            &&& world.delivered.last() == ChangeView::Deleted(
                restored(found[next].0, found[next].1),
            )
            &&& world.working.rows == replayed(rows, world.delivered.drop_last())
        },
        _ => world.working.rows == replayed(rows, world.delivered),
    }
}

/// What holds at every moment, whatever fails.
pub open spec fn consistent<E>(rows: States, moment: Moment<E>) -> bool {
    let world = moment.world;
    &&& moment.run.step.wf()
    &&& matches_step(moment.run.step, moment.action)
    &&& world.open == moment.run.in_transaction()
    &&& !world.open ==> world.working == world.committed
    &&& world.acknowledged <= world.delivered.len()
    &&& world.committed.rows == replayed(
        rows,
        world.delivered.take(world.acknowledged as int),
    )
    &&& forall|i: int|
        0 <= i < world.listed.len() ==> (#[trigger] world.listed[i]).last_modified.wf()
    &&& world.errors.len() == 0 || (world.errors.len() == 1 && (moment.run.step is Finished
        || moment.run.step == StepView::<E>::RollingBack(Resumption::Stop)))
    &&& moment.run.step == StepView::<E>::Reporting(true) || moment.run.step == StepView::<
        E,
    >::RollingBack(Resumption::Stop) ==> moment.run.target.scope == TransactionScope::WholeRun
    &&& moment.run.step matches StepView::RollingBack(Resumption::Sweep) ==> world.closed
        && moment.run.target.scope == TransactionScope::PerPage
    &&& if world.closed {
        after_closing(moment.run)
    } else {
        in_step(rows, moment)
    }
}

proof fn lemma_replayed_push(rows: States, changes: Seq<ChangeView>, change: ChangeView)
    ensures
        replayed(rows, changes.push(change)) == applied(replayed(rows, changes), change),
{
    assert(changes.push(change).drop_last() =~= changes);
}

/// The time of a listed object can be represented.
proof fn lemma_parsed_times(contents: Seq<ListedView>)
    ensures
        forall|i: int|
            0 <= i < all_parsed(contents).len() ==> (#[trigger] all_parsed(
                contents,
            )[i]).last_modified.wf(),
    decreases contents.len(),
{
    if contents.len() > 0 {
        let before = all_parsed(contents.drop_last());
        let all = all_parsed(contents);
        lemma_parsed_times(contents.drop_last());
        assert forall|i: int| 0 <= i < all.len() implies (
        #[trigger] all[i]).last_modified.wf() by {
            if i < before.len() {
                assert(all[i] == before[i]);
            }
        }
    }
}

proof fn lemma_consistent_initial<E>(target: TargetView, table: Table)
    ensures
        consistent(table.rows, Moment::<E>::initial(target, table)),
{
    let moment = Moment::<E>::initial(target, table);
    assert(moment.world.delivered.take(0) =~= seq![]);
}

proof fn lemma_consistent_next<E>(
    rows: States,
    moment: Moment<E>,
    event: EventView<E>,
    next: Moment<E>,
)
    requires
        consistent(rows, moment),
        moment.leads_to_by(event, next),
    ensures
        consistent(rows, next),
{
    let world = moment.world;
    let delivered = world.delivered;
    assert(delivered.take(delivered.len() as int) =~= delivered);
    match moment.action {
        ActionView::Send { change } => {
            lemma_replayed_push(rows, delivered, change);
            assert(delivered.push(change).take(world.acknowledged as int) =~= delivered.take(
                world.acknowledged as int,
            ));
            assert(delivered.push(change).drop_last() =~= delivered);
        },
        ActionView::List { .. } => {
            if event is Listed {
                lemma_parsed_times(event->Listed_0.contents);
            }
        },
        ActionView::Insert { object } => {
            if moment.run.step is Inserting {
                lemma_replayed_push(rows, delivered, moment.run.step->Inserting_1);
            }
        },
        _ => {},
    }
}

/// Whether the first `count` objects of the listing, and no others, are dealt with.
pub open spec fn dealt_with<E>(rows: States, world: World<E>, count: int) -> bool {
    let done = world.listed.take(count);
    &&& 0 <= count <= world.listed.len()
    &&& world.working.rows == absorbed(rows, done)
    &&& world.working.seen == keys(done)
    &&& world.delivered == reported(rows, done)
}

/// How many objects of the listing come before a place in its last page.
pub open spec fn position<E>(world: World<E>, cursor: CursorView) -> int {
    world.listed.len() - cursor.objects.len() + cursor.next
}

/// Whether a place is one in the last page of the listing.
pub open spec fn placed<E>(world: World<E>, cursor: CursorView) -> bool {
    &&& cursor.objects.len() <= world.listed.len()
    &&& cursor.objects == world.listed.skip(world.listed.len() - cursor.objects.len())
}

/// Whether the listing is dealt with, and the first `deleted` and `sent` of the objects that it
/// lacks were removed and handed over.
pub open spec fn swept<E>(
    rows: States,
    world: World<E>,
    found: RowsView,
    deleted: int,
    sent: int,
) -> bool {
    let kept = absorbed(rows, world.listed);
    &&& lists_unseen(kept, keys(world.listed), found)
    &&& world.working.rows == without(kept, found, deleted)
    &&& world.delivered == reported(rows, world.listed) + deletions(found.take(sent))
}

/// Whether the listing is dealt with and all the objects that it lacks were removed.
pub open spec fn settled<E>(rows: States, world: World<E>) -> bool {
    exists|found: RowsView| #[trigger]
        swept(rows, world, found, found.len() as int, found.len() as int)
}

/// How far a run has come that nothing has disturbed.
pub open spec fn progress<E>(rows: States, moment: Moment<E>) -> bool {
    let world = moment.world;
    let per_page = moment.run.target.scope == TransactionScope::PerPage;
    match moment.run.step {
        StepView::AddingColumn => world.listed.len() == 0 && world.delivered.len() == 0
            && world.working.rows == rows,
        StepView::ResettingSeen => world.listed.len() == 0 && world.delivered.len() == 0
            && world.working.rows == rows,
        StepView::Beginning(_) => if per_page {
            dealt_with(rows, world, world.listed.len() as int)
        } else {
            world.listed.len() == 0 && world.delivered.len() == 0 && world.working.rows == rows
        },
        StepView::Listing => dealt_with(rows, world, world.listed.len() as int),
        StepView::Fetching(cursor) => placed(world, cursor) && dealt_with(
            rows,
            world,
            position(world, cursor),
        ),
        StepView::Marking(cursor, change) => {
            &&& placed(world, cursor)
            &&& dealt_with(rows, world, position(world, cursor))
            &&& world.working.rows.contains_key(cursor.object().key)
            &&& change == judged(
                cursor.object(),
                lookup(world.working.rows, cursor.object().key),
            )
        },
        StepView::Inserting(cursor, change) => {
            let done = world.listed.take(position(world, cursor));
            &&& placed(world, cursor)
            &&& world.working.rows == absorbed(rows, done)
            &&& world.delivered == reported(rows, done)
            &&& world.working.seen.insert(cursor.object().key) == keys(
                done.push(cursor.object()),
            )
            &&& Some(change) == judged(
                cursor.object(),
                lookup(world.working.rows, cursor.object().key),
            )
        },
        StepView::Sending(cursor) => {
            let done = world.listed.take(position(world, cursor) + 1);
            &&& placed(world, cursor)
            &&& world.working.rows == absorbed(rows, done)
            &&& world.working.seen == keys(done)
            &&& world.delivered.push(moment.action->Send_change) == reported(rows, done)
        },
        StepView::Committing(_) => if per_page {
            dealt_with(rows, world, world.listed.len() as int)
        } else {
            settled(rows, world)
        },
        StepView::FetchingUnseen => dealt_with(rows, world, world.listed.len() as int),
        StepView::SendingDeleted(found, next) => swept(rows, world, found, next, next),
        StepView::Deleting(found, next) => swept(rows, world, found, next, next + 1),
        StepView::DroppingColumn => settled(rows, world),
        StepView::ReadingClock => settled(rows, world),
        StepView::Recording => settled(rows, world),
        StepView::RollingBack(resumption) => resumption is Report,
        StepView::Reporting(_) => true,
        StepView::Finished => settled(rows, world) && world.committed == world.working,
    }
}

/// What holds at every moment at which the consumer is there and nothing was reported as failed.
pub open spec fn undisturbed<E>(rows: States, moment: Moment<E>) -> bool {
    !moment.world.closed && moment.world.errors.len() == 0 ==> progress(rows, moment)
}

pub proof fn lemma_keys_push(objects: Seq<ObjectView>, object: ObjectView)
    ensures
        keys(objects.push(object)) == keys(objects).insert(object.key),
{
    let all = objects.push(object);
    assert forall|key: Seq<char>| keys(all).contains(key) <==> keys(objects).insert(
        object.key,
    ).contains(key) by {
        if keys(objects).contains(key) {
            let i = choose|i: int| 0 <= i < objects.len() && objects[i].key == key;
            assert(all[i].key == key);
        }
        if key == object.key {
            assert(all[objects.len() as int].key == key);
        }
        if keys(all).contains(key) {
            let i = choose|i: int| 0 <= i < all.len() && all[i].key == key;
            if i < objects.len() {
                assert(objects[i].key == key);
            }
        }
    }
    assert(keys(all) =~= keys(objects).insert(object.key));
}

/// One more object of the listing.
proof fn lemma_one_more(rows: States, objects: Seq<ObjectView>, object: ObjectView)
    ensures
        absorbed(rows, objects.push(object)) == (match judged(
            object,
            lookup(absorbed(rows, objects), object.key),
        ) {
            Some(_) => absorbed(rows, objects).insert(object.key, stored(object)),
            None => absorbed(rows, objects),
        }),
        reported(rows, objects.push(object)) == (match judged(
            object,
            lookup(absorbed(rows, objects), object.key),
        ) {
            Some(change) => reported(rows, objects).push(change),
            None => reported(rows, objects),
        }),
        keys(objects.push(object)) == keys(objects).insert(object.key),
{
    assert(objects.push(object).drop_last() =~= objects);
    lemma_keys_push(objects, object);
}

proof fn lemma_take_one_more<E>(world: World<E>, cursor: CursorView)
    requires
        placed(world, cursor),
        cursor.wf(),
    ensures
        world.listed.take(position(world, cursor) + 1) == world.listed.take(
            position(world, cursor),
        ).push(cursor.object()),
{
    assert(cursor.object() == world.listed[position(world, cursor)]);
    assert(world.listed.take(position(world, cursor) + 1) =~= world.listed.take(
        position(world, cursor),
    ).push(cursor.object()));
}

/// A page is entered, or left for the next one.
proof fn lemma_visiting<E>(rows: States, target: TargetView, world: World<E>, cursor: CursorView)
    requires
        placed(world, cursor),
        0 <= cursor.next <= cursor.objects.len(),
        dealt_with(rows, world, position(world, cursor)),
    ensures
        ({
            let (run, action) = target.visiting::<E>(cursor);
            progress(rows, Moment { run, action, world })
        }),
{
}

pub proof fn lemma_without_one_more(rows: States, found: RowsView, count: int)
    requires
        0 <= count < found.len(),
    ensures
        without(rows, found, count + 1) == without(rows, found, count).remove(found[count].0),
{
    assert(without(rows, found, count + 1) =~= without(rows, found, count).remove(
        found[count].0,
    ));
}

proof fn lemma_undisturbed_initial<E>(target: TargetView, table: Table)
    ensures
        undisturbed(table.rows, Moment::<E>::initial(target, table)),
{
}

proof fn lemma_undisturbed_next<E>(
    rows: States,
    moment: Moment<E>,
    event: EventView<E>,
    next: Moment<E>,
)
    requires
        consistent(rows, moment),
        undisturbed(rows, moment),
        moment.leads_to_by(event, next),
    ensures
        undisturbed(rows, next),
{
    let world = moment.world;
    let target = moment.run.target;
    if !next.world.closed && next.world.errors.len() == 0 {
        match moment.run.step {
            StepView::ResettingSeen => {
                assert(next.world.listed.take(0) =~= seq![]);
                assert(keys(seq![]) =~= Set::empty());
                assert(next.world.delivered =~= reported(rows, seq![]));
            },
            StepView::Listing => {
                if event is Listed {
                    let page = all_parsed(event->Listed_0.contents);
                    assert(next.world.listed.take(world.listed.len() as int) =~= world.listed);
                    assert(world.listed.take(world.listed.len() as int) =~= world.listed);
                    assert(next.world.listed.skip(world.listed.len() as int) =~= page);
                    lemma_visiting(
                        rows,
                        target,
                        next.world,
                        crate::sync::page_start(event->Listed_0),
                    );
                }
            },
            StepView::Fetching(cursor) => {
                lemma_keys_push(
                    world.listed.take(position(world, cursor)),
                    cursor.object(),
                );
            },
            StepView::Marking(cursor, change) => {
                let done = world.listed.take(position(world, cursor));
                lemma_one_more(rows, done, cursor.object());
                lemma_take_one_more(world, cursor);
                if event is Done {
                    assert(next.world.working.seen.insert(cursor.object().key)
                        =~= next.world.working.seen);
                    if change is None {
                        lemma_visiting(rows, target, next.world, cursor.advanced());
                    }
                }
            },
            StepView::Inserting(cursor, change) => {
                let done = world.listed.take(position(world, cursor));
                lemma_one_more(rows, done, cursor.object());
                lemma_take_one_more(world, cursor);
            },
            StepView::Sending(cursor) => {
                if event is Accepted {
                    lemma_visiting(rows, target, next.world, cursor.advanced());
                }
            },
            StepView::FetchingUnseen => {
                assert(world.listed.take(world.listed.len() as int) =~= world.listed);
                if event is Unseen {
                    let found = event->Unseen_0;
                    assert(without(world.working.rows, found, 0) =~= world.working.rows);
                    assert(deletions(found.take(0)) =~= seq![]);
                    assert(world.delivered + seq![] =~= world.delivered);
                    if found.len() == 0 {
                        assert(swept(rows, next.world, found, 0, 0));
                    }
                }
            },
            StepView::SendingDeleted(found, at) => {
                assert(deletions(found.take(at + 1)) =~= deletions(found.take(at)).push(
                    ChangeView::Deleted(restored(found[at].0, found[at].1)),
                ));
            },
            StepView::Deleting(found, at) => {
                lemma_without_one_more(absorbed(rows, world.listed), found, at);
                if event is Done && at + 1 == found.len() {
                    assert(swept(
                        rows,
                        next.world,
                        found,
                        found.len() as int,
                        found.len() as int,
                    ));
                }
            },
            StepView::Committing(_) => {
                lemma_settled_kept(rows, world, next.world);
            },
            _ => {
                lemma_settled_kept(rows, world, next.world);
            },
        }
    }
}

/// What is settled depends on three things only.
proof fn lemma_settled_kept<E>(rows: States, before: World<E>, after: World<E>)
    ensures
        settled(rows, before) && before.listed == after.listed && before.delivered
            == after.delivered && before.working.rows == after.working.rows ==> settled(
            rows,
            after,
        ),
{
    if settled(rows, before) && before.listed == after.listed && before.delivered
        == after.delivered && before.working.rows == after.working.rows {
        let found = choose|found: RowsView| #[trigger]
            swept(rows, before, found, found.len() as int, found.len() as int);
        assert(swept(rows, after, found, found.len() as int, found.len() as int));
    }
}

/// How many changes the consumer may have taken beyond what the database would keep, where each
/// page is a transaction.
pub open spec fn outstanding<E>(moment: Moment<E>) -> bool {
    let world = moment.world;
    let count = world.delivered.len() - world.acknowledged;
    match moment.run.step {
        StepView::Fetching(cursor) => count <= cursor.next && cursor.objects.len()
            == world.page_size,
        StepView::Marking(cursor, _) => count <= cursor.next && cursor.objects.len()
            == world.page_size,
        StepView::Inserting(cursor, _) => count <= cursor.next && cursor.objects.len()
            == world.page_size,
        StepView::Sending(cursor) => count <= cursor.next && cursor.objects.len()
            == world.page_size,
        StepView::Committing(_) => count <= world.page_size,
        StepView::Deleting(_, _) => count <= 1,
        StepView::RollingBack(_) => count <= world.page_size,
        StepView::Reporting(_) => count <= world.page_size || count <= 1,
        StepView::Finished => count <= world.page_size || count <= 1,
        _ => count == 0 || (world.closed && count <= world.page_size),
    }
}

/// At most one page of changes is outstanding where each page is a transaction.
pub open spec fn bounded<E>(moment: Moment<E>) -> bool {
    moment.run.target.scope == TransactionScope::PerPage ==> outstanding(moment)
}

proof fn lemma_bounded_next<E>(
    rows: States,
    moment: Moment<E>,
    event: EventView<E>,
    next: Moment<E>,
)
    requires
        consistent(rows, moment),
        bounded(moment),
        moment.leads_to_by(event, next),
    ensures
        bounded(next),
{
}

/// How many moments there can be up to a moment, itself among them.
pub open spec fn allowance<E>(moment: Moment<E>) -> int {
    let world = moment.world;
    let base: int = 4 * world.listed.len() as int + 3 * world.pages as int;
    let sent: int = 2 * world.delivered.len() as int;
    let per_page = moment.run.target.scope == TransactionScope::PerPage;
    match moment.run.step {
        StepView::AddingColumn => if per_page {
            1
        } else {
            2
        },
        StepView::ResettingSeen => if per_page {
            2
        } else {
            3
        },
        StepView::Beginning(_) => if per_page {
            base + 3
        } else {
            1
        },
        StepView::Listing => base + 4,
        StepView::Fetching(cursor) => base - 4 * (cursor.objects.len() - cursor.next) + 2,
        StepView::Marking(cursor, _) => base - 4 * (cursor.objects.len() - cursor.next) + 3,
        StepView::Inserting(cursor, _) => base - 4 * (cursor.objects.len() - cursor.next) + 4,
        StepView::Sending(cursor) => base - 4 * (cursor.objects.len() - cursor.next) + 5,
        StepView::Committing(_) => if per_page {
            base + 2
        } else {
            base + sent + 11
        },
        StepView::FetchingUnseen => base + 4,
        StepView::SendingDeleted(_, next) => base + 2 * next + 5,
        StepView::Deleting(_, next) => base + 2 * next + 6,
        StepView::DroppingColumn => base + sent + 8,
        StepView::ReadingClock => base + sent + 9,
        StepView::Recording => base + sent + 10,
        StepView::RollingBack(Resumption::Sweep) => base + 3,
        StepView::RollingBack(_) => base + sent + 12,
        StepView::Reporting(open) => base + sent + if open {
            11int
        } else {
            13
        },
        StepView::Finished => base + sent + 14,
    }
}

/// Whether `count` moments up to a moment are within the allowance.
pub open spec fn economical<E>(count: int, moment: Moment<E>) -> bool {
    &&& count <= allowance(moment)
    &&& match moment.run.step {
        StepView::SendingDeleted(_, next) => next <= moment.world.delivered.len(),
        StepView::Deleting(_, next) => next < moment.world.delivered.len(),
        _ => true,
    }
}

proof fn lemma_economical_next<E>(
    rows: States,
    count: int,
    moment: Moment<E>,
    event: EventView<E>,
    next: Moment<E>,
)
    requires
        consistent(rows, moment),
        economical(count, moment),
        moment.leads_to_by(event, next),
    ensures
        economical(count + 1, next),
{
}

/// All these facts hold at the last moment of any course.
pub proof fn lemma_course<E>(target: TargetView, table: Table, moments: Seq<Moment<E>>)
    requires
        is_course(target, table, moments),
    ensures
        moments.len() > 0,
        moments.last().run.target == target,
        consistent(table.rows, moments.last()),
        undisturbed(table.rows, moments.last()),
        bounded(moments.last()),
        economical(moments.len() as int, moments.last()),
    decreases moments.len(),
{
    if moments.len() == 1 {
        lemma_consistent_initial::<E>(target, table);
        lemma_undisturbed_initial::<E>(target, table);
    } else {
        let before = moments.drop_last();
        lemma_course(target, table, before);
        let event = choose|event: EventView<E>|
            before.last().leads_to_by(event, moments.last());
        lemma_consistent_next(table.rows, before.last(), event, moments.last());
        lemma_undisturbed_next(table.rows, before.last(), event, moments.last());
        lemma_bounded_next(table.rows, before.last(), event, moments.last());
        lemma_economical_next(
            table.rows,
            before.len() as int,
            before.last(),
            event,
            moments.last(),
        );
    }
}

} // verus!
