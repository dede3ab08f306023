//! What the database has kept, at every moment of a run.
use crate::invariants::{consistent, lemma_course, lemma_without_one_more, swept, undisturbed};
use crate::model::{
    absorbed, deletions, is_course, keys, lists_unseen, reported, without, Facts, Moment, States,
    Table, World,
};
use crate::object::ObjectView;
use crate::sync::{EventView, RowsView, StepView, TargetView, TransactionScope};
use crate::text::signed_decimal;
use vstd::prelude::*;

verus! {

/// Whether the database has kept the full effect of the first `covered` listed objects, and
/// nothing else.
pub open spec fn pages_kept<E>(rows: States, world: World<E>) -> bool {
    let done = world.listed.take(world.covered as int);
    &&& world.committed.rows == absorbed(rows, done)
    &&& world.delivered.take(world.acknowledged as int) == reported(rows, done)
}

/// Whether the database has kept the full effect of the listing, and the removal of the first
/// `count` objects that it lacks.
pub open spec fn sweep_kept<E>(rows: States, world: World<E>, found: RowsView, count: int) -> bool {
    let all = absorbed(rows, world.listed);
    &&& 0 <= count <= found.len()
    &&& world.covered == world.listed.len()
    &&& lists_unseen(all, keys(world.listed), found)
    &&& world.committed.rows == without(all, found, count)
    &&& world.delivered.take(world.acknowledged as int) == reported(rows, world.listed) + deletions(
        found.take(count),
    )
}

/// Whether what the database has kept is one of these.
pub open spec fn kept<E>(rows: States, world: World<E>) -> bool {
    pages_kept(rows, world) || exists|found: RowsView, count: int| #[trigger]
        sweep_kept(rows, world, found, count)
}

/// How what the database has kept relates to the listing.
pub open spec fn accounted<E>(rows: States, moment: Moment<E>) -> bool {
    let world = moment.world;
    &&& world.covered <= world.listed.len()
    &&& world.page_size <= world.listed.len()
    &&& kept(rows, world)
    &&& moment.run.target.scope == TransactionScope::WholeRun && !(moment.run.step is RollingBack
        || moment.run.step is Reporting || moment.run.step is Finished) ==> pages_kept(rows, world)
    &&& moment.run.target.scope == TransactionScope::PerPage ==> {
        match moment.run.step {
            StepView::AddingColumn => pages_kept(rows, world) && world.covered
                == world.listed.len(),
            StepView::ResettingSeen => pages_kept(rows, world) && world.covered
                == world.listed.len(),
            StepView::Beginning(_) => pages_kept(rows, world) && world.covered
                == world.listed.len(),
            StepView::Listing => pages_kept(rows, world) && world.covered == world.listed.len(),
            StepView::Fetching(_) => pages_kept(rows, world) && world.covered
                == world.listed.len() - world.page_size,
            StepView::Marking(_, _) => pages_kept(rows, world) && world.covered
                == world.listed.len() - world.page_size,
            StepView::Inserting(_, _) => pages_kept(rows, world) && world.covered
                == world.listed.len() - world.page_size,
            StepView::Sending(_) => pages_kept(rows, world) && world.covered
                == world.listed.len() - world.page_size,
            StepView::Committing(_) => pages_kept(rows, world) && world.covered
                == world.listed.len() - world.page_size,
            _ => world.covered == world.listed.len() || world.covered == world.listed.len()
                - world.page_size,
        }
    }
}

/// Whether the changes that the consumer took are the first of those that the listing stands for.
pub open spec fn part_reported<E>(rows: States, world: World<E>, count: int) -> bool {
    0 <= count <= world.listed.len() && world.delivered == reported(rows, world.listed.take(count))
}

/// Whether the changes that the consumer took are all that the listing stands for, and the removal
/// of the first `count` objects that it lacks.
pub open spec fn part_swept<E>(rows: States, world: World<E>, found: RowsView, count: int) -> bool {
    &&& 0 <= count <= found.len()
    &&& lists_unseen(absorbed(rows, world.listed), keys(world.listed), found)
    &&& world.delivered == reported(rows, world.listed) + deletions(found.take(count))
}

/// Whether the consumer took the changes in order, from the first.
pub open spec fn in_order<E>(rows: States, world: World<E>) -> bool {
    ||| exists|count: int| part_reported(rows, world, count)
    ||| exists|found: RowsView, count: int| part_swept(rows, world, found, count)
}

/// The facts once a run came to its end at a time.
pub open spec fn facts_at(facts: Facts, now: i64) -> Facts {
    facts.insert("last_updated"@, signed_decimal(now as int))
}

/// How the facts about runs stand.
pub open spec fn noting<E>(facts: Facts, moment: Moment<E>) -> bool {
    let world = moment.world;
    match moment.run.step {
        StepView::Recording => {
            &&& moment.action is RecordSync
            &&& world.clock == Some(moment.action->now)
            &&& world.working.metadata == facts
        },
        StepView::Committing(_) => if moment.run.target.scope == TransactionScope::WholeRun {
            world.clock is Some && world.working.metadata == facts_at(facts, world.clock->0)
        } else {
            world.working.metadata == facts && world.committed.metadata == facts
        },
        StepView::Finished => {
            &&& world.errors.len() == 0 && (!world.closed || moment.run.target.scope
                == TransactionScope::PerPage) ==> world.clock is Some && world.committed.metadata
                == facts_at(facts, world.clock->0)
            &&& world.errors.len() > 0 && moment.run.target.scope == TransactionScope::PerPage
                ==> world.committed.metadata == facts
        },
        StepView::Reporting(_) => world.committed.metadata == facts || moment.run.target.scope
            == TransactionScope::WholeRun,
        StepView::RollingBack(_) => world.committed.metadata == facts || moment.run.target.scope
            == TransactionScope::WholeRun,
        _ => world.working.metadata == facts && world.committed.metadata == facts,
    }
}

/// Whether the column of marks is gone where it should be, unless it could not be dropped.
pub open spec fn cleaned<E>(moment: Moment<E>) -> bool {
    let world = moment.world;
    match moment.run.step {
        StepView::ReadingClock => !world.working.column || world.undropped,
        StepView::Recording => !world.working.column || world.undropped,
        StepView::Committing(_) => moment.run.target.scope == TransactionScope::WholeRun
            ==> !world.working.column || world.undropped,
        StepView::Finished => world.errors.len() == 0 && (!world.closed || moment.run.target.scope
            == TransactionScope::PerPage) ==> !world.committed.column || world.undropped,
        _ => true,
    }
}

/// The changes that part of a listing stands for are the first of those that all of it stands for.
pub proof fn lemma_reported_part(rows: States, objects: Seq<ObjectView>, count: int)
    requires
        0 <= count <= objects.len(),
    ensures
        reported(rows, objects.take(count)).len() <= reported(rows, objects).len(),
        reported(rows, objects.take(count)) == reported(rows, objects).take(
            reported(rows, objects.take(count)).len() as int,
        ),
    decreases objects.len(),
{
    if count == objects.len() {
        assert(objects.take(count) =~= objects);
        assert(reported(rows, objects).take(reported(rows, objects).len() as int) =~= reported(
            rows,
            objects,
        ));
    } else {
        let before = objects.drop_last();
        lemma_reported_part(rows, before, count);
        assert(before.take(count) =~= objects.take(count));
        let part = reported(rows, objects.take(count));
        assert(reported(rows, objects).take(part.len() as int) =~= reported(rows, before).take(
            part.len() as int,
        ));
    }
}

/// Nothing that was kept is touched by what is listed or handed over.
proof fn lemma_kept_stays<E>(rows: States, world: World<E>, after: World<E>)
    requires
        world.covered <= world.listed.len(),
        world.acknowledged <= world.delivered.len(),
        kept(rows, world),
        after.covered == world.covered,
        after.acknowledged == world.acknowledged,
        after.committed.rows == world.committed.rows,
        after.listed == world.listed || (pages_kept(rows, world) && world.listed
            == after.listed.take(world.listed.len() as int) && world.listed.len()
            <= after.listed.len()),
        world.delivered.len() <= after.delivered.len(),
        world.delivered == after.delivered.take(world.delivered.len() as int),
    ensures
        kept(rows, after),
        pages_kept(rows, world) ==> pages_kept(rows, after),
{
    assert(after.listed.take(world.covered as int) =~= world.listed.take(world.covered as int));
    assert(after.delivered.take(world.acknowledged as int) =~= world.delivered.take(
        world.acknowledged as int,
    ));
    if !pages_kept(rows, world) {
        let (found, count) = choose|found: RowsView, count: int| #[trigger]
            sweep_kept(rows, world, found, count);
        assert(sweep_kept(rows, after, found, count));
    }
}

/// The listing, or all that a run has to do, is kept at once.
proof fn lemma_kept_anew<E>(rows: States, moment: Moment<E>, after: World<E>)
    requires
        consistent(rows, moment),
        undisturbed(rows, moment),
        moment.run.step is ResettingSeen || moment.run.step is Committing,
        after.listed == moment.world.listed,
        after.delivered == moment.world.delivered,
        after.covered == after.listed.len(),
        after.acknowledged == after.delivered.len(),
        after.committed.rows == moment.world.working.rows,
    ensures
        kept(rows, after),
        moment.run.target.scope == TransactionScope::PerPage ==> pages_kept(rows, after),
{
    let world = moment.world;
    assert(world.delivered.take(world.delivered.len() as int) =~= world.delivered);
    assert(world.listed.take(world.listed.len() as int) =~= world.listed);
    if moment.run.step is ResettingSeen {
        assert(world.listed =~= seq![]);
        assert(world.delivered =~= reported(rows, seq![]));
    } else if moment.run.target.scope == TransactionScope::WholeRun {
        let found = choose|found: RowsView| #[trigger]
            swept(rows, world, found, found.len() as int, found.len() as int);
        assert(sweep_kept(rows, after, found, found.len() as int));
    }
}

/// One more removal is kept.
proof fn lemma_removal_kept<E>(rows: States, moment: Moment<E>, after: World<E>)
    requires
        consistent(rows, moment),
        undisturbed(rows, moment),
        moment.run.step is Deleting,
        after.listed == moment.world.listed,
        after.delivered == moment.world.delivered,
        after.covered == after.listed.len(),
        after.acknowledged == after.delivered.len(),
        after.committed.rows == moment.world.working.rows.remove(
            moment.run.step->Deleting_0[moment.run.step->Deleting_1].0,
        ),
    ensures
        kept(rows, after),
{
    let found = moment.run.step->Deleting_0;
    let at = moment.run.step->Deleting_1;
    assert(after.delivered.take(after.delivered.len() as int) =~= after.delivered);
    lemma_without_one_more(absorbed(rows, after.listed), found, at);
    assert(sweep_kept(rows, after, found, at + 1));
}

proof fn lemma_accounted_next<E>(
    rows: States,
    moment: Moment<E>,
    event: EventView<E>,
    next: Moment<E>,
)
    requires
        consistent(rows, moment),
        undisturbed(rows, moment),
        accounted(rows, moment),
        moment.leads_to_by(event, next),
    ensures
        accounted(rows, next),
{
    let world = moment.world;
    let after = next.world;
    assert(world.delivered.take(world.delivered.len() as int) =~= world.delivered);
    assert(world.listed.take(world.listed.len() as int) =~= world.listed);
    match moment.run.step {
        StepView::ResettingSeen => {
            if event is Done && !world.open {
                lemma_kept_anew(rows, moment, after);
            } else {
                lemma_kept_stays(rows, world, after);
            }
        },
        StepView::Committing(_) => {
            if after == world {
                lemma_kept_stays(rows, world, after);
            } else {
                lemma_kept_anew(rows, moment, after);
            }
        },
        StepView::Deleting(_, _) => {
            if event is Done && !world.open {
                lemma_removal_kept(rows, moment, after);
            } else {
                lemma_kept_stays(rows, world, after);
            }
        },
        StepView::Listing => {
            if event is Listed {
                assert(after.listed.take(world.listed.len() as int) =~= world.listed);
            }
            lemma_kept_stays(rows, world, after);
        },
        _ => {
            assert(after.delivered.take(world.delivered.len() as int) =~= world.delivered);
            lemma_kept_stays(rows, world, after);
        },
    }
}

proof fn lemma_in_order_next<E>(
    rows: States,
    moment: Moment<E>,
    event: EventView<E>,
    next: Moment<E>,
)
    requires
        consistent(rows, moment),
        undisturbed(rows, moment),
        in_order(rows, moment.world),
        moment.leads_to_by(event, next),
    ensures
        in_order(rows, next.world),
{
    let world = moment.world;
    let after = next.world;
    assert(world.listed.take(world.listed.len() as int) =~= world.listed);
    if event is Listed {
        assert(after.listed.take(world.listed.len() as int) =~= world.listed);
        assert(part_reported(rows, after, world.listed.len() as int));
    } else if event is Accepted {
        match moment.run.step {
            StepView::Sending(cursor) => {
                let count = crate::invariants::position(world, cursor) + 1;
                assert(part_reported(rows, after, count));
            },
            StepView::SendingDeleted(found, at) => {
                assert(deletions(found.take(at + 1)) =~= deletions(found.take(at)).push(
                    moment.action->Send_change,
                ));
                assert(part_swept(rows, after, found, at + 1));
            },
            _ => {},
        }
    } else if exists|count: int| part_reported(rows, world, count) {
        let count = choose|count: int| part_reported(rows, world, count);
        assert(part_reported(rows, after, count));
    } else {
        let (found, count) = choose|found: RowsView, count: int|
            part_swept(rows, world, found, count);
        assert(part_swept(rows, after, found, count));
    }
}

proof fn lemma_noting_next<E>(
    rows: States,
    facts: Facts,
    moment: Moment<E>,
    event: EventView<E>,
    next: Moment<E>,
)
    requires
        consistent(rows, moment),
        undisturbed(rows, moment),
        noting(facts, moment),
        cleaned(moment),
        moment.leads_to_by(event, next),
    ensures
        noting(facts, next),
        cleaned(next),
{
}

/// All these facts hold at the last moment of any course.
pub proof fn lemma_ledger<E>(target: TargetView, table: Table, moments: Seq<Moment<E>>)
    requires
        is_course(target, table, moments),
    ensures
        accounted(table.rows, moments.last()),
        in_order(table.rows, moments.last().world),
        noting(table.metadata, moments.last()),
        cleaned(moments.last()),
    decreases moments.len(),
{
    let rows = table.rows;
    if moments.len() == 1 {
        let world = moments.last().world;
        assert(world.listed.take(0) =~= seq![]);
        assert(world.delivered.take(0) =~= seq![]);
        assert(world.delivered =~= reported(rows, world.listed.take(0)));
        assert(part_reported(rows, world, 0));
    } else {
        let before = moments.drop_last();
        lemma_course(target, table, before);
        lemma_ledger(target, table, before);
        let event = choose|event: EventView<E>|
            before.last().leads_to_by(event, moments.last());
        lemma_accounted_next(rows, before.last(), event, moments.last());
        lemma_in_order_next(rows, before.last(), event, moments.last());
        lemma_noting_next(rows, table.metadata, before.last(), event, moments.last());
    }
}

} // verus!
