//! Runs can complete.
use crate::invariants::matches_step;
use crate::laws::completed;
use crate::model::{is_course, lists_unseen, lookup, Moment, States, Table, World};
use crate::object::{ListedView, ObjectView};
use crate::sync::{
    all_parsed, page_start, CursorView, EventView, PageView, RowsView, StepView, TargetView,
    TransactionScope,
};
use vstd::prelude::*;

verus! {

/// Whether `count` outcomes lead from one moment to another.
spec fn reaches<E>(from: Moment<E>, to: Moment<E>, count: nat) -> bool
    decreases count,
{
    if count == 0 {
        from == to
    } else {
        exists|next: Moment<E>| #[trigger]
            from.leads_to(next) && reaches(next, to, (count - 1) as nat)
    }
}

proof fn lemma_reaches_concat<E>(
    from: Moment<E>,
    middle: Moment<E>,
    to: Moment<E>,
    first: nat,
    second: nat,
)
    requires
        reaches(from, middle, first),
        reaches(middle, to, second),
    ensures
        reaches(from, to, first + second),
    decreases first,
{
    if first > 0 {
        let next = choose|next: Moment<E>| #[trigger]
            from.leads_to(next) && reaches(next, middle, (first - 1) as nat);
        lemma_reaches_concat(next, middle, to, (first - 1) as nat, second);
        assert(((first + second) - 1) as nat == ((first - 1) as nat + second) as nat);
        assert(from.leads_to(next) && reaches(next, to, ((first + second) - 1) as nat));
    }
}

/// A course can be continued by what its last moment leads to.
proof fn lemma_course_reaches<E>(
    target: TargetView,
    table: Table,
    moments: Seq<Moment<E>>,
    to: Moment<E>,
    count: nat,
) -> (extended: Seq<Moment<E>>)
    requires
        is_course(target, table, moments),
        reaches(moments.last(), to, count),
    ensures
        is_course(target, table, extended),
        extended.last() == to,
    decreases count,
{
    if count == 0 {
        moments
    } else {
        let next = choose|next: Moment<E>| #[trigger]
            moments.last().leads_to(next) && reaches(next, to, (count - 1) as nat);
        let longer = moments.push(next);
        assert(longer.drop_last() =~= moments);
        lemma_course_reaches(target, table, longer, to, (count - 1) as nat)
    }
}

/// A moment of a run over a listing at which nothing has gone wrong.
spec fn healthy<E>(target: TargetView, listed: Seq<ObjectView>, moment: Moment<E>) -> bool {
    let world = moment.world;
    &&& moment.run.target == target
    &&& moment.run.step.wf()
    &&& matches_step(moment.run.step, moment.action)
    &&& !world.closed
    &&& world.errors.len() == 0
    &&& world.open == moment.run.in_transaction()
    &&& world.working.rows.dom().finite()
    &&& world.committed.rows.dom().finite()
    &&& world.listed == listed
    &&& marked_up(moment)
}

/// Whether there is a column of marks where the run needs one.
spec fn marked_up<E>(moment: Moment<E>) -> bool {
    let world = moment.world;
    match moment.run.step {
        StepView::AddingColumn => true,
        StepView::ReadingClock => true,
        StepView::Recording => true,
        StepView::Committing(_) => moment.run.target.scope == TransactionScope::PerPage
            ==> world.working.column,
        StepView::Finished => true,
        StepView::Beginning(_) => moment.run.target.scope == TransactionScope::PerPage
            ==> world.working.column && world.committed.column,
        _ => world.working.column,
    }
}

/// The moment after an outcome.
spec fn follow<E>(moment: Moment<E>, event: EventView<E>, world: World<E>) -> Moment<E> {
    Moment { run: moment.run.after(event).0, action: moment.run.after(event).1, world }
}

proof fn lemma_follow<E>(moment: Moment<E>, event: EventView<E>, world: World<E>)
    requires
        moment.world.answers(moment.action, event, world),
    ensures
        moment.leads_to(follow(moment, event, world)),
        reaches(moment, follow(moment, event, world), 1),
{
    let next = follow(moment, event, world);
    assert(moment.leads_to_by(event, next));
    assert(moment.leads_to(next) && reaches(next, next, 0));
}

/// Whether a moment is the one at a place of a page.
spec fn at_place<E>(target: TargetView, moment: Moment<E>, cursor: CursorView) -> bool {
    (moment.run, moment.action) == target.visiting::<E>(cursor)
}

/// The objects of a page can be dealt with.
proof fn lemma_page<E>(
    target: TargetView,
    listed: Seq<ObjectView>,
    moment: Moment<E>,
    cursor: CursorView,
) -> (result: (Moment<E>, nat))
    requires
        healthy(target, listed, moment),
        0 <= cursor.next <= cursor.objects.len(),
        at_place(target, moment, cursor),
    ensures
        reaches(moment, result.0, result.1),
        healthy(target, listed, result.0),
        at_place(
            target,
            result.0,
            CursorView { next: cursor.objects.len() as int, ..cursor },
        ),
    decreases cursor.objects.len() - cursor.next,
{
    if cursor.next == cursor.objects.len() {
        (moment, 0)
    } else {
        let object = cursor.object();
        let previous = lookup(moment.world.working.rows, object.key);
        let compared = follow(moment, EventView::Fetched(previous), moment.world);
        lemma_follow(moment, EventView::Fetched(previous), moment.world);
        let (marked, first) = if previous is Some {
            let world = compared.world.written(compared.world.working.marked(object.key));
            lemma_follow(compared, EventView::Done, world);
            let marked = follow(compared, EventView::<E>::Done, world);
            lemma_reaches_concat(moment, compared, marked, 1, 1);
            (marked, 2nat)
        } else {
            (compared, 1nat)
        };
        let (visited, second) = if marked.run.step is Inserting {
            let world = marked.world.written(marked.world.working.inserted(object));
            lemma_follow(marked, EventView::Done, world);
            let inserted = follow(marked, EventView::<E>::Done, world);
            let change = inserted.action->Send_change;
            let taken = World { delivered: world.delivered.push(change), ..world };
            lemma_follow(inserted, EventView::Accepted, taken);
            let sent = follow(inserted, EventView::<E>::Accepted, taken);
            lemma_reaches_concat(marked, inserted, sent, 1, 1);
            lemma_reaches_concat(moment, marked, sent, first, 2);
            (sent, first + 2)
        } else {
            (marked, first)
        };
        let (end, third) = lemma_page(target, listed, visited, cursor.advanced());
        lemma_reaches_concat(moment, visited, end, second, third);
        (end, second + third)
    }
}

/// The objects that pages describe, one page after the other.
pub open spec fn all_listed(pages: Seq<Seq<ListedView>>) -> Seq<ObjectView>
    decreases pages.len(),
{
    if pages.len() == 0 {
        seq![]
    } else {
        all_parsed(pages.first()) + all_listed(pages.drop_first())
    }
}

/// The remaining pages of a listing can be dealt with.
proof fn lemma_pages<E>(
    target: TargetView,
    listed: Seq<ObjectView>,
    moment: Moment<E>,
    pages: Seq<Seq<ListedView>>,
) -> (result: (Moment<E>, nat))
    requires
        healthy(target, listed, moment),
        moment.run.step is Listing,
        pages.len() > 0,
    ensures
        reaches(moment, result.0, result.1),
        healthy(target, listed + all_listed(pages), result.0),
        result.0.run.step is FetchingUnseen,
    decreases pages.len(),
{
    let rest = pages.drop_first();
    let objects = all_parsed(pages.first());
    let page = PageView {
        contents: pages.first(),
        is_truncated: Some(rest.len() > 0),
        next_continuation_token: None,
    };
    let cursor = page_start(page);
    let world = World {
        listed: moment.world.listed + objects,
        page_size: objects.len(),
        pages: moment.world.pages + 1,
        asked: moment.world.asked.push(moment.action->continuation_token),
        served: moment.world.served.push(page),
        ..moment.world
    };
    lemma_follow(moment, EventView::Listed(page), world);
    let entered = follow(moment, EventView::<E>::Listed(page), world);
    let sofar = listed + objects;
    let (visited, first) = lemma_page(target, sofar, entered, cursor);
    lemma_reaches_concat(moment, entered, visited, 1, first);
    let (left, second) = if target.scope == TransactionScope::PerPage {
        let kept = visited.world.kept();
        lemma_follow(visited, EventView::Done, kept);
        let left = follow(visited, EventView::<E>::Done, kept);
        lemma_reaches_concat(moment, visited, left, 1 + first, 1);
        (left, 1 + first + 1)
    } else {
        (visited, 1 + first)
    };
    if rest.len() == 0 {
        assert(all_listed(rest) =~= seq![]);
        assert(listed + all_listed(pages) =~= sofar);
        (left, second)
    } else {
        let (begun, third) = if target.scope == TransactionScope::PerPage {
            let opened = World { working: left.world.committed, open: true, ..left.world };
            lemma_follow(left, EventView::Done, opened);
            let begun = follow(left, EventView::<E>::Done, opened);
            lemma_reaches_concat(moment, left, begun, second, 1);
            (begun, second + 1)
        } else {
            (left, second)
        };
        let (end, fourth) = lemma_pages(target, sofar, begun, rest);
        lemma_reaches_concat(moment, begun, end, third, fourth);
        assert(sofar + all_listed(rest) =~= listed + all_listed(pages));
        (end, third + fourth)
    }
}

/// The keys of a finite set can be put in a row.
proof fn lemma_in_a_row(keys: Set<Seq<char>>) -> (row: Seq<Seq<char>>)
    requires
        keys.finite(),
    ensures
        row.no_duplicates(),
        forall|key: Seq<char>| #[trigger] row.contains(key) <==> keys.contains(key),
    decreases keys.len(),
{
    if keys.len() == 0 {
        assert(keys =~= Set::empty());
        seq![]
    } else {
        let key = keys.choose();
        let rest = lemma_in_a_row(keys.remove(key));
        let row = rest.push(key);
        assert(keys.contains(key));
        assert(!rest.contains(key));
        assert forall|other: Seq<char>| #[trigger] row.contains(other) <==> keys.contains(
            other,
        ) by {
            if keys.contains(other) && other != key {
                assert(rest.contains(other));
                let i = choose|i: int| 0 <= i < rest.len() && rest[i] == other;
                assert(row[i] == other);
            }
            if other == key {
                assert(row[rest.len() as int] == key);
            }
            if row.contains(other) && other != key {
                let i = choose|i: int| 0 <= i < row.len() && row[i] == other;
                assert(rest[i] == other);
                assert(rest.contains(other));
                assert(keys.remove(key).contains(other));
            }
        }
        row
    }
}

/// Recorded objects can be listed.
proof fn lemma_unseen_listed(rows: States, seen: Set<Seq<char>>) -> (found: RowsView)
    requires
        rows.dom().finite(),
    ensures
        lists_unseen(rows, seen, found),
{
    let left = rows.dom().difference(seen);
    let order = lemma_in_a_row(left);
    let found = Seq::new(order.len(), |i: int| (order[i], rows[order[i]]));
    assert forall|i: int| 0 <= i < found.len() implies {
        &&& #[trigger] rows.contains_key(found[i].0)
        &&& rows[found[i].0] == found[i].1
        &&& !seen.contains(found[i].0)
    } by {
        assert(order.contains(order[i]));
    }
    assert forall|key: Seq<char>| #[trigger]
        rows.contains_key(key) && !seen.contains(key) implies exists|i: int|
        0 <= i < found.len() && found[i].0 == key by {
        assert(order.contains(key));
        let i = choose|i: int| 0 <= i < order.len() && order[i] == key;
        assert(found[i].0 == key);
    }
    found
}

/// The objects that a listing lacks can be removed.
proof fn lemma_sweep<E>(
    target: TargetView,
    listed: Seq<ObjectView>,
    moment: Moment<E>,
    found: RowsView,
    at: int,
) -> (result: (Moment<E>, nat))
    requires
        healthy(target, listed, moment),
        0 <= at <= found.len(),
        (moment.run, moment.action) == target.deleting::<E>(found, at),
    ensures
        reaches(moment, result.0, result.1),
        healthy(target, listed, result.0),
        result.0.run.step is DroppingColumn,
    decreases found.len() - at,
{
    if at == found.len() {
        (moment, 0)
    } else {
        let change = moment.action->Send_change;
        let taken = World {
            delivered: moment.world.delivered.push(change),
            ..moment.world
        };
        lemma_follow(moment, EventView::Accepted, taken);
        let sent = follow(moment, EventView::<E>::Accepted, taken);
        let world = taken.written(taken.working.removed(found[at].0));
        lemma_follow(sent, EventView::Done, world);
        let removed = follow(sent, EventView::<E>::Done, world);
        lemma_reaches_concat(moment, sent, removed, 1, 1);
        let (end, count) = lemma_sweep(target, listed, removed, found, at + 1);
        lemma_reaches_concat(moment, removed, end, 2, count);
        (end, 2 + count)
    }
}

/// A column of marks can be added, or is there.
proof fn lemma_add_column<E>(moment: Moment<E>) -> (next: Moment<E>)
    requires
        moment.run.step is AddingColumn,
        moment.action is AddSeenColumn,
    ensures
        reaches(moment, next, 1),
        next.run.target == moment.run.target,
        next.run.step is ResettingSeen,
        next.action is ResetSeen,
        next.world == moment.world && moment.world.working.column || next.world
            == moment.world.altered(moment.world.working.with_column()),
{
    let world = moment.world;
    if world.working.column {
        let event = EventView::<E>::Failed(arbitrary());
        lemma_follow(moment, event, world);
        follow(moment, event, world)
    } else {
        let added = world.altered(world.working.with_column());
        lemma_follow(moment, EventView::Done, added);
        follow(moment, EventView::<E>::Done, added)
    }
}

/// A run can get to the first page.
proof fn lemma_setup<E>(target: TargetView, table: Table) -> (result: (Moment<E>, nat))
    requires
        table.rows.dom().finite(),
    ensures
        reaches(Moment::<E>::initial(target, table), result.0, result.1),
        healthy(target, seq![], result.0),
        result.0.run.step is Listing,
{
    let start = Moment::<E>::initial(target, table);
    if target.scope == TransactionScope::PerPage {
        let added = lemma_add_column(start);
        let world = added.world.written(added.world.working.reset());
        lemma_follow(added, EventView::Done, world);
        let reset = follow(added, EventView::<E>::Done, world);
        lemma_reaches_concat(start, added, reset, 1, 1);
        let opened = World { working: world.committed, open: true, ..world };
        lemma_follow(reset, EventView::Done, opened);
        let begun = follow(reset, EventView::<E>::Done, opened);
        lemma_reaches_concat(start, reset, begun, 2, 1);
        (begun, 3)
    } else {
        let opened = World { working: start.world.committed, open: true, ..start.world };
        lemma_follow(start, EventView::Done, opened);
        let begun = follow(start, EventView::<E>::Done, opened);
        let added = lemma_add_column(begun);
        lemma_reaches_concat(start, begun, added, 1, 1);
        let world = added.world.written(added.world.working.reset());
        lemma_follow(added, EventView::Done, world);
        let reset = follow(added, EventView::<E>::Done, world);
        lemma_reaches_concat(start, added, reset, 2, 1);
        (reset, 3)
    }
}

/// A run that has removed what it had to can drop the column of marks and end.
proof fn lemma_cleanup<E>(
    target: TargetView,
    listed: Seq<ObjectView>,
    moment: Moment<E>,
) -> (result: (Moment<E>, nat))
    requires
        healthy(target, listed, moment),
        moment.run.step is DroppingColumn,
    ensures
        reaches(moment, result.0, result.1),
        healthy(target, listed, result.0),
        result.0.run.step is Finished,
        !result.0.world.committed.column,
{
    let world = moment.world.altered(moment.world.working.without_column());
    lemma_follow(moment, EventView::Done, world);
    let dropped = follow(moment, EventView::<E>::Done, world);
    let timed = World { clock: Some(0), ..world };
    lemma_follow(dropped, EventView::Clock(0), timed);
    let read = follow(dropped, EventView::<E>::Clock(0), timed);
    lemma_reaches_concat(moment, dropped, read, 1, 1);
    let noted = timed.altered(timed.working.noted(0));
    lemma_follow(read, EventView::Done, noted);
    let recorded = follow(read, EventView::<E>::Done, noted);
    lemma_reaches_concat(moment, read, recorded, 2, 1);
    if target.scope == TransactionScope::PerPage {
        (recorded, 3)
    } else {
        let kept = noted.kept();
        lemma_follow(recorded, EventView::Done, kept);
        let end = follow(recorded, EventView::<E>::Done, kept);
        lemma_reaches_concat(moment, recorded, end, 3, 1);
        (end, 4)
    }
}

/// A run can complete over any recorded state and any listing, however it is cut into pages, and
/// leave the tables without a column of marks.
pub proof fn law_run_can_complete<E>(
    target: TargetView,
    table: Table,
    pages: Seq<Seq<ListedView>>,
)
    requires
        table.rows.dom().finite(),
        pages.len() > 0,
    ensures
        exists|moments: Seq<Moment<E>>| #[trigger]
            is_course(target, table, moments) && completed(moments.last())
                && moments.last().world.listed == all_listed(pages)
                && !moments.last().world.committed.column,
{
    let start = Moment::<E>::initial(target, table);
    let listed = all_listed(pages);
    let (begun, first) = lemma_setup::<E>(target, table);
    let (read, second) = lemma_pages(target, seq![], begun, pages);
    assert(seq![] + listed =~= listed);
    lemma_reaches_concat(start, begun, read, first, second);
    let found = lemma_unseen_listed(read.world.working.rows, read.world.working.seen);
    lemma_follow(read, EventView::Unseen(found), read.world);
    let fetched = follow(read, EventView::<E>::Unseen(found), read.world);
    lemma_reaches_concat(start, read, fetched, first + second, 1);
    let (swept, third) = lemma_sweep(target, listed, fetched, found, 0);
    lemma_reaches_concat(start, fetched, swept, first + second + 1, third);
    let (end, fourth) = lemma_cleanup(target, listed, swept);
    lemma_reaches_concat(start, swept, end, first + second + 1 + third, fourth);
    let beginning = seq![start];
    assert(is_course(target, table, beginning));
    let moments = lemma_course_reaches(
        target,
        table,
        beginning,
        end,
        first + second + 1 + third + fourth,
    );
    assert(is_course(target, table, moments));
}

} // verus!
