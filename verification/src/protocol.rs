//! What a run asks for after each outcome, told by the outcome and the action.
use crate::object::{Change, ObjectView};
use crate::s3::CompactS3Object;
use crate::sync::{
    all_parsed, Action, ContinuationView, Event, Page, Resumption, RunView, StepView, SyncRun,
    Target, TransactionScope,
};
use vstd::prelude::*;

verus! {

/// A run works on what it is started with. It begins with the column of marks, or with its
/// transaction where it has but one.
pub proof fn law_first_action<E>(target: Target, first: (SyncRun<E>, Action<E>))
    requires
        call_ensures(SyncRun::<E>::start, (target,), first),
    ensures
        first.0@.target.scope == target.scope,
        first.0@.target.bucket == target.bucket@,
        first.0@.target.max_keys == target.max_keys,
        target.scope == TransactionScope::PerPage ==> first.1 is AddSeenColumn
            && first.0@.step is AddingColumn,
        target.scope == TransactionScope::WholeRun ==> first.1 is Begin && first.0@.step
            == StepView::<E>::Beginning(None),
{
}

/// A run never turns to anything else than what it was started with.
pub proof fn law_target_stays<E>(
    run: SyncRun<E>,
    event: Event<E>,
    next: (SyncRun<E>, Action<E>),
)
    requires
        call_ensures(SyncRun::<E>::after, (run, event), next),
    ensures
        next.0@.target == run@.target,
{
}

/// Whether a page of the bucket is asked for, with a token and as many objects as the run is to
/// list at a time.
pub open spec fn asks_for_page<E>(
    run: RunView<E>,
    action: Action<E>,
    token: Option<Seq<char>>,
) -> bool {
    &&& run.step is Listing
    &&& action matches Action::List { bucket, max_keys, continuation_token }
    &&& bucket@ == run.target.bucket
    &&& max_keys == run.target.max_keys
    &&& continuation_token is Some <==> token is Some
    &&& token is Some ==> continuation_token->0@ == token->0
}

/// The column of marks is added where it is missing, all marks are reset, and then the first page
/// is asked for, inside of a transaction.
pub proof fn law_setup_in_order<E>(
    run: SyncRun<E>,
    event: Event<E>,
    next: (SyncRun<E>, Action<E>),
)
    requires
        call_ensures(SyncRun::<E>::after, (run, event), next),
    ensures
        run@.step is AddingColumn && (event is Done || event is Failed) ==> next.1 is ResetSeen
            && next.0@.step is ResettingSeen,
        run@.step is ResettingSeen && event is Done && run@.target.scope
            == TransactionScope::PerPage ==> next.1 is Begin && next.0@.step == StepView::<
            E,
        >::Beginning(None),
        run@.step is ResettingSeen && event is Done && run@.target.scope
            == TransactionScope::WholeRun ==> asks_for_page(next.0@, next.1, None),
        run@.step is Beginning && event is Done && run@.target.scope == TransactionScope::WholeRun
            ==> next.1 is AddSeenColumn && next.0@.step is AddingColumn,
        run@.step matches StepView::Beginning(token) ==> event is Done && run@.target.scope
            == TransactionScope::PerPage ==> asks_for_page(next.0@, next.1, token),
{
}

/// Whether a run goes on with the next object of a page, or leaves the page after the last one. A
/// page that is a transaction is committed. Otherwise the next page is asked for with its token,
/// or the deleted objects are looked for after the last page.
pub open spec fn goes_on<E>(
    run: RunView<E>,
    action: Action<E>,
    objects: Seq<ObjectView>,
    place: int,
    continuation: ContinuationView,
) -> bool {
    if place < objects.len() {
        &&& run.step matches StepView::Fetching(cursor)
        &&& cursor.objects == objects
        &&& cursor.next == place
        &&& cursor.continuation == continuation
        &&& action matches Action::FetchPrevious { key }
        &&& key@ == objects[place].key
    } else if run.target.scope == TransactionScope::PerPage {
        action is Commit && run.step == StepView::<E>::Committing(continuation)
    } else {
        match continuation {
            ContinuationView::More(token) => asks_for_page(run, action, token),
            ContinuationView::Complete => action is FetchUnseen && run.step is FetchingUnseen,
        }
    }
}

/// A page is gone through from its first object. It is followed by another exactly where the
/// service says that the listing is truncated, and then with the token that the service gave.
pub proof fn law_listed_page<E>(
    run: SyncRun<E>,
    page: Page,
    token: Option<Seq<char>>,
    next: (SyncRun<E>, Action<E>),
)
    requires
        call_ensures(SyncRun::<E>::after, (run, Event::Listed(page)), next),
        run@.step is Listing,
        page.next_continuation_token is Some <==> token is Some,
        token is Some ==> page.next_continuation_token->0@ == token->0,
    ensures
        page.is_truncated == Some(true) ==> goes_on(
            next.0@,
            next.1,
            all_parsed(page@.contents),
            0,
            ContinuationView::More(token),
        ),
        page.is_truncated != Some(true) ==> goes_on(
            next.0@,
            next.1,
            all_parsed(page@.contents),
            0,
            ContinuationView::Complete,
        ),
        page@.contents.len() == page.contents@.len(),
        forall|i: int|
            0 <= i < page.contents@.len() ==> #[trigger] page@.contents[i] == page.contents@[i]@,
{
}

/// A committed page is followed by the next one, in a transaction of its own and listed with the
/// token of the page before, or by the deleted objects. A commit at the end of a whole run is the
/// end.
pub proof fn law_committed_page<E>(run: SyncRun<E>, next: (SyncRun<E>, Action<E>))
    requires
        call_ensures(SyncRun::<E>::after, (run, Event::Done), next),
        run@.step is Committing,
    ensures
        run@.target.scope == TransactionScope::PerPage ==> match run@.step->Committing_0 {
            ContinuationView::More(token) => next.1 is Begin && next.0@.step == StepView::<
                E,
            >::Beginning(token),
            ContinuationView::Complete => next.1 is FetchUnseen
                && next.0@.step is FetchingUnseen,
        },
        run@.target.scope == TransactionScope::WholeRun ==> next.1 is Finish,
{
}

/// A new object is recorded as it was listed, to be handed over as added. A known one is marked
/// first, whether or not its tag differs.
pub proof fn law_compared_object<E>(
    run: SyncRun<E>,
    previous: Option<CompactS3Object>,
    next: (SyncRun<E>, Action<E>),
)
    requires
        call_ensures(SyncRun::<E>::after, (run, Event::Fetched(previous)), next),
        run@.step is Fetching,
    ensures
        ({
            let cursor = run@.step->Fetching_0;
            let object = cursor.objects[cursor.next];
            &&& previous is None ==> {
                &&& next.1 matches Action::Insert { object: recorded }
                &&& recorded@ == object
                &&& next.0@.step matches StepView::Inserting(place, change)
                &&& place == cursor
                &&& change == crate::object::ChangeView::Added(object)
            }
            &&& previous is Some ==> {
                &&& next.1 matches Action::MarkSeen { key }
                &&& key@ == object.key
                &&& next.0@.step matches StepView::Marking(place, change)
                &&& place == cursor
                &&& change is None <==> previous->0.etag@ == object.etag
                &&& change is Some ==> change->0 is Modified && change->0->new == object
                    && change->0->old.key == object.key && change->0->old.etag
                    == previous->0.etag@ && change->0->old.size == previous->0.size
                    && change->0->old.last_modified.nanos == 0
                    && change->0->old.last_modified.secs == if -8_334_601_228_800
                    <= previous->0.last_modified <= 8_210_266_876_799 {
                    previous->0.last_modified as int
                } else {
                    0
                }
            }
        }),
{
}

/// A marked object whose tag differs is recorded, and any other is left behind.
pub proof fn law_marked_object<E>(run: SyncRun<E>, next: (SyncRun<E>, Action<E>))
    requires
        call_ensures(SyncRun::<E>::after, (run, Event::Done), next),
        run@.step is Marking,
    ensures
        ({
            let cursor = run@.step->Marking_0;
            let change = run@.step->Marking_1;
            &&& change is None ==> goes_on(
                next.0@,
                next.1,
                cursor.objects,
                cursor.next + 1,
                cursor.continuation,
            )
            &&& change is Some ==> {
                &&& next.1 matches Action::Insert { object }
                &&& object@ == cursor.objects[cursor.next]
                &&& next.0@.step == StepView::<E>::Inserting(cursor, change->0)
            }
        }),
{
}

/// A change is handed over once its object is recorded.
pub proof fn law_recorded_object<E>(run: SyncRun<E>, next: (SyncRun<E>, Action<E>))
    requires
        call_ensures(SyncRun::<E>::after, (run, Event::Done), next),
        run@.step is Inserting,
    ensures
        next.1 matches Action::Send { change } && change@ == run@.step->Inserting_1,
        next.0@.step == StepView::<E>::Sending(run@.step->Inserting_0),
{
}

/// Once a change is taken the run goes on with the next object. Where the consumer is gone, the
/// transaction is dropped; a run with a transaction for each page then still looks for deleted
/// objects and cleans up, and a whole run stops.
pub proof fn law_handed_over<E>(run: SyncRun<E>, event: Event<E>, next: (SyncRun<E>, Action<E>))
    requires
        call_ensures(SyncRun::<E>::after, (run, event), next),
        run@.step is Sending,
    ensures
        event is Accepted ==> goes_on(
            next.0@,
            next.1,
            run@.step->Sending_0.objects,
            run@.step->Sending_0.next + 1,
            run@.step->Sending_0.continuation,
        ),
        event is Closed ==> next.1 is Rollback,
        event is Closed && run@.target.scope == TransactionScope::PerPage ==> next.0@.step
            == StepView::<E>::RollingBack(Resumption::Sweep),
        event is Closed && run@.target.scope == TransactionScope::WholeRun ==> next.0@.step
            == StepView::<E>::RollingBack(Resumption::Stop),
{
}

/// Whether a run goes on with the next of the objects that were not marked, by handing over its
/// deletion as it was recorded, or begins to clean up after the last one.
pub open spec fn goes_on_deleting<E>(
    run: RunView<E>,
    action: Action<E>,
    found: Seq<(Seq<char>, crate::s3::CompactView)>,
    place: int,
) -> bool {
    if place < found.len() {
        &&& run.step == StepView::<E>::SendingDeleted(found, place)
        &&& action matches Action::Send { change: Change::Deleted(object) }
        &&& object.key@ == found[place].0
        &&& object.etag@ == found[place].1.etag
        &&& object.size == found[place].1.size
        &&& object.last_modified@.nanos == 0
        &&& object.last_modified@.secs == if -8_334_601_228_800 <= found[place].1.last_modified
            <= 8_210_266_876_799 {
            found[place].1.last_modified as int
        } else {
            0
        }
    } else {
        action is DropSeenColumn && run.step is DroppingColumn
    }
}

/// Every object that was found unmarked is handed over as deleted, one after the other in the order
/// in which they were found.
pub proof fn law_found_unmarked<E>(
    run: SyncRun<E>,
    found: Vec<(String, CompactS3Object)>,
    rows: Seq<(Seq<char>, crate::s3::CompactView)>,
    next: (SyncRun<E>, Action<E>),
)
    requires
        call_ensures(SyncRun::<E>::after, (run, Event::Unseen(found)), next),
        run@.step is FetchingUnseen,
        rows.len() == found@.len(),
        forall|i: int|
            0 <= i < rows.len() ==> (#[trigger] rows[i]).0 == found@[i].0@ && rows[i].1.etag
                == found@[i].1.etag@ && rows[i].1.size == found@[i].1.size
                && rows[i].1.last_modified == found@[i].1.last_modified,
    ensures
        goes_on_deleting(next.0@, next.1, rows, 0),
{
    assert(rows =~= crate::views::views(found@));
}

/// A deletion is recorded once it was taken. Where the consumer is gone, a run with a transaction
/// for each page cleans up, and a whole run drops its transaction.
pub proof fn law_handed_over_deletion<E>(
    run: SyncRun<E>,
    event: Event<E>,
    next: (SyncRun<E>, Action<E>),
)
    requires
        call_ensures(SyncRun::<E>::after, (run, event), next),
        run@.step is SendingDeleted,
    ensures
        event is Accepted ==> {
            &&& next.1 matches Action::Delete { key }
            &&& key@ == run@.step->SendingDeleted_0[run@.step->SendingDeleted_1].0
            &&& next.0@.step == StepView::<E>::Deleting(
                run@.step->SendingDeleted_0,
                run@.step->SendingDeleted_1,
            )
        },
        event is Closed && run@.target.scope == TransactionScope::PerPage
            ==> next.1 is DropSeenColumn && next.0@.step is DroppingColumn,
        event is Closed && run@.target.scope == TransactionScope::WholeRun ==> next.1 is Rollback
            && next.0@.step == StepView::<E>::RollingBack(Resumption::Stop),
{
}

/// A recorded deletion is followed by the next one.
pub proof fn law_recorded_deletion<E>(run: SyncRun<E>, next: (SyncRun<E>, Action<E>))
    requires
        call_ensures(SyncRun::<E>::after, (run, Event::Done), next),
        run@.step is Deleting,
    ensures
        goes_on_deleting(
            next.0@,
            next.1,
            run@.step->Deleting_0,
            run@.step->Deleting_1 + 1,
        ),
{
}

/// At its end a run drops the column of marks, reads the time and records that very time. A whole
/// run then commits.
pub proof fn law_end_in_order<E>(run: SyncRun<E>, event: Event<E>, next: (SyncRun<E>, Action<E>))
    requires
        call_ensures(SyncRun::<E>::after, (run, event), next),
    ensures
        run@.step is DroppingColumn && (event is Done || event is Failed) ==> next.1 is ReadClock
            && next.0@.step is ReadingClock,
        run@.step is ReadingClock ==> (event matches Event::Clock(read) ==> (
        next.1 matches Action::RecordSync { now } && now == read) && next.0@.step is Recording),
        run@.step is Recording && event is Done && run@.target.scope == TransactionScope::PerPage
            ==> next.1 is Finish,
        run@.step is Recording && event is Done && run@.target.scope == TransactionScope::WholeRun
            ==> next.1 is Commit && next.0@.step is Committing,
        run@.step is Finished ==> next.1 is Finish && next.0@.step is Finished,
{
}

/// A failure of anything but the column of marks is handed over, as the error that it came with.
/// Where each page is a transaction, the one that is open is dropped first; in a whole run that is
/// so for a failed commit, and otherwise the transaction is dropped right after.
pub proof fn law_failure_in_order<E>(run: SyncRun<E>, error: E, next: (SyncRun<E>, Action<E>))
    requires
        call_ensures(SyncRun::<E>::after, (run, Event::Failed(error)), next),
    ensures
        ({
            let step = run@.step;
            let page = step is Listing || step is Fetching || step is Marking || step is Inserting;
            let table = step is ResettingSeen || step is FetchingUnseen || step is Deleting
                || step is Recording;
            let by_page = run@.target.scope == TransactionScope::PerPage;
            let handed = next.1 matches Action::SendError { error: told } && told == error;
            let dropped = next.1 is Rollback && next.0@.step == StepView::<E>::RollingBack(
                Resumption::Report(error),
            );
            &&& step is Committing ==> dropped
            &&& by_page && page ==> dropped
            &&& by_page && table ==> handed && next.0@.step == StepView::<E>::Reporting(false)
            &&& !by_page && (page || table) ==> handed && next.0@.step == StepView::<
                E,
            >::Reporting(true)
            &&& step is Beginning ==> handed && next.0@.step == StepView::<E>::Reporting(false)
        }),
{
}

/// Whatever comes of dropping a transaction, the run goes on as it was to: it looks for deleted
/// objects, hands over the error, or stops.
pub proof fn law_dropped_transaction<E>(
    run: SyncRun<E>,
    event: Event<E>,
    next: (SyncRun<E>, Action<E>),
)
    requires
        call_ensures(SyncRun::<E>::after, (run, event), next),
        run@.step is RollingBack,
        event is Done || event is Failed,
    ensures
        match run@.step->RollingBack_0 {
            Resumption::Sweep => next.1 is FetchUnseen && next.0@.step is FetchingUnseen,
            Resumption::Report(error) => (next.1 matches Action::SendError { error: told } && told
                == error) && next.0@.step == StepView::<E>::Reporting(false),
            Resumption::Stop => next.1 is Finish,
        },
{
}

/// Nothing follows an error but the end, before which an open transaction is dropped.
pub proof fn law_after_error<E>(run: SyncRun<E>, event: Event<E>, next: (SyncRun<E>, Action<E>))
    requires
        call_ensures(SyncRun::<E>::after, (run, event), next),
        run@.step is Reporting,
    ensures
        run@.step == StepView::<E>::Reporting(true) ==> next.1 is Rollback && next.0@.step
            == StepView::<E>::RollingBack(Resumption::Stop),
        run@.step == StepView::<E>::Reporting(false) ==> next.1 is Finish,
{
}

/// Whether an outcome is one that the action of a step can have.
pub open spec fn belongs<E>(step: StepView<E>, event: Event<E>) -> bool {
    match step {
        StepView::Listing => event is Listed || event is Failed,
        StepView::Fetching(_) => event is Fetched || event is Failed,
        StepView::FetchingUnseen => event is Unseen || event is Failed,
        StepView::Sending(_) => event is Accepted || event is Closed,
        StepView::SendingDeleted(_, _) => event is Accepted || event is Closed,
        StepView::ReadingClock => event is Clock,
        StepView::Reporting(_) => true,
        StepView::Finished => true,
        _ => event is Done || event is Failed,
    }
}

/// An outcome that does not belong to the action ends the run.
pub proof fn law_foreign_outcome<E>(
    run: SyncRun<E>,
    event: Event<E>,
    next: (SyncRun<E>, Action<E>),
)
    requires
        call_ensures(SyncRun::<E>::after, (run, event), next),
        !belongs(run@.step, event),
    ensures
        next.1 is Finish,
        next.0@.step is Finished,
{
}

} // verus!
