//! How a run follows the listing of a bucket.
use crate::invariants::{consistent, lemma_course, undisturbed};
use crate::laws::completed;
use crate::model::{is_course, Moment, States, Table, World};
use crate::object::ObjectView;
use crate::sync::{
    all_parsed, ActionView, ContinuationView, EventView, PageView, StepView, TargetView,
    TransactionScope,
};
use vstd::prelude::*;

verus! {

/// The objects of pages, one page after the other.
pub open spec fn objects_of(pages: Seq<PageView>) -> Seq<ObjectView>
    decreases pages.len(),
{
    if pages.len() == 0 {
        seq![]
    } else {
        objects_of(pages.drop_last()) + all_parsed(pages.last().contents)
    }
}

/// Whether the first page was listed without a token, and each other page with the token of the
/// page before it, which was truncated.
pub open spec fn followed<E>(world: World<E>) -> bool {
    &&& world.asked.len() == world.served.len()
    &&& world.served.len() > 0 ==> world.asked[0] is None
    &&& forall|i: int|
        1 <= i < world.served.len() ==> {
            &&& #[trigger] world.asked[i] == world.served[i - 1].next_continuation_token
            &&& world.served[i - 1].is_truncated == Some(true)
        }
    &&& world.listed == objects_of(world.served)
}

/// Whether a page may be listed with a token.
pub open spec fn may_follow<E>(world: World<E>, token: Option<Seq<char>>) -> bool {
    if world.served.len() == 0 {
        token is None
    } else {
        &&& world.served.last().is_truncated == Some(true)
        &&& token == world.served.last().next_continuation_token
    }
}

/// Whether the last page was the last of the bucket.
pub open spec fn exhausted<E>(world: World<E>) -> bool {
    world.served.len() > 0 && world.served.last().is_truncated != Some(true)
}

/// Whether what is to follow the last page is what the page says.
pub open spec fn announced<E>(world: World<E>, continuation: ContinuationView) -> bool {
    match continuation {
        ContinuationView::More(token) => world.served.len() > 0 && may_follow(world, token),
        ContinuationView::Complete => exhausted(world),
    }
}

/// How far a run has come with the listing.
pub open spec fn following<E>(moment: Moment<E>) -> bool {
    let world = moment.world;
    let by_page = moment.run.target.scope == TransactionScope::PerPage;
    &&& followed(world)
    &&& match moment.run.step {
        StepView::AddingColumn => world.served.len() == 0,
        StepView::ResettingSeen => world.served.len() == 0,
        StepView::Beginning(token) => may_follow(world, token) && (by_page || world.served.len()
            == 0),
        StepView::Listing => {
            &&& moment.action matches ActionView::List { bucket, max_keys, continuation_token }
            &&& bucket == moment.run.target.bucket
            &&& max_keys == moment.run.target.max_keys
            &&& may_follow(world, continuation_token)
        },
        StepView::Fetching(cursor) => announced(world, cursor.continuation),
        StepView::Marking(cursor, _) => announced(world, cursor.continuation),
        StepView::Inserting(cursor, _) => announced(world, cursor.continuation),
        StepView::Sending(cursor) => announced(world, cursor.continuation),
        StepView::Committing(continuation) => if by_page {
            announced(world, continuation)
        } else {
            exhausted(world)
        },
        StepView::RollingBack(_) => true,
        StepView::Reporting(_) => true,
        StepView::Finished => !world.closed && world.errors.len() == 0 ==> exhausted(world),
        _ => !world.closed ==> exhausted(world),
    }
}

proof fn lemma_following_next<E>(
    rows: States,
    moment: Moment<E>,
    event: EventView<E>,
    next: Moment<E>,
)
    requires
        consistent(rows, moment),
        undisturbed(rows, moment),
        following(moment),
        moment.leads_to_by(event, next),
    ensures
        following(next),
{
    let world = moment.world;
    if event is Listed {
        assert(next.world.served.drop_last() =~= world.served);
        assert(next.world.served.last() == event->Listed_0);
        assert forall|i: int| 1 <= i < next.world.served.len() implies {
            &&& #[trigger] next.world.asked[i] == next.world.served[i - 1].next_continuation_token
            &&& next.world.served[i - 1].is_truncated == Some(true)
        } by {
            if i < world.served.len() {
                assert(world.asked[i] == world.served[i - 1].next_continuation_token);
            }
        }
    }
}

/// How far a run has come with the listing, at the last moment of any course.
pub proof fn lemma_following<E>(target: TargetView, table: Table, moments: Seq<Moment<E>>)
    requires
        is_course(target, table, moments),
    ensures
        following(moments.last()),
    decreases moments.len(),
{
    if moments.len() > 1 {
        let before = moments.drop_last();
        lemma_course(target, table, before);
        lemma_following(target, table, before);
        let event = choose|event: EventView<E>|
            before.last().leads_to_by(event, moments.last());
        lemma_following_next(table.rows, before.last(), event, moments.last());
    }
}

/// A bucket is listed from its first page on, without a gap: the first page is listed without a
/// token, each other one with the token that came with the page before, and no page is listed
/// after one that is not truncated. Every listing is of the bucket of the run, and asks for as
/// many objects as the run is to list at a time.
pub proof fn law_pages_are_followed<E>(target: TargetView, table: Table, moments: Seq<Moment<E>>)
    requires
        is_course(target, table, moments),
    ensures
        ({
            let world = moments.last().world;
            &&& world.asked.len() == world.served.len()
            &&& forall|i: int|
                0 <= i < world.asked.len() ==> #[trigger] world.asked[i] == if i == 0 {
                    None
                } else {
                    world.served[i - 1].next_continuation_token
                }
            &&& forall|i: int|
                0 <= i < world.served.len() - 1 ==> (#[trigger] world.served[i]).is_truncated
                    == Some(true)
            &&& moments.last().action matches ActionView::List {
                bucket,
                max_keys,
                continuation_token,
            } ==> {
                &&& bucket == target.bucket
                &&& max_keys == target.max_keys
                &&& world.served.len() == 0 ==> continuation_token is None
                &&& world.served.len() > 0 ==> world.served.last().is_truncated == Some(true)
                    && continuation_token == world.served.last().next_continuation_token
            }
        }),
{
    lemma_course(target, table, moments);
    lemma_following(target, table, moments);
    let world = moments.last().world;
    assert forall|i: int| 0 <= i < world.served.len() - 1 implies (
    #[trigger] world.served[i]).is_truncated == Some(true) by {
        assert(world.asked[i + 1] == world.served[i].next_continuation_token);
    }
}

/// A bucket is listed to its last page. Deleted objects are looked for only after a page that is
/// not truncated, unless the consumer is gone, and a completed run has listed one such page, the
/// last. The objects that it compared are those of all its pages, in order.
pub proof fn law_whole_bucket_is_listed<E>(
    target: TargetView,
    table: Table,
    moments: Seq<Moment<E>>,
)
    requires
        is_course(target, table, moments),
    ensures
        ({
            let world = moments.last().world;
            let action = moments.last().action;
            &&& completed(moments.last()) || (action is FetchUnseen && !world.closed) ==> {
                &&& world.served.len() > 0
                &&& world.served.last().is_truncated != Some(true)
                &&& forall|i: int|
                    0 <= i < world.served.len() - 1 ==> (#[trigger] world.served[i]).is_truncated
                        == Some(true)
            }
            &&& world.listed == objects_of(world.served)
        }),
{
    lemma_course(target, table, moments);
    lemma_following(target, table, moments);
    law_pages_are_followed(target, table, moments);
}

} // verus!
