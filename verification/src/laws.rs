//! What the library promises of runs as a whole.
use crate::builder::BuilderView;
use crate::invariants::{consistent, lemma_course, swept};
use crate::ledger::{
    facts_at, in_order, lemma_ledger, lemma_reported_part, pages_kept, part_reported, sweep_kept,
};
use crate::model::{
    absorbed, deletions, distinct_keys, first_keys, is_course, keys, lists_unseen, lookup,
    preparations, replayed, reported, without, Database, Moment, Preparation, States, Table, World,
};
use crate::object::{ChangeView, ObjectView};
use crate::remotes::aws::signed;
use crate::repetition::lemma_reported_again;
use crate::s3::{judged, restored, stored, sync_record, CompactView};
use crate::statement::{plain, schema, DROP_SEEN_COLUMN};
use crate::sync::{ActionView, EventView, RowsView, RunView, TargetView, TransactionScope};
use crate::text::signed_decimal;
use vstd::prelude::*;

verus! {

/// Whether a run came to its end with its consumer there and without an error.
pub open spec fn completed<E>(moment: Moment<E>) -> bool {
    &&& moment.run.step is Finished
    &&& !moment.world.closed
    &&& moment.world.errors.len() == 0
}

/// The changes that objects stand for, each compared with the same recorded states.
pub open spec fn differences(rows: States, objects: Seq<ObjectView>) -> Seq<ChangeView>
    decreases objects.len(),
{
    if objects.len() == 0 {
        seq![]
    } else {
        let before = differences(rows, objects.drop_last());
        match judged(objects.last(), lookup(rows, objects.last().key)) {
            Some(change) => before.push(change),
            None => before,
        }
    }
}

/// The state of an object is not touched by other objects.
pub proof fn lemma_absorbed_elsewhere(rows: States, objects: Seq<ObjectView>, key: Seq<char>)
    requires
        !keys(objects).contains(key),
    ensures
        lookup(absorbed(rows, objects), key) == lookup(rows, key),
    decreases objects.len(),
{
    if objects.len() > 0 {
        let before = objects.drop_last();
        assert(!keys(before).contains(key)) by {
            if keys(before).contains(key) {
                let i = choose|i: int| 0 <= i < before.len() && before[i].key == key;
                assert(objects[i].key == key);
            }
        }
        assert(objects[objects.len() - 1].key != key);
        lemma_absorbed_elsewhere(rows, before, key);
    }
}

/// The recorded tag of an object is the one that was listed last.
proof fn lemma_absorbed_there(rows: States, objects: Seq<ObjectView>, at: int)
    requires
        0 <= at < objects.len(),
        forall|i: int| at < i < objects.len() ==> objects[i].key != objects[at].key,
    ensures
        absorbed(rows, objects).contains_key(objects[at].key),
        absorbed(rows, objects)[objects[at].key].etag == objects[at].etag,
    decreases objects.len(),
{
    let before = objects.drop_last();
    if at < before.len() {
        assert forall|i: int| at < i < before.len() implies before[i].key != before[at].key by {
            assert(objects[i].key != objects[at].key);
        }
        assert(objects[objects.len() - 1].key != objects[at].key);
        lemma_absorbed_there(rows, before, at);
    }
}

/// Every listed key is recorded.
proof fn lemma_absorbed_keys(rows: States, objects: Seq<ObjectView>)
    ensures
        absorbed(rows, objects).dom() == rows.dom().union(keys(objects)),
    decreases objects.len(),
{
    if objects.len() == 0 {
        assert(keys(objects) =~= Set::empty());
        assert(rows.dom() =~= rows.dom().union(keys(objects)));
    } else {
        let before = objects.drop_last();
        let object = objects.last();
        lemma_absorbed_keys(rows, before);
        assert(objects =~= before.push(object));
        crate::invariants::lemma_keys_push(before, object);
        assert(absorbed(rows, objects).dom() =~= rows.dom().union(keys(objects)));
    }
}

proof fn lemma_replayed_elsewhere(rows: States, changes: Seq<ChangeView>, key: Seq<char>)
    requires
        forall|i: int| 0 <= i < changes.len() ==> (#[trigger] changes[i]).key() != key,
    ensures
        lookup(replayed(rows, changes), key) == lookup(rows, key),
    decreases changes.len(),
{
    if changes.len() > 0 {
        let before = changes.drop_last();
        assert forall|i: int| 0 <= i < before.len() implies (#[trigger] before[i]).key() != key by {
            assert(changes[i].key() != key);
        }
        assert(changes[changes.len() - 1].key() != key);
        lemma_replayed_elsewhere(rows, before, key);
    }
}

/// What is recorded never runs ahead of the consumer. At every moment of every run, whatever
/// failed before and whether or not the consumer is still there, the database would keep exactly
/// what it held at first with some of the changes applied that the consumer took, in order from
/// the first. No change is lost, then, by a process that stops at that moment.
pub proof fn law_never_ahead<E>(target: TargetView, table: Table, moments: Seq<Moment<E>>)
    requires
        is_course(target, table, moments),
    ensures
        ({
            let world = moments.last().world;
            &&& world.acknowledged <= world.delivered.len()
            &&& world.committed.rows == replayed(
                table.rows,
                world.delivered.take(world.acknowledged as int),
            )
        }),
{
    lemma_course(target, table, moments);
}

/// Where each page is a transaction, at most one page of changes is handed over again by the next
/// run: at every moment, all changes that the consumer took are kept but for those about the
/// objects of the page in hand, or for one deletion.
pub proof fn law_at_most_one_page_again<E>(
    target: TargetView,
    table: Table,
    moments: Seq<Moment<E>>,
)
    requires
        is_course(target, table, moments),
        target.scope == TransactionScope::PerPage,
    ensures
        ({
            let world = moments.last().world;
            let outstanding = world.delivered.len() - world.acknowledged;
            outstanding <= world.page_size || outstanding <= 1
        }),
{
    lemma_course(target, table, moments);
}

/// A completed run leaves exactly the listed objects recorded, each under the tag that was listed
/// for it last. It hands over the changes that the objects stand for, in the order of the listing,
/// and then the deletion of each object that was recorded before and is not listed.
pub proof fn law_completed_run<E>(target: TargetView, table: Table, moments: Seq<Moment<E>>)
    requires
        is_course(target, table, moments),
        completed(moments.last()),
    ensures
        ({
            let world = moments.last().world;
            &&& world.committed.rows.dom() == keys(world.listed)
            &&& forall|at: int|
                0 <= at < world.listed.len() && (forall|i: int|
                    at < i < world.listed.len() ==> world.listed[i].key != (
                    #[trigger] world.listed[at]).key)
                    ==> world.committed.rows[world.listed[at].key].etag == world.listed[at].etag
            &&& exists|found: RowsView| #[trigger]
                lists_unseen(table.rows, keys(world.listed), found) && world.delivered == reported(
                    table.rows,
                    world.listed,
                ) + deletions(found)
        }),
{
    lemma_course(target, table, moments);
    let world = moments.last().world;
    let listed = world.listed;
    let rows = table.rows;
    let all = absorbed(rows, listed);
    let found = choose|found: RowsView| #[trigger]
        swept(rows, world, found, found.len() as int, found.len() as int);
    lemma_absorbed_keys(rows, listed);
    assert(found.take(found.len() as int) =~= found);
    assert(world.committed.rows == without(all, found, found.len() as int));
    assert forall|key: Seq<char>| world.committed.rows.dom().contains(key) <==> keys(
        listed,
    ).contains(key) by {
        if all.contains_key(key) && !keys(listed).contains(key) {
            let i = choose|i: int| 0 <= i < found.len() && found[i].0 == key;
            assert(found[i].0 == key);
        }
        if keys(listed).contains(key) {
            assert(all.dom().contains(key));
            assert forall|i: int| 0 <= i < found.len() implies found[i].0 != key by {
                assert(all.contains_key(found[i].0));
            }
        }
    }
    assert(world.committed.rows.dom() =~= keys(listed));
    assert forall|at: int|
        0 <= at < listed.len() && (forall|i: int|
            at < i < listed.len() ==> listed[i].key != (#[trigger] listed[at]).key) implies
        world.committed.rows[listed[at].key].etag == listed[at].etag by {
        lemma_absorbed_there(rows, listed, at);
        assert(keys(listed).contains(listed[at].key));
    }
    assert(lists_unseen(rows, keys(listed), found)) by {
        assert forall|i: int| 0 <= i < found.len() implies {
            &&& #[trigger] rows.contains_key(found[i].0)
            &&& rows[found[i].0] == found[i].1
            &&& !keys(listed).contains(found[i].0)
        } by {
            assert(all.contains_key(found[i].0));
            lemma_absorbed_elsewhere(rows, listed, found[i].0);
        }
        assert forall|key: Seq<char>| #[trigger]
            rows.contains_key(key) && !keys(listed).contains(key) implies exists|i: int|
            0 <= i < found.len() && found[i].0 == key by {
            assert(all.contains_key(key));
        }
    }
}

proof fn lemma_keys_of_prefix(objects: Seq<ObjectView>)
    requires
        distinct_keys(objects),
        objects.len() > 0,
    ensures
        distinct_keys(objects.drop_last()),
        !keys(objects.drop_last()).contains(objects.last().key),
{
    let before = objects.drop_last();
    if keys(before).contains(objects.last().key) {
        let i = choose|i: int| 0 <= i < before.len() && before[i].key == objects.last().key;
        assert(objects[i].key == objects[objects.len() - 1].key);
    }
    assert forall|i: int, j: int| 0 <= i < j < before.len() implies before[i].key
        != before[j].key by {
        assert(objects[i].key != objects[j].key);
    }
}

/// Where no key is listed twice, the changes are those between the recorded states and the
/// listing: no object has a part in what is said of another.
pub proof fn law_reports_differences(rows: States, objects: Seq<ObjectView>)
    requires
        distinct_keys(objects),
    ensures
        reported(rows, objects) == differences(rows, objects),
    decreases objects.len(),
{
    if objects.len() > 0 {
        lemma_keys_of_prefix(objects);
        law_reports_differences(rows, objects.drop_last());
        lemma_absorbed_elsewhere(rows, objects.drop_last(), objects.last().key);
    }
}

/// Where no key is listed twice, the changes are exactly the ones that some object stands for, and
/// no two of them are about the same object.
proof fn lemma_differences(rows: States, objects: Seq<ObjectView>)
    requires
        distinct_keys(objects),
    ensures
        forall|at: int|
            0 <= at < differences(rows, objects).len() ==> exists|i: int|
                0 <= i < objects.len() && judged(
                    #[trigger] objects[i],
                    lookup(rows, objects[i].key),
                ) == Some(#[trigger] differences(rows, objects)[at]),
        forall|i: int|
            0 <= i < objects.len() ==> (judged(
                #[trigger] objects[i],
                lookup(rows, objects[i].key),
            ) matches Some(change) ==> differences(rows, objects).contains(change)),
        forall|i: int, j: int|
            0 <= i < j < differences(rows, objects).len() ==> differences(rows, objects)[i].key()
                != differences(rows, objects)[j].key(),
        forall|i: int|
            0 <= i < differences(rows, objects).len() ==> keys(objects).contains(
                (#[trigger] differences(rows, objects)[i]).key(),
            ),
    decreases objects.len(),
{
    if objects.len() > 0 {
        let before = objects.drop_last();
        let object = objects.last();
        let all = differences(rows, objects);
        let earlier = differences(rows, before);
        lemma_keys_of_prefix(objects);
        lemma_differences(rows, before);
        assert(objects =~= before.push(object));
        crate::invariants::lemma_keys_push(before, object);
        assert forall|at: int| 0 <= at < all.len() implies exists|i: int|
            0 <= i < objects.len() && judged(
                #[trigger] objects[i],
                lookup(rows, objects[i].key),
            ) == Some(#[trigger] all[at]) by {
            if at < earlier.len() {
                assert(all[at] == earlier[at]);
                let i = choose|i: int|
                    0 <= i < before.len() && judged(
                        #[trigger] before[i],
                        lookup(rows, before[i].key),
                    ) == Some(earlier[at]);
                assert(objects[i] == before[i]);
            } else {
                assert(objects[objects.len() - 1] == object);
            }
        }
        assert forall|i: int| 0 <= i < objects.len() implies (judged(
            #[trigger] objects[i],
            lookup(rows, objects[i].key),
        ) matches Some(change) ==> all.contains(change)) by {
            if judged(objects[i], lookup(rows, objects[i].key)) is Some {
                let change = judged(objects[i], lookup(rows, objects[i].key))->0;
                if i < before.len() {
                    assert(before[i] == objects[i]);
                    assert(earlier.contains(change));
                    let at = choose|at: int| 0 <= at < earlier.len() && earlier[at] == change;
                    assert(all[at] == change);
                } else {
                    assert(all[all.len() - 1] == change);
                }
            }
        }
        assert forall|i: int| 0 <= i < all.len() implies keys(objects).contains(
            (#[trigger] all[i]).key(),
        ) by {
            if i < earlier.len() {
                assert(all[i] == earlier[i]);
            }
        }
        assert forall|i: int, j: int| 0 <= i < j < all.len() implies all[i].key()
            != all[j].key() by {
            assert(all[i] == earlier[i]);
            if j < earlier.len() {
                assert(all[j] == earlier[j]);
            } else {
                assert(keys(before).contains(earlier[i].key()));
            }
        }
    }
}

/// Whether a change is one between recorded states and a listing: an object is new or was
/// modified, or a recorded one is not listed.
pub open spec fn is_difference(
    rows: States,
    listed: Seq<ObjectView>,
    change: ChangeView,
) -> bool {
    ||| exists|i: int|
        0 <= i < listed.len() && judged(
            #[trigger] listed[i],
            lookup(rows, listed[i].key),
        ) == Some(change)
    ||| exists|key: Seq<char>| #[trigger]
        rows.contains_key(key) && !keys(listed).contains(key) && change == ChangeView::Deleted(
            restored(key, rows[key]),
        )
}

/// A completed run that listed no key twice hands over exactly the differences between what was
/// recorded before and the listing, and at most one about each object.
pub proof fn law_exact_differences<E>(target: TargetView, table: Table, moments: Seq<Moment<E>>)
    requires
        is_course(target, table, moments),
        completed(moments.last()),
        distinct_keys(moments.last().world.listed),
    ensures
        ({
            let world = moments.last().world;
            &&& forall|change: ChangeView|
                world.delivered.contains(change) <==> is_difference(
                    table.rows,
                    world.listed,
                    change,
                )
            &&& forall|i: int, j: int|
                0 <= i < j < world.delivered.len() ==> world.delivered[i].key()
                    != world.delivered[j].key()
        }),
{
    law_completed_run(target, table, moments);
    let world = moments.last().world;
    let rows = table.rows;
    let listed = world.listed;
    let delivered = world.delivered;
    let found = choose|found: RowsView| #[trigger]
        lists_unseen(rows, keys(listed), found) && delivered == reported(rows, listed) + deletions(
            found,
        );
    law_reports_differences(rows, listed);
    lemma_differences(rows, listed);
    let first = differences(rows, listed);
    let rest = deletions(found);
    assert forall|change: ChangeView| delivered.contains(change) implies is_difference(
        rows,
        listed,
        change,
    ) by {
        let at = choose|at: int| 0 <= at < delivered.len() && delivered[at] == change;
        if at < first.len() {
            assert(first[at] == change);
        } else {
            let i = at - first.len();
            assert(rest[i] == change);
            assert(rows.contains_key(found[i].0));
        }
    }
    assert forall|change: ChangeView| is_difference(rows, listed, change) implies
        delivered.contains(change) by {
        if exists|i: int|
            0 <= i < listed.len() && judged(
                #[trigger] listed[i],
                lookup(rows, listed[i].key),
            ) == Some(change) {
            assert(first.contains(change));
            let at = choose|at: int| 0 <= at < first.len() && first[at] == change;
            assert(delivered[at] == change);
        } else {
            let key = choose|key: Seq<char>| #[trigger]
                rows.contains_key(key) && !keys(listed).contains(key) && change
                    == ChangeView::Deleted(restored(key, rows[key]));
            let i = choose|i: int| 0 <= i < found.len() && found[i].0 == key;
            assert(rows.contains_key(found[i].0));
            assert(rest[i] == change);
            assert(delivered[first.len() + i] == change);
        }
    }
    assert forall|i: int, j: int| 0 <= i < j < delivered.len() implies delivered[i].key()
        != delivered[j].key() by {
        if j < first.len() {
            assert(delivered[i] == first[i] && delivered[j] == first[j]);
        } else {
            assert(delivered[j] == rest[j - first.len()]);
            assert(rows.contains_key(found[j - first.len()].0));
            if i < first.len() {
                assert(delivered[i] == first[i]);
                assert(keys(listed).contains(first[i].key()));
            } else {
                assert(delivered[i] == rest[i - first.len()]);
            }
        }
    }
}

/// Whether some change of a sequence is about the object under a key.
pub open spec fn mentions(changes: Seq<ChangeView>, key: Seq<char>) -> bool {
    exists|i: int| 0 <= i < changes.len() && (#[trigger] changes[i]).key() == key
}

proof fn lemma_mentions_push(changes: Seq<ChangeView>, change: ChangeView, key: Seq<char>)
    ensures
        mentions(changes.push(change), key) <==> mentions(changes, key) || change.key() == key,
{
    let all = changes.push(change);
    if mentions(changes, key) {
        let i = choose|i: int| 0 <= i < changes.len() && (#[trigger] changes[i]).key() == key;
        assert(all[i].key() == key);
    }
    if change.key() == key {
        assert(all[changes.len() as int].key() == key);
    }
    if mentions(all, key) {
        let i = choose|i: int| 0 <= i < all.len() && (#[trigger] all[i]).key() == key;
        if i < changes.len() {
            assert(changes[i].key() == key);
        }
    }
}

proof fn lemma_mentions_concat(first: Seq<ChangeView>, rest: Seq<ChangeView>, key: Seq<char>)
    ensures
        mentions(first + rest, key) <==> mentions(first, key) || mentions(rest, key),
{
    let all = first + rest;
    if mentions(first, key) {
        let i = choose|i: int| 0 <= i < first.len() && (#[trigger] first[i]).key() == key;
        assert(all[i].key() == key);
    }
    if mentions(rest, key) {
        let i = choose|i: int| 0 <= i < rest.len() && (#[trigger] rest[i]).key() == key;
        assert(all[first.len() + i].key() == key);
    }
    if mentions(all, key) {
        let i = choose|i: int| 0 <= i < all.len() && (#[trigger] all[i]).key() == key;
        if i < first.len() {
            assert(first[i].key() == key);
        } else {
            assert(rest[i - first.len()].key() == key);
        }
    }
}

/// A key that no change is about keeps its state.
proof fn lemma_not_mentioned(rows: States, objects: Seq<ObjectView>, key: Seq<char>)
    requires
        !mentions(reported(rows, objects), key),
    ensures
        lookup(absorbed(rows, objects), key) == lookup(rows, key),
    decreases objects.len(),
{
    if objects.len() > 0 {
        let before = objects.drop_last();
        let object = objects.last();
        match judged(object, lookup(absorbed(rows, before), object.key)) {
            Some(change) => {
                lemma_mentions_push(reported(rows, before), change, key);
            },
            None => {},
        }
        lemma_not_mentioned(rows, before, key);
    }
}

/// An object that differs from its recorded state is one that a change is about.
proof fn lemma_mentioned(rows: States, objects: Seq<ObjectView>, at: int)
    requires
        0 <= at < objects.len(),
        judged(objects[at], lookup(rows, objects[at].key)) is Some,
    ensures
        mentions(reported(rows, objects), objects[at].key),
    decreases objects.len(),
{
    let before = objects.drop_last();
    let object = objects.last();
    let key = objects[at].key;
    match judged(object, lookup(absorbed(rows, before), object.key)) {
        Some(change) => {
            lemma_mentions_push(reported(rows, before), change, key);
        },
        None => {},
    }
    if at < before.len() {
        assert(before[at] == objects[at]);
        lemma_mentioned(rows, before, at);
    } else if !mentions(reported(rows, before), key) {
        lemma_not_mentioned(rows, before, key);
    }
}

/// Where a key is listed under its recorded tag only, no change is about it.
proof fn lemma_skipped(rows: States, objects: Seq<ObjectView>, key: Seq<char>)
    requires
        rows.contains_key(key),
        forall|i: int|
            0 <= i < objects.len() && (#[trigger] objects[i]).key == key ==> objects[i].etag
                == rows[key].etag,
    ensures
        !mentions(reported(rows, objects), key),
    decreases objects.len(),
{
    if objects.len() > 0 {
        let before = objects.drop_last();
        let object = objects.last();
        assert forall|i: int|
            0 <= i < before.len() && (#[trigger] before[i]).key == key implies before[i].etag
            == rows[key].etag by {
            assert(objects[i] == before[i]);
        }
        assert(objects[objects.len() - 1] == object);
        lemma_skipped(rows, before, key);
        lemma_not_mentioned(rows, before, key);
        match judged(object, lookup(absorbed(rows, before), object.key)) {
            Some(change) => {
                lemma_mentions_push(reported(rows, before), change, key);
            },
            None => {},
        }
    }
}

/// A completed run hands over nothing about a key that is listed under its recorded tag. Objects
/// that an earlier run dealt with before it was cut off are not handed over again, therefore.
pub proof fn law_recorded_is_skipped<E>(
    target: TargetView,
    table: Table,
    moments: Seq<Moment<E>>,
    at: int,
)
    requires
        is_course(target, table, moments),
        completed(moments.last()),
        0 <= at < moments.last().world.listed.len(),
        ({
            let listed = moments.last().world.listed;
            &&& table.rows.contains_key(listed[at].key)
            &&& forall|i: int|
                0 <= i < listed.len() && (#[trigger] listed[i]).key == listed[at].key
                    ==> listed[i].etag == table.rows[listed[at].key].etag
        }),
    ensures
        !mentions(moments.last().world.delivered, moments.last().world.listed[at].key),
{
    law_completed_run(target, table, moments);
    let world = moments.last().world;
    let listed = world.listed;
    let key = listed[at].key;
    let found = choose|found: RowsView| #[trigger]
        lists_unseen(table.rows, keys(listed), found) && world.delivered == reported(
            table.rows,
            listed,
        ) + deletions(found);
    lemma_skipped(table.rows, listed, key);
    lemma_mentions_concat(reported(table.rows, listed), deletions(found), key);
    if mentions(deletions(found), key) {
        let i = choose|i: int|
            0 <= i < deletions(found).len() && (#[trigger] deletions(found)[i]).key() == key;
        assert(table.rows.contains_key(found[i].0));
        assert(keys(listed).contains(key));
    }
}

/// Whether no key is listed under two tags.
pub open spec fn agreeing_tags(objects: Seq<ObjectView>) -> bool {
    forall|i: int, j: int|
        0 <= i < objects.len() && 0 <= j < objects.len() && objects[i].key == objects[j].key
            ==> objects[i].etag == objects[j].etag
}

/// Among the places of a key in a listing there is a last one.
proof fn lemma_last_place(objects: Seq<ObjectView>, at: int) -> (last: int)
    requires
        0 <= at < objects.len(),
    ensures
        at <= last < objects.len(),
        objects[last].key == objects[at].key,
        forall|i: int| last < i < objects.len() ==> objects[i].key != objects[last].key,
    decreases objects.len() - at,
{
    if exists|i: int| at < i < objects.len() && objects[i].key == objects[at].key {
        let i = choose|i: int| at < i < objects.len() && objects[i].key == objects[at].key;
        lemma_last_place(objects, i)
    } else {
        at
    }
}

/// A bucket that did not change since a completed run gives no changes.
pub proof fn law_repeat_is_silent<E>(
    first_target: TargetView,
    table: Table,
    first: Seq<Moment<E>>,
    second_target: TargetView,
    second: Seq<Moment<E>>,
)
    requires
        is_course(first_target, table, first),
        completed(first.last()),
        is_course(second_target, first.last().world.committed, second),
        completed(second.last()),
        second.last().world.listed == first.last().world.listed,
        agreeing_tags(first.last().world.listed),
    ensures
        second.last().world.delivered.len() == 0,
{
    let recorded = first.last().world.committed.rows;
    let world = second.last().world;
    let listed = world.listed;
    law_completed_run(first_target, table, first);
    law_completed_run(second_target, first.last().world.committed, second);
    if world.delivered.len() > 0 {
        let key = world.delivered[0].key();
        assert(mentions(world.delivered, key));
        if exists|at: int| 0 <= at < listed.len() && listed[at].key == key {
            let at = choose|at: int| 0 <= at < listed.len() && listed[at].key == key;
            let last = lemma_last_place(listed, at);
            assert(keys(listed).contains(key));
            assert(recorded.dom().contains(key));
            assert(recorded[listed[last].key].etag == listed[last].etag);
            law_recorded_is_skipped(second_target, first.last().world.committed, second, at);
        } else {
            let found = choose|found: RowsView| #[trigger]
                lists_unseen(recorded, keys(listed), found) && world.delivered == reported(
                    recorded,
                    listed,
                ) + deletions(found);
            if found.len() > 0 {
                assert(recorded.contains_key(found[0].0));
                assert(recorded.dom().contains(found[0].0));
            }
            lemma_mentions_concat(reported(recorded, listed), deletions(found), key);
            lemma_reported_keys(recorded, listed, key);
        }
    }
}

/// Changes about listed objects are about listed keys.
proof fn lemma_reported_keys(rows: States, objects: Seq<ObjectView>, key: Seq<char>)
    requires
        mentions(reported(rows, objects), key),
    ensures
        exists|i: int| 0 <= i < objects.len() && objects[i].key == key,
    decreases objects.len(),
{
    if objects.len() > 0 {
        let before = objects.drop_last();
        let object = objects.last();
        match judged(object, lookup(absorbed(rows, before), object.key)) {
            Some(change) => {
                lemma_mentions_push(reported(rows, before), change, key);
            },
            None => {},
        }
        if mentions(reported(rows, before), key) {
            lemma_reported_keys(rows, before, key);
            let i = choose|i: int| 0 <= i < before.len() && before[i].key == key;
            assert(objects[i].key == key);
        } else {
            assert(objects[objects.len() - 1].key == key);
        }
    }
}

/// Whether a bucket may have been the same all along, given what a run saw of it before it was cut
/// off and what was listed later: the run had listed the first part of it, or all of it if it
/// went on to deletions.
pub open spec fn same_bucket<E>(world: World<E>, listed: Seq<ObjectView>) -> bool {
    &&& world.listed.len() <= listed.len()
    &&& world.listed == listed.take(world.listed.len() as int)
    &&& world.listed == listed || forall|i: int|
        0 <= i < world.delivered.len() ==> !(#[trigger] world.delivered[i] is Deleted)
}

/// Nothing is lost when a run is cut off. Let one run stop at any moment, and let another complete
/// over the same bucket and what the database kept. Every change that the first run owed and that
/// the consumer had not taken from it when the database last kept what was written is handed over
/// by the second: each of the changes that the listing stands for, and each deletion.
pub proof fn law_nothing_is_lost<E>(
    first_target: TargetView,
    table: Table,
    first: Seq<Moment<E>>,
    second_target: TargetView,
    second: Seq<Moment<E>>,
)
    requires
        is_course(first_target, table, first),
        is_course(second_target, first.last().world.committed, second),
        completed(second.last()),
        same_bucket(first.last().world, second.last().world.listed),
    ensures
        ({
            let world = first.last().world;
            let listed = second.last().world.listed;
            let owed = reported(table.rows, listed);
            let again = second.last().world.delivered;
            let safe = world.delivered.take(world.acknowledged as int);
            &&& forall|i: int|
                world.acknowledged <= i < owed.len() ==> again.contains(#[trigger] owed[i])
            &&& forall|key: Seq<char>|
                {
                    let change = ChangeView::Deleted(restored(key, table.rows[key]));
                    #[trigger] table.rows.contains_key(key) && !keys(listed).contains(key)
                        && !safe.contains(change) ==> again.contains(change)
                }
        }),
{
    lemma_course(first_target, table, first);
    lemma_ledger(first_target, table, first);
    law_completed_run(second_target, first.last().world.committed, second);
    let rows = table.rows;
    let world = first.last().world;
    let kept = world.committed.rows;
    let listed = second.last().world.listed;
    let owed = reported(rows, listed);
    let again = second.last().world.delivered;
    let safe = world.delivered.take(world.acknowledged as int);
    let found = choose|found: RowsView| #[trigger]
        lists_unseen(kept, keys(listed), found) && again == reported(kept, listed) + deletions(
            found,
        );
    let count = world.covered as int;
    let part = listed.take(count);
    assert(world.listed.take(count) =~= part);
    if pages_kept(rows, world) {
        assert forall|i: int| world.acknowledged <= i < owed.len() implies again.contains(
            #[trigger] owed[i],
        ) by {
            lemma_reported_again(rows, listed, count, i);
            let at = choose|at: int|
                0 <= at < reported(kept, listed).len() && reported(kept, listed)[at] == owed[i];
            assert(again[at] == owed[i]);
        }
    } else {
        let (gone, removed) = choose|gone: RowsView, removed: int| #[trigger]
            sweep_kept(rows, world, gone, removed);
        if removed == 0 {
            assert(gone.take(0) =~= seq![]);
            assert(deletions(seq![]) =~= seq![]);
            assert(world.listed.take(world.listed.len() as int) =~= world.listed);
            assert(reported(rows, world.listed) + seq![] =~= reported(rows, world.listed));
            assert(without(absorbed(rows, world.listed), gone, 0) =~= absorbed(
                rows,
                world.listed,
            ));
        } else {
            let at = reported(rows, world.listed).len() as int;
            assert(safe[at] == world.delivered[at]);
            assert(deletions(gone.take(removed))[0] is Deleted);
            assert(world.delivered[at] is Deleted);
            assert(world.listed == listed);
        }
    }
    assert forall|key: Seq<char>|
        {
            let change = ChangeView::Deleted(restored(key, rows[key]));
            #[trigger] rows.contains_key(key) && !keys(listed).contains(key) && !safe.contains(
                change,
            ) ==> again.contains(change)
        } by {
        let change = ChangeView::Deleted(restored(key, rows[key]));
        if rows.contains_key(key) && !keys(listed).contains(key) && !safe.contains(change) {
            if pages_kept(rows, world) {
                assert(!keys(part).contains(key)) by {
                    if keys(part).contains(key) {
                        let i = choose|i: int| 0 <= i < part.len() && part[i].key == key;
                        assert(listed[i].key == key);
                    }
                }
                lemma_absorbed_elsewhere(rows, part, key);
            } else {
                let (gone, removed) = choose|gone: RowsView, removed: int| #[trigger]
                    sweep_kept(rows, world, gone, removed);
                lemma_absorbed_elsewhere(rows, listed, key);
                let all = absorbed(rows, listed);
                if first_keys(gone, removed).contains(key) {
                    let i = choose|i: int| 0 <= i < removed && i < gone.len() && gone[i].0 == key;
                    assert(all.contains_key(gone[i].0));
                    assert(deletions(gone.take(removed))[i] == change);
                    assert(safe[reported(rows, world.listed).len() + i] == change);
                }
            }
            assert(lookup(kept, key) == lookup(rows, key));
            assert(kept.contains_key(key));
            let i = choose|i: int| 0 <= i < found.len() && found[i].0 == key;
            assert(kept.contains_key(found[i].0));
            assert(deletions(found)[i] == change);
            assert(again[reported(kept, listed).len() + i] == change);
        }
    }
}

/// The consumer is handed the changes in order: at every moment it has taken the first of those
/// that the listing so far stands for, or all of them and then deletions of objects that the
/// listing lacks.
pub proof fn law_changes_come_in_order<E>(
    target: TargetView,
    table: Table,
    moments: Seq<Moment<E>>,
)
    requires
        is_course(target, table, moments),
    ensures
        in_order(table.rows, moments.last().world),
        ({
            let world = moments.last().world;
            let owed = reported(table.rows, world.listed);
            let count = if world.delivered.len() < owed.len() {
                world.delivered.len()
            } else {
                owed.len()
            };
            world.delivered.take(count as int) == owed.take(count as int)
        }),
{
    lemma_ledger(target, table, moments);
    let world = moments.last().world;
    let owed = reported(table.rows, world.listed);
    if exists|count: int| part_reported(table.rows, world, count) {
        let count = choose|count: int| part_reported(table.rows, world, count);
        lemma_reported_part(table.rows, world.listed, count);
        assert(world.delivered.take(world.delivered.len() as int) =~= world.delivered);
    } else {
        assert(world.delivered.take(owed.len() as int) =~= owed);
        assert(owed.take(owed.len() as int) =~= owed);
    }
}

/// Where each page is a transaction, the database holds the full effect of the completed pages and
/// nothing of the page in hand, at every moment. Once the listing is complete, it may also hold
/// the removal of some of the objects that the listing lacks.
pub proof fn law_page_by_page<E>(target: TargetView, table: Table, moments: Seq<Moment<E>>)
    requires
        is_course(target, table, moments),
        target.scope == TransactionScope::PerPage,
    ensures
        ({
            let step = moments.last().run.step;
            let world = moments.last().world;
            let completed_pages = world.listed.take(world.listed.len() - world.page_size);
            let all = absorbed(table.rows, world.listed);
            let kept = world.committed.rows;
            &&& step.in_page() && !(step is Listing) ==> kept == absorbed(
                table.rows,
                completed_pages,
            )
            &&& step is Listing || step is Beginning ==> kept == all
            &&& {
                ||| kept == absorbed(table.rows, completed_pages)
                ||| kept == all
                ||| exists|found: RowsView, count: int| #[trigger]
                    lists_unseen(all, keys(world.listed), found) && 0 <= count <= found.len() && kept
                        == #[trigger] without(all, found, count)
            }
        }),
{
    lemma_course(target, table, moments);
    lemma_ledger(target, table, moments);
    let world = moments.last().world;
    assert(world.listed.take(world.listed.len() as int) =~= world.listed);
}

/// A run in one transaction leaves the tables as they were at every moment, unless a commit of it
/// took place: whether it is cut off, ends with an error or has a commit fail without effect.
pub proof fn law_whole_run_or_nothing<E>(
    target: TargetView,
    table: Table,
    moments: Seq<Moment<E>>,
)
    requires
        is_course(target, table, moments),
        target.scope == TransactionScope::WholeRun,
        forall|i: int|
            0 <= i < moments.len() - 1 && #[trigger] moments[i].action is Commit ==> moments[i
                + 1].world.committed == moments[i].world.committed,
    ensures
        moments.last().world.committed == table,
    decreases moments.len(),
{
    if moments.len() > 1 {
        let before = moments.drop_last();
        assert forall|i: int|
            0 <= i < before.len() - 1 && #[trigger] before[i].action is Commit implies before[i
            + 1].world.committed == before[i].world.committed by {
            assert(moments[i] == before[i] && moments[i + 1] == before[i + 1]);
        }
        lemma_course(target, table, before);
        law_whole_run_or_nothing(target, table, before);
        let event = choose|event: EventView<E>|
            before.last().leads_to_by(event, moments.last());
        assert(moments[moments.len() - 2] == before.last());
        assert(moments[moments.len() - 2].action is Commit ==> moments.last().world.committed
            == before.last().world.committed);
        lemma_only_commits(table.rows, before.last(), event, moments.last());
    }
}

/// In a whole run only a commit changes what the database would keep.
proof fn lemma_only_commits<E>(
    rows: States,
    moment: Moment<E>,
    event: EventView<E>,
    next: Moment<E>,
)
    requires
        consistent(rows, moment),
        moment.run.target.scope == TransactionScope::WholeRun,
        moment.leads_to_by(event, next),
    ensures
        moment.action is Commit || next.world.committed == moment.world.committed,
{
}

/// A completed run leaves the tables without the column of marks, unless the column could not be
/// dropped, and with the time that was read at its end.
pub proof fn law_cleaned_up<E>(target: TargetView, table: Table, moments: Seq<Moment<E>>)
    requires
        is_course(target, table, moments),
        completed(moments.last()),
    ensures
        ({
            let world = moments.last().world;
            &&& !world.committed.column || world.undropped
            &&& world.clock is Some
            &&& world.committed.metadata == facts_at(table.metadata, world.clock->0)
        }),
{
    lemma_ledger(target, table, moments);
}

/// Where each page is a transaction, a run whose consumer went away still cleans up and records the
/// time that it read at its end.
pub proof fn law_abandoned_run_cleans_up<E>(
    target: TargetView,
    table: Table,
    moments: Seq<Moment<E>>,
)
    requires
        is_course(target, table, moments),
        target.scope == TransactionScope::PerPage,
        moments.last().action is Finish,
        moments.last().world.errors.len() == 0,
    ensures
        ({
            let world = moments.last().world;
            &&& !world.committed.column || world.undropped
            &&& world.clock is Some
            &&& world.committed.metadata == table.metadata.insert(
                "last_updated"@,
                signed_decimal(world.clock->0 as int),
            )
        }),
{
    lemma_course(target, table, moments);
    lemma_ledger(target, table, moments);
}

/// Where each page is a transaction, a run that ended with an error leaves the facts about runs as
/// they were: the time of the last run that came to its end stays.
pub proof fn law_failed_run_notes_nothing<E>(
    target: TargetView,
    table: Table,
    moments: Seq<Moment<E>>,
)
    requires
        is_course(target, table, moments),
        target.scope == TransactionScope::PerPage,
        moments.last().world.errors.len() > 0,
    ensures
        moments.last().world.committed.metadata == table.metadata,
{
    lemma_course(target, table, moments);
    lemma_ledger(target, table, moments);
}

/// Dropping the column of marks leaves no column, and every row as it is.
pub proof fn law_column_is_dropped<E>(moment: Moment<E>, next: Moment<E>)
    requires
        moment.action is DropSeenColumn,
        moment.leads_to_by(EventView::Done, next),
    ensures
        moment.action.statement() == Some(plain(DROP_SEEN_COLUMN@)),
        !next.world.working.column,
        !moment.world.open ==> next.world.committed == next.world.working,
        next.world.working.rows == moment.world.working.rows,
        next.world.working.metadata == moment.world.working.metadata,
        !next.world.undropped || moment.world.undropped,
{
}

/// Opening a database always succeeds and leaves every row in place: a table that exists is left
/// as it is, one that is missing comes into being empty, and opening again changes nothing.
pub proof fn law_opening_keeps_rows(database: Database)
    ensures
        schema() == preparations().map_values(|preparation: Preparation| preparation.statement()),
        database.opened() is Some,
        ({
            let opened = database.opened()->0;
            &&& opened.objects is Some && opened.metadata is Some && opened.indexed
            &&& database.objects is Some ==> opened.objects == database.objects
            &&& database.metadata is Some ==> opened.metadata == database.metadata
            &&& opened.contents() == database.contents()
            &&& opened.opened() == Some(opened)
        }),
{
    let all = preparations();
    assert(all.drop_first() =~= seq![Preparation::Metadata, Preparation::EtagIndex]);
    assert(all.drop_first().drop_first() =~= seq![Preparation::EtagIndex]);
    assert(all.drop_first().drop_first().drop_first() =~= seq![]);
    reveal_with_fuel(Database::prepared_all, 4);
    assert(schema() =~= all.map_values(|preparation: Preparation| preparation.statement()));
}

/// A difference is not lost when a run is cut off and the bucket changes. Let one run stop at any
/// moment, and let another complete over what the database kept. Each difference between the state
/// before both and the listing of the second is then about an object that one of the runs handed
/// over a change about. Where it was not the first, and no key is listed twice, the second run
/// hands over that very difference.
pub proof fn law_differences_are_not_lost<E>(
    first_target: TargetView,
    table: Table,
    first: Seq<Moment<E>>,
    second_target: TargetView,
    second: Seq<Moment<E>>,
    change: ChangeView,
)
    requires
        is_course(first_target, table, first),
        is_course(second_target, first.last().world.committed, second),
        completed(second.last()),
        is_difference(table.rows, second.last().world.listed, change),
    ensures
        mentions(first.last().world.delivered, change.key()) || mentions(
            second.last().world.delivered,
            change.key(),
        ),
        distinct_keys(second.last().world.listed) ==> mentions(
            first.last().world.delivered,
            change.key(),
        ) || second.last().world.delivered.contains(change),
{
    let world = first.last().world;
    let kept = world.committed.rows;
    let listed = second.last().world.listed;
    let key = change.key();
    if !mentions(world.delivered, key) {
        law_never_ahead(first_target, table, first);
        law_completed_run(second_target, world.committed, second);
        let taken = world.delivered.take(world.acknowledged as int);
        assert forall|i: int| 0 <= i < taken.len() implies (#[trigger] taken[i]).key() != key by {
            assert(world.delivered[i].key() != key);
        }
        lemma_replayed_elsewhere(table.rows, taken, key);
        assert(lookup(kept, key) == lookup(table.rows, key));
        let found = choose|found: RowsView| #[trigger]
            lists_unseen(kept, keys(listed), found) && second.last().world.delivered == reported(
                kept,
                listed,
            ) + deletions(found);
        lemma_mentions_concat(reported(kept, listed), deletions(found), key);
        if exists|i: int|
            0 <= i < listed.len() && judged(
                #[trigger] listed[i],
                lookup(table.rows, listed[i].key),
            ) == Some(change) {
            let i = choose|i: int|
                0 <= i < listed.len() && judged(
                    #[trigger] listed[i],
                    lookup(table.rows, listed[i].key),
                ) == Some(change);
            assert(judged(listed[i], lookup(kept, listed[i].key)) == Some(change));
            lemma_mentioned(kept, listed, i);
        } else {
            let gone = choose|key: Seq<char>| #[trigger]
                table.rows.contains_key(key) && !keys(listed).contains(key) && change
                    == ChangeView::Deleted(restored(key, table.rows[key]));
            assert(kept.contains_key(gone));
            let i = choose|i: int| 0 <= i < found.len() && found[i].0 == gone;
            assert(kept.contains_key(found[i].0));
            assert(deletions(found)[i].key() == key);
        }
        if distinct_keys(listed) {
            law_exact_differences(second_target, world.committed, second);
            assert(is_difference(kept, listed, change));
        }
    }
}

/// How a listing is cut into pages does not matter, nor how much of a run one transaction covers:
/// completed runs over the same recorded state and the same listing leave the same states, and
/// hand over the same changes about listed objects, in the same order.
pub proof fn law_pages_do_not_matter<E>(
    target: TargetView,
    table: Table,
    moments: Seq<Moment<E>>,
    other_target: TargetView,
    other: Seq<Moment<E>>,
)
    requires
        is_course(target, table, moments),
        completed(moments.last()),
        is_course(other_target, table, other),
        completed(other.last()),
        other.last().world.listed == moments.last().world.listed,
    ensures
        ({
            let world = moments.last().world;
            let other_world = other.last().world;
            let count = reported(table.rows, world.listed).len() as int;
            &&& other_world.committed.rows == world.committed.rows
            &&& count <= world.delivered.len()
            &&& count <= other_world.delivered.len()
            &&& other_world.delivered.take(count) == world.delivered.take(count)
            &&& forall|change: ChangeView|
                other_world.delivered.contains(change) <==> world.delivered.contains(change)
        }),
{
    lemma_course(target, table, moments);
    lemma_course(other_target, table, other);
    let world = moments.last().world;
    let other_world = other.last().world;
    let all = absorbed(table.rows, world.listed);
    let first = reported(table.rows, world.listed);
    let found = choose|found: RowsView| #[trigger]
        swept(table.rows, world, found, found.len() as int, found.len() as int);
    let other_found = choose|found: RowsView| #[trigger]
        swept(table.rows, other_world, found, found.len() as int, found.len() as int);
    assert(found.take(found.len() as int) =~= found);
    assert(other_found.take(other_found.len() as int) =~= other_found);
    lemma_same_without(all, keys(world.listed), found, other_found);
    assert(world.delivered.take(first.len() as int) =~= first);
    assert(other_world.delivered.take(first.len() as int) =~= first);
    lemma_same_changes(all, keys(world.listed), first, found, other_found);
    lemma_same_changes(all, keys(world.listed), first, other_found, found);
}

proof fn lemma_same_changes(
    rows: States,
    seen: Set<Seq<char>>,
    first: Seq<ChangeView>,
    found: RowsView,
    other: RowsView,
)
    requires
        lists_unseen(rows, seen, found),
        lists_unseen(rows, seen, other),
    ensures
        forall|change: ChangeView|
            (first + deletions(other)).contains(change) ==> #[trigger] (first + deletions(
                found,
            )).contains(change),
{
    let left = first + deletions(found);
    let right = first + deletions(other);
    assert forall|change: ChangeView| right.contains(change) implies #[trigger] left.contains(
        change,
    ) by {
        let at = choose|at: int| 0 <= at < right.len() && right[at] == change;
        if at < first.len() {
            assert(left[at] == change);
        } else {
            let j = at - first.len();
            assert(rows.contains_key(other[j].0));
            let i = choose|i: int| 0 <= i < found.len() && found[i].0 == other[j].0;
            assert(rows.contains_key(found[i].0));
            assert(left[first.len() + i] == change);
        }
    }
}

proof fn lemma_same_without(
    rows: States,
    seen: Set<Seq<char>>,
    found: RowsView,
    other: RowsView,
)
    requires
        lists_unseen(rows, seen, found),
        lists_unseen(rows, seen, other),
    ensures
        without(rows, found, found.len() as int) == without(rows, other, other.len() as int),
{
    let left = without(rows, found, found.len() as int);
    let right = without(rows, other, other.len() as int);
    assert forall|key: Seq<char>| left.dom().contains(key) <==> right.dom().contains(key) by {
        if rows.contains_key(key) {
            if exists|i: int| 0 <= i < found.len() && found[i].0 == key {
                let i = choose|i: int| 0 <= i < found.len() && found[i].0 == key;
                assert(rows.contains_key(found[i].0));
                assert(!seen.contains(key));
            }
            if exists|i: int| 0 <= i < other.len() && other[i].0 == key {
                let i = choose|i: int| 0 <= i < other.len() && other[i].0 == key;
                assert(rows.contains_key(other[i].0));
                assert(!seen.contains(key));
            }
        }
    }
    assert(left =~= right);
}

proof fn lemma_replayed_concat(rows: States, first: Seq<ChangeView>, rest: Seq<ChangeView>)
    ensures
        replayed(rows, first + rest) == replayed(replayed(rows, first), rest),
    decreases rest.len(),
{
    if rest.len() == 0 {
        assert(first + rest =~= first);
    } else {
        assert((first + rest).drop_last() =~= first + rest.drop_last());
        lemma_replayed_concat(rows, first, rest.drop_last());
    }
}

proof fn lemma_replayed_reported(rows: States, objects: Seq<ObjectView>)
    ensures
        replayed(rows, reported(rows, objects)) == absorbed(rows, objects),
    decreases objects.len(),
{
    if objects.len() > 0 {
        let before = objects.drop_last();
        let object = objects.last();
        lemma_replayed_reported(rows, before);
        if judged(object, lookup(absorbed(rows, before), object.key)) is Some {
            assert(reported(rows, objects).drop_last() =~= reported(rows, before));
        }
    }
}

proof fn lemma_replayed_deletions(rows: States, found: RowsView)
    ensures
        replayed(rows, deletions(found)) == without(rows, found, found.len() as int),
    decreases found.len(),
{
    if found.len() == 0 {
        assert(without(rows, found, 0) =~= rows);
    } else {
        let before = found.drop_last();
        let count = before.len() as int;
        lemma_replayed_deletions(rows, before);
        assert(deletions(found).drop_last() =~= deletions(before));
        assert forall|key: Seq<char>| first_keys(before, count).contains(key) <==> first_keys(
            found,
            count,
        ).contains(key) by {
            if first_keys(before, count).contains(key) {
                let i = choose|i: int| 0 <= i < count && i < before.len() && before[i].0 == key;
                assert(found[i].0 == key);
            }
            if first_keys(found, count).contains(key) {
                let i = choose|i: int| 0 <= i < count && i < found.len() && found[i].0 == key;
                assert(before[i].0 == key);
            }
        }
        assert(first_keys(before, count) =~= first_keys(found, count));
        crate::invariants::lemma_without_one_more(rows, found, count);
    }
}

/// A consumer that keeps its own copy of the recorded states and applies every change to it has,
/// after a completed run, what the database has.
pub proof fn law_changes_reproduce_states<E>(
    target: TargetView,
    table: Table,
    moments: Seq<Moment<E>>,
)
    requires
        is_course(target, table, moments),
        completed(moments.last()),
    ensures
        moments.last().world.committed.rows == replayed(
            table.rows,
            moments.last().world.delivered,
        ),
{
    lemma_course(target, table, moments);
    let world = moments.last().world;
    let found = choose|found: RowsView| #[trigger]
        swept(table.rows, world, found, found.len() as int, found.len() as int);
    assert(found.take(found.len() as int) =~= found);
    lemma_replayed_concat(table.rows, reported(table.rows, world.listed), deletions(found));
    lemma_replayed_reported(table.rows, world.listed);
    lemma_replayed_deletions(absorbed(table.rows, world.listed), found);
}

/// What is recorded for an object gives the object back, but for its fraction of a second.
pub proof fn law_stored_is_restored(object: ObjectView)
    requires
        object.last_modified.wf(),
    ensures
        restored(object.key, stored(object)) == (ObjectView {
            last_modified: object.last_modified.whole_second(),
            ..object
        }),
{
}

/// A recorded state whose time can be represented is recorded again unchanged.
pub proof fn law_restored_is_stored(key: Seq<char>, state: CompactView)
    requires
        crate::timestamp::representable(state.last_modified as int, 0),
    ensures
        stored(restored(key, state)) == state,
{
}

/// The first change about a key is the one between its recorded state and a listed object.
proof fn lemma_first_mention(rows: States, objects: Seq<ObjectView>, at: int) -> (place: int)
    requires
        0 <= at < reported(rows, objects).len(),
        !mentions(reported(rows, objects).take(at), reported(rows, objects)[at].key()),
    ensures
        0 <= place < objects.len(),
        objects[place].key == reported(rows, objects)[at].key(),
        judged(objects[place], lookup(rows, objects[place].key)) == Some(
            reported(rows, objects)[at],
        ),
    decreases objects.len(),
{
    let all = reported(rows, objects);
    let before = objects.drop_last();
    let earlier = reported(rows, before);
    if at < earlier.len() {
        assert(earlier[at] == all[at]);
        assert(earlier.take(at) =~= all.take(at));
        let place = lemma_first_mention(rows, before, at);
        assert(objects[place] == before[place]);
        place
    } else {
        assert(all.take(at) =~= earlier);
        lemma_not_mentioned(rows, before, objects.last().key);
        assert(objects[objects.len() - 1] == objects.last());
        objects.len() - 1
    }
}

/// What a change is about, once it took place, is a listed object.
proof fn lemma_reported_object(rows: States, objects: Seq<ObjectView>, at: int) -> (place: int)
    requires
        0 <= at < reported(rows, objects).len(),
    ensures
        0 <= place < objects.len(),
        ({
            let change = reported(rows, objects)[at];
            ||| change == ChangeView::Added(objects[place])
            ||| change is Modified && change->new == objects[place]
        }),
    decreases objects.len(),
{
    let before = objects.drop_last();
    let earlier = reported(rows, before);
    if at < earlier.len() {
        assert(earlier[at] == reported(rows, objects)[at]);
        let place = lemma_reported_object(rows, before, at);
        assert(objects[place] == before[place]);
        place
    } else {
        assert(objects[objects.len() - 1] == objects.last());
        objects.len() - 1
    }
}

/// The former side of a change is the object as it was last handed over. Take the last change about
/// a key in one completed run, and the first about it in the next. Where the one added or modified
/// an object, the other has that object as its old side or as deleted, but for the fraction of a
/// second. Where the one was a deletion, the other is an addition.
pub proof fn law_former_side<E>(
    first_target: TargetView,
    table: Table,
    first: Seq<Moment<E>>,
    second_target: TargetView,
    second: Seq<Moment<E>>,
    at: int,
    later: int,
)
    requires
        is_course(first_target, table, first),
        completed(first.last()),
        is_course(second_target, first.last().world.committed, second),
        completed(second.last()),
        0 <= at < first.last().world.delivered.len(),
        0 <= later < second.last().world.delivered.len(),
        ({
            let handed = first.last().world.delivered;
            let next = second.last().world.delivered;
            let key = handed[at].key();
            &&& next[later].key() == key
            &&& !mentions(handed.skip(at + 1), key)
            &&& !mentions(next.take(later), key)
        }),
    ensures
        ({
            let change = second.last().world.delivered[later];
            match first.last().world.delivered[at] {
                ChangeView::Added(object) => follows(object, change),
                ChangeView::Modified { old, new } => follows(new, change),
                ChangeView::Deleted(_) => change is Added,
            }
        }),
{
    let recorded = first.last().world.committed.rows;
    let handed = first.last().world.delivered;
    let next = second.last().world.delivered;
    let listed = second.last().world.listed;
    let change = next[later];
    let key = change.key();
    lemma_course(first_target, table, first);
    law_completed_run(first_target, table, first);
    law_changes_reproduce_states(first_target, table, first);
    law_completed_run(second_target, first.last().world.committed, second);
    lemma_last_change(table.rows, handed, at);
    if handed[at] !is Deleted {
        let one = reported(table.rows, first.last().world.listed);
        let gone = choose|gone: RowsView| #[trigger]
            lists_unseen(table.rows, keys(first.last().world.listed), gone) && handed == one
                + deletions(gone);
        if at >= one.len() {
            assert(handed[at] == deletions(gone)[at - one.len()]);
        }
        assert(one[at] == handed[at]);
        let place = lemma_reported_object(table.rows, first.last().world.listed, at);
        law_stored_is_restored(first.last().world.listed[place]);
    }
    let found = choose|found: RowsView| #[trigger]
        lists_unseen(recorded, keys(listed), found) && next == reported(recorded, listed)
            + deletions(found);
    lemma_first_change(recorded, listed, found, later);
}

/// The last change about a key leaves its state.
proof fn lemma_last_change(rows: States, changes: Seq<ChangeView>, at: int)
    requires
        0 <= at < changes.len(),
        !mentions(changes.skip(at + 1), changes[at].key()),
    ensures
        lookup(replayed(rows, changes), changes[at].key()) == match changes[at] {
            ChangeView::Added(object) => Some(stored(object)),
            ChangeView::Modified { old, new } => Some(stored(new)),
            ChangeView::Deleted(_) => None,
        },
{
    let key = changes[at].key();
    let upto = changes.take(at + 1);
    let rest = changes.skip(at + 1);
    assert(upto + rest =~= changes);
    lemma_replayed_concat(rows, upto, rest);
    assert forall|i: int| 0 <= i < rest.len() implies (#[trigger] rest[i]).key() != key by {
        if rest[i].key() == key {
            assert(mentions(rest, key));
        }
    }
    lemma_replayed_elsewhere(replayed(rows, upto), rest, key);
    assert(upto.last() == changes[at]);
}

/// The first change about a key has its recorded state for the former side.
proof fn lemma_first_change(rows: States, listed: Seq<ObjectView>, found: RowsView, at: int)
    requires
        lists_unseen(rows, keys(listed), found),
        0 <= at < (reported(rows, listed) + deletions(found)).len(),
        !mentions(
            (reported(rows, listed) + deletions(found)).take(at),
            (reported(rows, listed) + deletions(found))[at].key(),
        ),
    ensures
        ({
            let change = (reported(rows, listed) + deletions(found))[at];
            match lookup(rows, change.key()) {
                None => change is Added,
                Some(state) => match change {
                    ChangeView::Added(_) => false,
                    ChangeView::Modified { old, new } => old == restored(change.key(), state),
                    ChangeView::Deleted(object) => object == restored(change.key(), state),
                },
            }
        }),
{
    let compared = reported(rows, listed);
    let all = compared + deletions(found);
    if at < compared.len() {
        assert(compared[at] == all[at]);
        assert(compared.take(at) =~= all.take(at));
        lemma_first_mention(rows, listed, at);
    } else {
        let i = at - compared.len();
        assert(deletions(found)[i] == all[at]);
        assert(rows.contains_key(found[i].0));
    }
}

/// Whether a change is one of an object as it was before, but for the fraction of a second.
pub open spec fn follows(object: ObjectView, change: ChangeView) -> bool {
    let former = ObjectView { last_modified: object.last_modified.whole_second(), ..object };
    match change {
        ChangeView::Added(_) => false,
        ChangeView::Modified { old, new } => old == former,
        ChangeView::Deleted(deleted) => deleted == former,
    }
}

/// An action that fails where a failure matters is answered with the error itself. Where each page
/// is a transaction, an open one is dropped first, whether or not that can be done in order, and
/// so it is where a commit failed. Elsewhere in a whole run it is dropped right after.
pub proof fn law_failure_is_reported<E>(run: RunView<E>, error: E, other: E)
    requires
        run.step.fallible(),
    ensures
        ({
            let (next, action) = run.after(EventView::Failed(error));
            if run.drops_first() {
                &&& action is Rollback
                &&& next.after(EventView::Done).1 == (ActionView::SendError { error })
                &&& next.after(EventView::Failed(other)).1 == (ActionView::SendError { error })
            } else {
                &&& action == (ActionView::SendError { error })
                &&& run.in_transaction() ==> next.after(EventView::Done).1 is Rollback
            }
        }),
{
}

/// The column of marks may be there already, and may stay: a run goes on alike.
pub proof fn law_column_may_stay<E>(run: RunView<E>, error: E)
    requires
        run.step is AddingColumn || run.step is DroppingColumn,
    ensures
        run.after(EventView::Failed(error)) == run.after(EventView::Done),
{
}

/// A run stops at the first error: whatever the outcomes, nothing but the end of its transaction
/// and then its own end follows it, and nothing follows the end.
pub proof fn law_error_is_last<E>(
    run: RunView<E>,
    event: EventView<E>,
    later: EventView<E>,
    last: EventView<E>,
)
    ensures
        run.after(event).1 is SendError ==> {
            let (next, action) = run.after(event).0.after(later);
            action is Finish || (action is Rollback && next.after(last).1 is Finish)
        },
        run.step is Finished ==> run.after(event) == (run, ActionView::<E>::Finish),
{
}

/// In the course of a run at most one error is reported, and then there is nothing left to do but
/// to drop the transaction.
pub proof fn law_at_most_one_error<E>(target: TargetView, table: Table, moments: Seq<Moment<E>>)
    requires
        is_course(target, table, moments),
    ensures
        moments.last().world.errors.len() <= 1,
        moments.last().world.errors.len() == 1 ==> moments.last().action is Finish
            || moments.last().action is Rollback,
{
    lemma_course(target, table, moments);
}

/// The work of a run is bounded by what was listed and what was handed over: at most four actions
/// for each listed object, three for each page, two for each change, and a few for the rest. So a
/// run ends unless the listing does not.
pub proof fn law_bounded_work<E>(target: TargetView, table: Table, moments: Seq<Moment<E>>)
    requires
        is_course(target, table, moments),
    ensures
        ({
            let world = moments.last().world;
            moments.len() <= 4 * world.listed.len() + 3 * world.pages + 2 * world.delivered.len()
                + 14
        }),
{
    lemma_course(target, table, moments);
}

/// The time that is recorded at the end of a run is the one that was read.
pub proof fn law_clock_is_recorded<E>(run: RunView<E>, now: i64)
    requires
        run.step is ReadingClock,
    ensures
        run.after(EventView::Clock(now)).1 == (ActionView::<E>::RecordSync { now }),
        run.after(EventView::Clock(now)).1.statement() == Some(sync_record(now)),
{
}

/// A configuration is complete exactly where bucket, region and credentials are set and the batch
/// size is positive, and a complete one lists at least one object at a time.
pub proof fn law_complete_configuration(builder: BuilderView)
    ensures
        builder.built() is Ok <==> builder.bucket is Some && builder.region is Some
            && builder.credentials is Some && builder.page_size() >= 1,
        builder.built() is Ok ==> builder.built()->Ok_0.batch_size >= 1,
{
}

/// Buckets are addressed by path exactly where an endpoint is named, and the client goes to that
/// endpoint.
pub proof fn law_endpoint_means_path_style(builder: BuilderView)
    requires
        builder.built() is Ok,
    ensures
        builder.built()->Ok_0.settings.2 == builder.endpoint_url,
        builder.built()->Ok_0.settings.3 == Some(true) <==> builder.endpoint_url is Some,
        builder.built()->Ok_0.settings.3 is None <==> builder.endpoint_url is None,
{
}

/// A size that is recorded and read back without a sign stands for what was recorded, unless it
/// was negative.
pub proof fn law_unsigned_size(size: i64)
    requires
        size >= 0,
    ensures
        signed(size as u64) == size,
{
}

} // verus!
