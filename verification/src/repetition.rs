//! What a listing gives that is gone through again.
use crate::laws::lemma_absorbed_elsewhere;
use crate::model::{absorbed, keys, lookup, reported, States};
use crate::object::ObjectView;
use crate::s3::CompactView;
use vstd::prelude::*;

verus! {

/// Whether a state is one that no object of a listing differs from.
pub open spec fn steady(
    state: Option<CompactView>,
    objects: Seq<ObjectView>,
    key: Seq<char>,
) -> bool {
    &&& state is Some
    &&& forall|i: int|
        0 <= i < objects.len() && (#[trigger] objects[i]).key == key ==> objects[i].etag
            == state->0.etag
}

proof fn lemma_steady_before(state: Option<CompactView>, objects: Seq<ObjectView>, key: Seq<char>)
    requires
        steady(state, objects, key),
        objects.len() > 0,
    ensures
        steady(state, objects.drop_last(), key),
        objects.last().key == key ==> objects.last().etag == state->0.etag,
{
    let before = objects.drop_last();
    assert forall|i: int| 0 <= i < before.len() && (#[trigger] before[i]).key == key implies before[
    i].etag == state->0.etag by {
        assert(objects[i] == before[i]);
    }
    assert(objects[objects.len() - 1] == objects.last());
}

proof fn lemma_steady_after(state: Option<CompactView>, objects: Seq<ObjectView>, key: Seq<char>)
    requires
        objects.len() > 0,
        steady(state, objects.drop_last(), key),
        objects.last().key == key ==> objects.last().etag == state->0.etag,
    ensures
        steady(state, objects, key),
{
    let before = objects.drop_last();
    assert forall|i: int|
        0 <= i < objects.len() && (#[trigger] objects[i]).key == key implies objects[i].etag
        == state->0.etag by {
        if i < before.len() {
            assert(objects[i] == before[i]);
        }
    }
}

/// A steady state stays.
proof fn lemma_steady_stays(rows: States, objects: Seq<ObjectView>, key: Seq<char>)
    requires
        steady(lookup(rows, key), objects, key),
    ensures
        lookup(absorbed(rows, objects), key) == lookup(rows, key),
    decreases objects.len(),
{
    if objects.len() > 0 {
        lemma_steady_before(lookup(rows, key), objects, key);
        lemma_steady_stays(rows, objects.drop_last(), key);
    }
}

/// What becomes of the state under a key depends on that state and on the listing alone.
proof fn lemma_same_start(
    rows: States,
    others: States,
    objects: Seq<ObjectView>,
    key: Seq<char>,
)
    requires
        lookup(rows, key) == lookup(others, key),
    ensures
        lookup(absorbed(rows, objects), key) == lookup(absorbed(others, objects), key),
    decreases objects.len(),
{
    if objects.len() > 0 {
        lemma_same_start(rows, others, objects.drop_last(), key);
    }
}

/// A listed key is recorded under its tag.
proof fn lemma_tag(rows: States, state: Option<CompactView>, objects: Seq<ObjectView>, key: Seq<char>)
    requires
        steady(state, objects, key),
        keys(objects).contains(key),
    ensures
        lookup(absorbed(rows, objects), key) is Some,
        lookup(absorbed(rows, objects), key)->0.etag == state->0.etag,
    decreases objects.len(),
{
    let before = objects.drop_last();
    lemma_steady_before(state, objects, key);
    if objects.last().key != key {
        let i = choose|i: int| 0 <= i < objects.len() && objects[i].key == key;
        assert(before[i].key == key);
        lemma_tag(rows, state, before, key);
    }
}

/// Whether the state under a key is left as it was.
pub open spec fn left(rows: States, objects: Seq<ObjectView>, key: Seq<char>) -> bool {
    &&& lookup(absorbed(rows, objects), key) == lookup(rows, key)
    &&& steady(lookup(rows, key), objects, key)
}

/// A listing leads two states under a key to the same one, unless it leaves one of them.
proof fn lemma_converges(rows: States, others: States, objects: Seq<ObjectView>, key: Seq<char>)
    ensures
        ({
            ||| lookup(absorbed(rows, objects), key) == lookup(absorbed(others, objects), key)
            ||| left(rows, objects, key)
            ||| left(others, objects, key)
        }),
    decreases objects.len(),
{
    if objects.len() == 0 {
        if lookup(rows, key) is Some {
            assert(steady(lookup(rows, key), objects, key));
        }
    } else {
        let before = objects.drop_last();
        lemma_converges(rows, others, before, key);
        if lookup(absorbed(rows, before), key) != lookup(absorbed(others, before), key) {
            if left(rows, before, key) {
                lemma_converges_further(rows, others, objects, key);
            } else {
                lemma_converges_further(others, rows, objects, key);
            }
        }
    }
}

proof fn lemma_converges_further(
    rows: States,
    others: States,
    objects: Seq<ObjectView>,
    key: Seq<char>,
)
    requires
        objects.len() > 0,
        left(rows, objects.drop_last(), key),
    ensures
        ({
            ||| lookup(absorbed(rows, objects), key) == lookup(absorbed(others, objects), key)
            ||| left(rows, objects, key)
            ||| left(others, objects, key)
        }),
{
    let before = objects.drop_last();
    let object = objects.last();
    let state = lookup(rows, key);
    if object.key != key || object.etag == state->0.etag {
        lemma_steady_after(state, objects, key);
    } else if keys(before).contains(key) {
        lemma_tag(others, state, before, key);
    } else {
        lemma_absorbed_elsewhere(others, before, key);
        let other = lookup(others, key);
        if other is Some && other->0.etag == object.etag {
            assert(steady(other, before, key)) by {
                assert forall|i: int|
                    0 <= i < before.len() && (#[trigger] before[i]).key == key implies false by {
                    assert(keys(before).contains(key));
                }
            }
            lemma_steady_after(other, objects, key);
        }
    }
}

proof fn lemma_absorbed_concat(rows: States, first: Seq<ObjectView>, rest: Seq<ObjectView>)
    ensures
        absorbed(rows, first + rest) == absorbed(absorbed(rows, first), rest),
    decreases rest.len(),
{
    if rest.len() == 0 {
        assert(first + rest =~= first);
    } else {
        assert((first + rest).drop_last() =~= first + rest.drop_last());
        lemma_absorbed_concat(rows, first, rest.drop_last());
    }
}

/// Objects that were dealt with may be gone through again, together with those that come after
/// them: the recorded states come out the same.
proof fn lemma_absorbed_again(rows: States, objects: Seq<ObjectView>, count: int)
    requires
        0 <= count <= objects.len(),
    ensures
        absorbed(absorbed(rows, objects.take(count)), objects) == absorbed(rows, objects),
{
    let part = objects.take(count);
    let rest = objects.skip(count);
    let kept = absorbed(rows, part);
    let left_side = absorbed(kept, objects);
    let right_side = absorbed(rows, objects);
    assert(part + rest =~= objects);
    lemma_absorbed_concat(rows, part, rest);
    assert forall|key: Seq<char>| lookup(left_side, key) == #[trigger] lookup(right_side, key) by {
        lemma_converges(rows, kept, objects, key);
        if left(rows, objects, key) {
            assert(steady(lookup(rows, key), part, key)) by {
                assert forall|i: int|
                    0 <= i < part.len() && (#[trigger] part[i]).key == key implies part[i].etag
                    == lookup(rows, key)->0.etag by {
                    assert(objects[i] == part[i]);
                }
            }
            lemma_steady_stays(rows, part, key);
            lemma_same_start(rows, kept, objects, key);
        } else if left(kept, objects, key) {
            assert(steady(lookup(kept, key), rest, key)) by {
                assert forall|i: int|
                    0 <= i < rest.len() && (#[trigger] rest[i]).key == key implies rest[i].etag
                    == lookup(kept, key)->0.etag by {
                    assert(objects[count + i] == rest[i]);
                }
            }
            lemma_steady_stays(kept, rest, key);
        }
    }
    assert forall|key: Seq<char>| left_side.dom().contains(key) <==> right_side.dom().contains(
        key,
    ) by {
        assert(lookup(left_side, key) == lookup(right_side, key));
    }
    assert forall|key: Seq<char>| left_side.dom().contains(key) implies left_side[key]
        == right_side[key] by {
        assert(lookup(left_side, key) == lookup(right_side, key));
    }
    assert(left_side =~= right_side);
}

/// What comes after the objects that were dealt with stands for the same changes when all of them
/// are gone through again.
pub proof fn lemma_reported_again(rows: States, objects: Seq<ObjectView>, count: int, at: int)
    requires
        0 <= count <= objects.len(),
        reported(rows, objects.take(count)).len() <= at < reported(rows, objects).len(),
    ensures
        reported(absorbed(rows, objects.take(count)), objects).contains(
            reported(rows, objects)[at],
        ),
    decreases objects.len(),
{
    let kept = absorbed(rows, objects.take(count));
    let change = reported(rows, objects)[at];
    if count == objects.len() {
        assert(objects.take(count) =~= objects);
    } else {
        let before = objects.drop_last();
        assert(before.take(count) =~= objects.take(count));
        lemma_absorbed_again(rows, before, count);
        let again = reported(kept, before);
        let all = reported(kept, objects);
        if at < reported(rows, before).len() {
            assert(reported(rows, before)[at] == change);
            lemma_reported_again(rows, before, count, at);
            let i = choose|i: int| 0 <= i < again.len() && again[i] == change;
            assert(all[i] == change);
        } else {
            assert(all[all.len() - 1] == change);
        }
    }
}

} // verus!
