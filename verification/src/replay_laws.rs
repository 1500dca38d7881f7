//! What holds of sorting an operation log by timestamp, of replaying it,
//! and of merging two logs.

use crate::operational::{
    all_operations, diff_operations, merged_operations, op_timestamp, replay_log, sort_from,
    sorted_by_time, time_insert, time_position,
};
use crate::value::Json;
use vstd::prelude::*;

verus! {

/// Whether the timestamps of the operations never descend.
pub open spec fn time_sorted(s: Seq<Json>) -> bool {
    forall|i: int, j: int|
        0 <= i <= j < s.len() ==> op_timestamp(#[trigger] s[i]) <= op_timestamp(#[trigger] s[j])
}

pub proof fn lemma_time_position(s: Seq<Json>, t: u64, from: int)
    requires
        0 <= from <= s.len(),
    ensures
        from <= time_position(s, t, from) <= s.len(),
        forall|j: int|
            from <= j < time_position(s, t, from) ==> op_timestamp(#[trigger] s[j]) <= t,
        time_position(s, t, from) < s.len() ==> op_timestamp(s[time_position(s, t, from)]) > t,
    decreases s.len() - from,
{
    if from < s.len() && op_timestamp(s[from]) <= t {
        lemma_time_position(s, t, from + 1);
    }
}

/// The position at which an operation is put is the one position before
/// which no timestamp is later and at which a later one stands.
pub proof fn lemma_time_position_unique(s: Seq<Json>, t: u64, q: int)
    requires
        0 <= q <= s.len(),
        forall|j: int| 0 <= j < q ==> op_timestamp(#[trigger] s[j]) <= t,
        q < s.len() ==> op_timestamp(s[q]) > t,
    ensures
        time_position(s, t, 0) == q,
{
    lemma_time_position(s, t, 0);
    let pos = time_position(s, t, 0);
    if pos < q {
        assert(op_timestamp(s[pos]) <= t);
    } else if pos > q {
        assert(op_timestamp(s[q]) <= t);
    }
}

/// Putting an operation into a list in ascending order keeps that order.
pub proof fn lemma_time_insert_sorted(s: Seq<Json>, op: Json)
    requires
        time_sorted(s),
    ensures
        time_sorted(time_insert(s, op)),
{
    let t = op_timestamp(op);
    lemma_time_position(s, t, 0);
    let p = time_position(s, t, 0);
    let r = time_insert(s, op);
    assert forall|i: int, j: int| 0 <= i <= j < r.len() implies op_timestamp(#[trigger] r[i])
        <= op_timestamp(#[trigger] r[j]) by {
        if i < p {
            assert(r[i] == s[i]);
        } else if i > p {
            assert(r[i] == s[i - 1]);
        }
        if j < p {
            assert(r[j] == s[j]);
        } else if j > p {
            assert(r[j] == s[j - 1]);
            if p < s.len() {
                assert(op_timestamp(s[p]) <= op_timestamp(s[j - 1]));
            }
        }
    }
}

/// Sorting gives a list in ascending order of the timestamps.
pub proof fn lemma_sort_from_sorted(ops: Seq<Json>, i: int, acc: Seq<Json>)
    requires
        0 <= i,
        time_sorted(acc),
    ensures
        time_sorted(sort_from(ops, i, acc)),
    decreases ops.len() - i,
{
    if i < ops.len() {
        lemma_time_insert_sorted(acc, ops[i]);
        lemma_sort_from_sorted(ops, i + 1, time_insert(acc, ops[i]));
    }
}

/// Sorting a list that is in ascending order, from its first `i`
/// operations on, gives the list.
pub proof fn lemma_sort_from_of_sorted(s: Seq<Json>, i: int)
    requires
        0 <= i <= s.len(),
        time_sorted(s),
    ensures
        sort_from(s, i, s.take(i)) == s,
    decreases s.len() - i,
{
    if i < s.len() {
        let acc = s.take(i);
        assert forall|j: int| 0 <= j < acc.len() implies op_timestamp(#[trigger] acc[j])
            <= op_timestamp(s[i]) by {
            assert(acc[j] == s[j]);
        }
        lemma_time_position_unique(acc, op_timestamp(s[i]), i);
        assert(time_insert(acc, s[i]) =~= s.take(i + 1));
        lemma_sort_from_of_sorted(s, i + 1);
    } else {
        assert(s.take(i) =~= s);
    }
}

/// Sorting a sorted log changes nothing: a log and its sorted form replay
/// to the same document, from any document.
pub proof fn lemma_replay_of_sorted_log(doc: Json, ops: Seq<Json>)
    ensures
        sorted_by_time(sorted_by_time(ops)) == sorted_by_time(ops),
        replay_log(doc, sorted_by_time(ops)) == replay_log(doc, ops),
{
    let s = sorted_by_time(ops);
    assert(time_sorted(Seq::<Json>::empty()));
    lemma_sort_from_sorted(ops, 0, Seq::empty());
    lemma_sort_from_of_sorted(s, 0);
    assert(s.take(0) =~= Seq::<Json>::empty());
}

/// Two operations can be put into a list in either order, where the
/// timestamp of the first is the earlier.
pub proof fn lemma_time_insert_commute_lt(s: Seq<Json>, x: Json, y: Json)
    requires
        op_timestamp(x) < op_timestamp(y),
    ensures
        time_insert(time_insert(s, x), y) == time_insert(time_insert(s, y), x),
{
    let k1 = op_timestamp(x);
    let k2 = op_timestamp(y);
    lemma_time_position(s, k1, 0);
    lemma_time_position(s, k2, 0);
    let first = time_position(s, k1, 0);
    let second = time_position(s, k2, 0);
    if second < first {
        assert(op_timestamp(s[second]) <= k1);
    }
    let s1 = s.insert(first, x);
    let s2 = s.insert(second, y);
    assert forall|j: int| 0 <= j < second + 1 implies op_timestamp(#[trigger] s1[j]) <= k2 by {
        if j < first {
            assert(s1[j] == s[j]);
        } else if j > first {
            assert(s1[j] == s[j - 1]);
        }
    }
    if second + 1 < s1.len() {
        assert(s1[second + 1] == s[second]);
    }
    lemma_time_position_unique(s1, k2, second + 1);
    assert forall|j: int| 0 <= j < first implies op_timestamp(#[trigger] s2[j]) <= k1 by {
        assert(s2[j] == s[j]);
    }
    if first < s2.len() {
        if first < second {
            assert(s2[first] == s[first]);
        } else {
            assert(s2[first] == y);
        }
    }
    lemma_time_position_unique(s2, k1, first);
    assert(s1.insert(second + 1, y) =~= s2.insert(first, x));
}

/// Two operations with different timestamps can be put into a list in
/// either order.
pub proof fn lemma_time_insert_commute(s: Seq<Json>, x: Json, y: Json)
    requires
        op_timestamp(x) != op_timestamp(y),
    ensures
        time_insert(time_insert(s, x), y) == time_insert(time_insert(s, y), x),
{
    if op_timestamp(x) < op_timestamp(y) {
        lemma_time_insert_commute_lt(s, x, y);
    } else {
        lemma_time_insert_commute_lt(s, y, x);
    }
}

/// An operation whose timestamp none of the operations from `i` on has can
/// be put in before them or after them.
pub proof fn lemma_sort_from_commute(ops: Seq<Json>, i: int, acc: Seq<Json>, x: Json)
    requires
        0 <= i,
        forall|j: int| i <= j < ops.len() ==> op_timestamp(#[trigger] ops[j]) != op_timestamp(x),
    ensures
        sort_from(ops, i, time_insert(acc, x)) == time_insert(sort_from(ops, i, acc), x),
    decreases ops.len() - i,
{
    if i < ops.len() {
        lemma_time_insert_commute(acc, x, ops[i]);
        lemma_sort_from_commute(ops, i + 1, time_insert(acc, ops[i]), x);
    }
}

/// Two logs that share no timestamp can be put into a list in either
/// order.
pub proof fn lemma_sort_from_swap(a: Seq<Json>, i: int, b: Seq<Json>, acc: Seq<Json>)
    requires
        0 <= i,
        forall|x: int, y: int|
            0 <= x < a.len() && 0 <= y < b.len() ==> op_timestamp(#[trigger] a[x]) != op_timestamp(
                #[trigger] b[y],
            ),
    ensures
        sort_from(b, 0, sort_from(a, i, acc)) == sort_from(a, i, sort_from(b, 0, acc)),
    decreases a.len() - i,
{
    if i < a.len() {
        lemma_sort_from_swap(a, i + 1, b, time_insert(acc, a[i]));
        lemma_sort_from_commute(b, 0, acc, a[i]);
    }
}

/// Sorting one log after another is sorting the second into the sorted
/// first.
pub proof fn lemma_sort_from_concat(a: Seq<Json>, b: Seq<Json>, i: int, acc: Seq<Json>)
    requires
        0 <= i <= a.len(),
    ensures
        sort_from(a + b, i, acc) == sort_from(b, 0, sort_from(a, i, acc)),
    decreases a.len() - i,
{
    if i < a.len() {
        assert((a + b)[i] == a[i]);
        lemma_sort_from_concat(a, b, i + 1, time_insert(acc, a[i]));
    } else {
        lemma_sort_from_tail(a, b, 0, acc);
    }
}

/// From the end of the first log on, sorting the two logs together is
/// sorting the second.
pub proof fn lemma_sort_from_tail(a: Seq<Json>, b: Seq<Json>, k: int, acc: Seq<Json>)
    requires
        0 <= k <= b.len(),
    ensures
        sort_from(a + b, a.len() + k, acc) == sort_from(b, k, acc),
    decreases b.len() - k,
{
    if k < b.len() {
        assert((a + b)[a.len() + k] == b[k]);
        lemma_sort_from_tail(a, b, k + 1, time_insert(acc, b[k]));
    }
}

/// Two logs that share no timestamp sort to the same list whichever comes
/// first.
pub proof fn lemma_sorted_union(a: Seq<Json>, b: Seq<Json>)
    requires
        forall|x: int, y: int|
            0 <= x < a.len() && 0 <= y < b.len() ==> op_timestamp(#[trigger] a[x]) != op_timestamp(
                #[trigger] b[y],
            ),
    ensures
        sorted_by_time(a + b) == sorted_by_time(b + a),
{
    let none = Seq::<Json>::empty();
    lemma_sort_from_concat(a, b, 0, none);
    lemma_sort_from_concat(b, a, 0, none);
    lemma_sort_from_swap(a, 0, b, none);
}

/// The operations of two logs, one after the other, are those of a list of
/// the two.
pub proof fn lemma_all_operations_of_two(first: Json, second: Json)
    ensures
        all_operations(seq![first, second], 0) == diff_operations(first) + diff_operations(second),
{
    let diffs = seq![first, second];
    assert(all_operations(diffs, 2) == Seq::<Json>::empty());
    assert(all_operations(diffs, 1) == diff_operations(second) + Seq::<Json>::empty());
    assert(diff_operations(second) + Seq::<Json>::empty() =~= diff_operations(second));
}

/// Merging converges: for two logs that share no timestamp, replaying
/// their merge gives the same document whichever log is merged first, and
/// the same as replaying the operations of both in either order.
pub proof fn lemma_merge_converges(doc: Json, first: Json, second: Json)
    requires
        forall|x: int, y: int|
            0 <= x < diff_operations(first).len() && 0 <= y < diff_operations(second).len()
                ==> op_timestamp(#[trigger] diff_operations(first)[x]) != op_timestamp(
                #[trigger] diff_operations(second)[y],
            ),
    ensures
        merged_operations(seq![first, second]) == merged_operations(seq![second, first]),
        replay_log(doc, merged_operations(seq![first, second])) == replay_log(
            doc,
            merged_operations(seq![second, first]),
        ),
        replay_log(doc, merged_operations(seq![first, second])) == replay_log(
            doc,
            diff_operations(first) + diff_operations(second),
        ),
        replay_log(doc, merged_operations(seq![first, second])) == replay_log(
            doc,
            diff_operations(second) + diff_operations(first),
        ),
{
    let a = diff_operations(first);
    let b = diff_operations(second);
    lemma_all_operations_of_two(first, second);
    lemma_all_operations_of_two(second, first);
    lemma_sorted_union(a, b);
    lemma_replay_of_sorted_log(doc, a + b);
    lemma_replay_of_sorted_log(doc, b + a);
}

/// A list with one more operation sorted in holds that operation and
/// those it held, each as often as before.
pub proof fn lemma_time_insert_holds(s: Seq<Json>, op: Json)
    ensures
        time_insert(s, op).to_multiset() == s.to_multiset().insert(op),
{
    broadcast use vstd::seq_lib::group_to_multiset_ensures;

    lemma_time_position(s, op_timestamp(op), 0);
    let p = time_position(s, op_timestamp(op), 0);
    let r = time_insert(s, op);
    assert(r[p] == op);
    assert(r.remove(p) =~= s);
    assert(r.remove(p).to_multiset() == r.to_multiset().remove(op));
    assert(r.contains(op));
    assert(r.to_multiset().count(op) > 0);
    assert(r.to_multiset() =~= s.to_multiset().insert(op));
}

/// Sorting operations into a list gives a list that holds them and what
/// the list held, each as often as before.
pub proof fn lemma_sort_from_holds(ops: Seq<Json>, i: int, acc: Seq<Json>)
    requires
        0 <= i <= ops.len(),
    ensures
        sort_from(ops, i, acc).to_multiset() == acc.to_multiset().add(ops.skip(i).to_multiset()),
    decreases ops.len() - i,
{
    broadcast use vstd::seq_lib::group_to_multiset_ensures;

    let rest = ops.skip(i);
    if i < ops.len() {
        lemma_time_insert_holds(acc, ops[i]);
        lemma_sort_from_holds(ops, i + 1, time_insert(acc, ops[i]));
        assert(rest[0] == ops[i]);
        assert(rest.remove(0) =~= ops.skip(i + 1));
        assert(rest.remove(0).to_multiset() == rest.to_multiset().remove(ops[i]));
        assert(rest.contains(ops[i]));
        assert(rest.to_multiset().count(ops[i]) > 0);
        assert(sort_from(ops, i, acc).to_multiset() =~= acc.to_multiset().add(rest.to_multiset()));
    } else {
        assert(rest =~= Seq::<Json>::empty());
        assert(rest.to_multiset().len() == 0);
        assert(sort_from(ops, i, acc).to_multiset() =~= acc.to_multiset().add(rest.to_multiset()));
    }
}

/// The operations of a log, sorted by time, are in ascending order of
/// their timestamps, and they are the operations of the log, each as
/// often as the log has it.
pub proof fn lemma_sorted_log_is_the_log_in_order(ops: Seq<Json>)
    ensures
        time_sorted(sorted_by_time(ops)),
        sorted_by_time(ops).to_multiset() == ops.to_multiset(),
        sorted_by_time(ops).len() == ops.len(),
{
    broadcast use vstd::seq_lib::group_to_multiset_ensures;

    let none = Seq::<Json>::empty();
    assert(time_sorted(none));
    lemma_sort_from_sorted(ops, 0, none);
    lemma_sort_from_holds(ops, 0, none);
    assert(ops.skip(0) =~= ops);
    assert(none.to_multiset().len() == 0);
    assert(sorted_by_time(ops).to_multiset() =~= ops.to_multiset());
    assert(sorted_by_time(ops).len() == sorted_by_time(ops).to_multiset().len());
    assert(ops.len() == ops.to_multiset().len());
}

} // verus!
