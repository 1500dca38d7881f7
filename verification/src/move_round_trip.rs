//! What applying the delta of two arrays that were searched for moves
//! gives.

use crate::array_round_trip::{
    independent, is_nested_delta, lemma_apply_changes_push, lemma_collect_edits_insert,
    lemma_edit_index_of_index_key, lemma_edit_index_of_insertion_key, lemma_key_position_unique,
    lemma_names_place, names_place,
};
use crate::delta::{
    addition, change, deletion, index_key, insertion_key, move_marker, uint_json,
};
use crate::diff::{
    array_delta_moves, delta, first_free_match, longer, move_step, moves_phase, no_moves,
    rest_phase, MovePlan,
};
use crate::options::DiffOptions;
use crate::patch::{
    add_edit, apply_changes, apply_deletes, apply_inserts, classify_edit, collect_edits,
    edited_array, insert_by_key, is_deletion, is_move, key_position, lemma_key_position,
    no_edits, patched, ArrayEdit, ArrayEdits,
};
use crate::value::{
    insert_entry, insert_position_from, key_index, lemma_insert_position_from,
    lemma_key_index_from, Entries, Json,
};
use vstd::prelude::*;

verus! {

/// Whether the places of a list of edits ascend, so that no place occurs
/// twice.
pub open spec fn ascending<T>(s: Seq<(usize, T)>) -> bool {
    forall|x: int, y: int| 0 <= x < y < s.len() ==> (#[trigger] s[x]).0 < (#[trigger] s[y]).0
}

/// Whether a list of edits speaks of a place.
pub open spec fn has_place<T>(s: Seq<(usize, T)>, k: int) -> bool {
    exists|x: int| 0 <= x < s.len() && (#[trigger] s[x]).0 == k
}

/// Putting an edit of a new place into an ascending list keeps the list
/// ascending; the list then speaks of that place and of those it spoke of,
/// and holds that edit and those it held.
pub proof fn lemma_insert_by_key_ascending<T>(s: Seq<(usize, T)>, k: usize, v: T)
    requires
        ascending(s),
        !has_place(s, k as int),
    ensures
        ascending(insert_by_key(s, k, v)),
        forall|p: int| has_place(insert_by_key(s, k, v), p) <==> has_place(s, p) || p == k,
        forall|x: int|
            0 <= x < insert_by_key(s, k, v).len() ==> (#[trigger] insert_by_key(s, k, v)[x]) == (k, v)
                || s.contains(insert_by_key(s, k, v)[x]),
        insert_by_key(s, k, v).contains((k, v)),
        forall|e: (usize, T)| s.contains(e) ==> insert_by_key(s, k, v).contains(e),
{
    lemma_key_position(s, k, 0);
    let at = key_position(s, k, 0);
    let t = insert_by_key(s, k, v);
    assert(t == s.insert(at, (k, v)));
    assert forall|x: int, y: int| 0 <= x < y < t.len() implies (#[trigger] t[x]).0 < (
    #[trigger] t[y]).0 by {
        let sx = if x < at { x } else { x - 1 };
        let sy = if y < at { y } else { y - 1 };
        if x != at {
            assert(t[x] == s[sx]);
        }
        if y != at {
            assert(t[y] == s[sy]);
        }
        if x == at {
            assert(s[sy].0 > k);
        } else if y == at {
            assert(s[sx].0 <= k);
            assert(s[sx].0 != k);
        }
    }
    assert(t[at] == (k, v));
    assert forall|p: int| has_place(t, p) <==> has_place(s, p) || p == k by {
        if has_place(t, p) {
            let x = choose|x: int| 0 <= x < t.len() && (#[trigger] t[x]).0 == p;
            if x < at {
                assert(t[x] == s[x]);
            } else if x > at {
                assert(t[x] == s[x - 1]);
            }
        }
        if has_place(s, p) {
            let x = choose|x: int| 0 <= x < s.len() && (#[trigger] s[x]).0 == p;
            if x < at {
                assert(t[x] == s[x]);
            } else {
                assert(t[x + 1] == s[x]);
            }
        }
    }
    assert forall|x: int| 0 <= x < t.len() implies (#[trigger] t[x]) == (k, v) || s.contains(
        t[x],
    ) by {
        if x < at {
            assert(t[x] == s[x]);
        } else if x > at {
            assert(t[x] == s[x - 1]);
        }
    }
    assert forall|e: (usize, T)| s.contains(e) implies t.contains(e) by {
        let x = choose|x: int| 0 <= x < s.len() && s[x] == e;
        if x < at {
            assert(t[x] == s[x]);
        } else {
            assert(t[x + 1] == s[x]);
        }
    }
}

/// The items from place `from` on that a list of deletions leaves.
pub open spec fn left(c: Seq<Json>, deletes: Seq<(usize, ())>, from: int) -> Seq<Json>
    decreases c.len() - from,
{
    if from < 0 || from >= c.len() {
        Seq::empty()
    } else if has_place(deletes, from) {
        left(c, deletes, from + 1)
    } else {
        seq![c[from]] + left(c, deletes, from + 1)
    }
}

/// Nothing is left from a place on from which every place is deleted.
pub proof fn lemma_left_empty(c: Seq<Json>, deletes: Seq<(usize, ())>, from: int)
    requires
        0 <= from,
        forall|i: int| from <= i < c.len() ==> has_place(deletes, i),
    ensures
        left(c, deletes, from) == Seq::<Json>::empty(),
    decreases c.len() - from,
{
    if from < c.len() {
        lemma_left_empty(c, deletes, from + 1);
    }
}

/// Taking the places of an ascending list of deletions out of an array,
/// from the highest down, leaves the items at the other places in order.
pub proof fn lemma_apply_deletes_left(c: Seq<Json>, deletes: Seq<(usize, ())>, q: int, t: int)
    requires
        ascending(deletes),
        forall|x: int| 0 <= x < deletes.len() ==> (#[trigger] deletes[x]).0 < c.len(),
        0 <= q <= c.len(),
        0 <= t <= deletes.len(),
        forall|x: int| 0 <= x < t ==> (#[trigger] deletes[x]).0 < q,
        forall|x: int| t <= x < deletes.len() ==> (#[trigger] deletes[x]).0 >= q,
    ensures
        apply_deletes(c.take(q) + left(c, deletes, q), deletes, t) == left(c, deletes, 0),
    decreases q,
{
    let state = c.take(q) + left(c, deletes, q);
    if q == 0 {
        if t > 0 {
            assert(deletes[0].0 < 0);
        }
        assert(state =~= left(c, deletes, 0));
    } else {
        let p = q - 1;
        if has_place(deletes, p) {
            let x = choose|x: int| 0 <= x < deletes.len() && (#[trigger] deletes[x]).0 == p;
            if x >= t {
                assert(deletes[x].0 >= q);
            }
            if x < t - 1 {
                assert(deletes[x].0 < deletes[t - 1].0);
                assert(deletes[t - 1].0 < q);
            }
            assert(x == t - 1);
            assert(state.remove(p) =~= c.take(p) + left(c, deletes, q));
            assert(left(c, deletes, p) == left(c, deletes, q));
            assert forall|y: int| 0 <= y < t - 1 implies (#[trigger] deletes[y]).0 < p by {
                assert(deletes[y].0 < deletes[t - 1].0);
            }
            assert forall|y: int| t - 1 <= y < deletes.len() implies (#[trigger] deletes[y]).0
                >= p by {
                if y >= t {
                    assert(deletes[y].0 >= q);
                }
            }
            lemma_apply_deletes_left(c, deletes, p, t - 1);
        } else {
            assert(left(c, deletes, p) == seq![c[p]] + left(c, deletes, q));
            assert(state =~= c.take(p) + left(c, deletes, p));
            assert forall|y: int| 0 <= y < t implies (#[trigger] deletes[y]).0 < p by {
                assert(deletes[y].0 < q);
                if deletes[y].0 == p {
                    assert(has_place(deletes, p));
                }
            }
            assert forall|y: int| t <= y < deletes.len() implies (#[trigger] deletes[y]).0
                >= p by {
                assert(deletes[y].0 >= q);
            }
            lemma_apply_deletes_left(c, deletes, p, t);
        }
    }
}

/// Whether the deletions and the insertions lead from the array `c` to
/// the array `b`: both lists ascend; an item that is not deleted stands at
/// its place in `b`; every insertion puts the item of `b` at its place
/// there, at a place beyond `c` or one that is deleted; and every such
/// place of `b` has its insertion.
pub open spec fn edits_lead_to(
    c: Seq<Json>,
    b: Seq<Json>,
    deletes: Seq<(usize, ())>,
    inserts: Seq<(usize, Json)>,
) -> bool {
    &&& ascending(deletes)
    &&& ascending(inserts)
    &&& forall|x: int| 0 <= x < deletes.len() ==> (#[trigger] deletes[x]).0 < c.len()
    &&& forall|i: int|
        0 <= i < c.len() && !has_place(deletes, i) ==> i < b.len() && #[trigger] c[i] == b[i]
    &&& forall|x: int|
        0 <= x < inserts.len() ==> {
            &&& (#[trigger] inserts[x]).0 < b.len()
            &&& inserts[x].1 == b[inserts[x].0 as int]
            &&& (inserts[x].0 >= c.len() || has_place(deletes, inserts[x].0 as int))
        }
    &&& forall|j: int|
        0 <= j < b.len() && (j >= c.len() || has_place(deletes, j)) ==> #[trigger] has_place(
            inserts,
            j,
        )
}

/// Putting the insertions in, in ascending order, fills what the deletions
/// left up to the new array.
pub proof fn lemma_apply_inserts_left(
    c: Seq<Json>,
    b: Seq<Json>,
    deletes: Seq<(usize, ())>,
    inserts: Seq<(usize, Json)>,
    p: int,
    r: int,
)
    requires
        edits_lead_to(c, b, deletes, inserts),
        0 <= p <= b.len(),
        0 <= r <= inserts.len(),
        forall|x: int| 0 <= x < r ==> (#[trigger] inserts[x]).0 < p,
        forall|x: int| r <= x < inserts.len() ==> (#[trigger] inserts[x]).0 >= p,
    ensures
        apply_inserts(b.take(p) + left(c, deletes, p), inserts, r) == b,
    decreases b.len() - p,
{
    let state = b.take(p) + left(c, deletes, p);
    if p == b.len() {
        assert forall|i: int| p <= i < c.len() implies has_place(deletes, i) by {
            if !has_place(deletes, i) {
                assert(c[i] == b[i]);
            }
        }
        lemma_left_empty(c, deletes, p);
        if r < inserts.len() {
            assert(inserts[r].0 >= p);
        }
        assert(state =~= b);
    } else if p < c.len() && !has_place(deletes, p) {
        assert(c[p] == b[p]);
        assert(left(c, deletes, p) == seq![c[p]] + left(c, deletes, p + 1));
        assert(state =~= b.take(p + 1) + left(c, deletes, p + 1));
        assert forall|x: int| r <= x < inserts.len() implies (#[trigger] inserts[x]).0 >= p
            + 1 by {
            assert(inserts[x].0 >= p);
        }
        assert forall|x: int| 0 <= x < r implies (#[trigger] inserts[x]).0 < p + 1 by {
            assert(inserts[x].0 < p);
        }
        lemma_apply_inserts_left(c, b, deletes, inserts, p + 1, r);
    } else {
        assert(has_place(inserts, p));
        let x = choose|x: int| 0 <= x < inserts.len() && (#[trigger] inserts[x]).0 == p;
        if x < r {
            assert(inserts[x].0 < p);
        }
        if x > r {
            assert(inserts[r].0 < inserts[x].0);
            assert(inserts[r].0 >= p);
        }
        assert(x == r);
        assert(inserts[r].1 == b[p]);
        if p < c.len() {
            assert(left(c, deletes, p) == left(c, deletes, p + 1));
        } else {
            assert(left(c, deletes, p + 1) =~= left(c, deletes, p));
        }
        assert(state.insert(p, b[p]) =~= b.take(p + 1) + left(c, deletes, p + 1));
        assert forall|y: int| 0 <= y < r + 1 implies (#[trigger] inserts[y]).0 < p + 1 by {
            if y < r {
                assert(inserts[y].0 < p);
            }
        }
        assert forall|y: int| r + 1 <= y < inserts.len() implies (#[trigger] inserts[y]).0 >= p
            + 1 by {
            assert(inserts[r].0 < inserts[y].0);
        }
        lemma_apply_inserts_left(c, b, deletes, inserts, p + 1, r + 1);
    }
}

/// Deletions and insertions that lead from one array to another give the
/// other when they are applied to the one.
pub proof fn lemma_edits_lead_to(
    c: Seq<Json>,
    b: Seq<Json>,
    deletes: Seq<(usize, ())>,
    inserts: Seq<(usize, Json)>,
)
    requires
        edits_lead_to(c, b, deletes, inserts),
    ensures
        apply_inserts(apply_deletes(c, deletes, deletes.len() as int), inserts, 0) == b,
{
    assert(c.take(c.len() as int) + left(c, deletes, c.len() as int) =~= c);
    lemma_apply_deletes_left(c, deletes, c.len() as int, deletes.len() as int);
    assert(b.take(0) + left(c, deletes, 0) =~= left(c, deletes, 0));
    lemma_apply_inserts_left(c, b, deletes, inserts, 0, 0);
}

/// Whether the search for moves in two arrays can be undone: no place of
/// the old array that the search leaves free receives a moved item, so
/// that no key of the delta is asked to hold both a deletion and a move.
pub open spec fn moves_safe(a: Seq<Json>, b: Seq<Json>) -> bool {
    let plan = moves_phase(a, b, 0, no_moves(a.len(), b.len()));
    &&& destinations_matched(a.len(), b.len(), plan.used_old, plan.used_new)
}

/// Whether every common place whose new item was found in the old array
/// holds an old item that was found in the new one.
pub open spec fn destinations_matched(a_len: nat, b_len: nat, uo: Seq<bool>, un: Seq<bool>) -> bool {
    forall|j: int| 0 <= j < a_len && j < b_len && #[trigger] un[j] ==> uo[j]
}

/// The first free place with an equal item, where there is one, is free
/// and holds an equal item.
pub proof fn lemma_first_free_match(items: Seq<Json>, used: Seq<bool>, item: Json, from: int)
    requires
        0 <= from,
        used.len() == items.len(),
    ensures
        first_free_match(items, used, item, from) <= items.len(),
        first_free_match(items, used, item, from) < items.len() ==> 0 <= first_free_match(
            items,
            used,
            item,
            from,
        ) && !used[first_free_match(items, used, item, from)] && items[first_free_match(
            items,
            used,
            item,
            from,
        )] == item,
    decreases items.len() - from,
{
    if from < items.len() && !(!used[from] && items[from] == item) {
        lemma_first_free_match(items, used, item, from + 1);
    }
}

/// The changes that the delta holds for the places below `n` that the
/// search left free in both arrays and at which the arrays differ.
pub open spec fn free_changes(
    a: Seq<Json>,
    b: Seq<Json>,
    uo: Seq<bool>,
    un: Seq<bool>,
    n: nat,
) -> Seq<(usize, Json)>
    decreases n,
{
    if n == 0 {
        Seq::empty()
    } else if n - 1 < a.len() && n - 1 < b.len() && !uo[n - 1] && !un[n - 1] && a[n - 1] != b[n
        - 1] {
        free_changes(a, b, uo, un, (n - 1) as nat).push(((n - 1) as usize, b[n - 1]))
    } else {
        free_changes(a, b, uo, un, (n - 1) as nat)
    }
}

/// The changes for the places below `n` speak of places below `n`.
pub proof fn lemma_free_changes_keys(a: Seq<Json>, b: Seq<Json>, uo: Seq<bool>, un: Seq<bool>, n: nat)
    requires
        n <= usize::MAX,
    ensures
        forall|x: int|
            0 <= x < free_changes(a, b, uo, un, n).len() ==> (#[trigger] free_changes(
                a,
                b,
                uo,
                un,
                n,
            )[x]).0 < n,
    decreases n,
{
    if n > 0 {
        lemma_free_changes_keys(a, b, uo, un, (n - 1) as nat);
        let less = free_changes(a, b, uo, un, (n - 1) as nat);
        let list = free_changes(a, b, uo, un, n);
        assert forall|x: int| 0 <= x < list.len() implies (#[trigger] list[x]).0 < n by {
            if x < less.len() {
                assert(list[x] == less[x]);
            }
        }
    }
}

/// The changes for the free places leave the old array as long as it is,
/// make the free places below `n` equal to the new array, and leave the
/// other places as they were.
pub proof fn lemma_apply_free_changes(a: Seq<Json>, b: Seq<Json>, uo: Seq<bool>, un: Seq<bool>, n: nat)
    requires
        a.len() <= usize::MAX,
        uo.len() == a.len(),
        un.len() == b.len(),
    ensures
        apply_changes(a, free_changes(a, b, uo, un, n), 0).len() == a.len(),
        forall|x: int|
            0 <= x < a.len() ==> #[trigger] apply_changes(a, free_changes(a, b, uo, un, n), 0)[x]
                == (if x < n && x < b.len() && !uo[x] && !un[x] {
                b[x]
            } else {
                a[x]
            }),
    decreases n,
{
    if n > 0 {
        lemma_apply_free_changes(a, b, uo, un, (n - 1) as nat);
        if n - 1 < a.len() && n - 1 < b.len() && !uo[n - 1] && !un[n - 1] && a[n - 1] != b[n - 1] {
            lemma_apply_changes_push(
                a,
                free_changes(a, b, uo, un, (n - 1) as nat),
                ((n - 1) as usize, b[n - 1]),
                0,
            );
        }
    }
}

/// Which places of the old array the search for moves takes.
pub open spec fn free_old(a: Seq<Json>, b: Seq<Json>) -> Seq<bool> {
    moves_phase(a, b, 0, no_moves(a.len(), b.len())).used_old
}

/// Which places of the new array the search for moves takes.
pub open spec fn free_new(a: Seq<Json>, b: Seq<Json>) -> Seq<bool> {
    moves_phase(a, b, 0, no_moves(a.len(), b.len())).used_new
}

/// Whether the delta of the two items at every place that is taken in
/// neither array is either the change of the whole item or a delta that
/// patches the old item to the new.
pub open spec fn free_items_round_trip(
    a: Seq<Json>,
    b: Seq<Json>,
    uo: Seq<bool>,
    un: Seq<bool>,
    o: DiffOptions,
) -> bool {
    forall|i: int|
        0 <= i < a.len() && i < b.len() && 0 <= i < uo.len() && i < un.len() && !uo[i] && !un[i]
            && a[i] != b[i] ==> {
            ||| #[trigger] delta(a[i], b[i], o) == change(a[i], b[i])
            ||| (is_nested_delta(delta(a[i], b[i], o)) && patched(a[i], delta(a[i], b[i], o))
                == b[i])
        }
}

/// Whether an item stands at one place in both arrays and no edit touches
/// it.
pub open spec fn in_place(
    a: Seq<Json>,
    b: Seq<Json>,
    uo: Seq<bool>,
    un: Seq<bool>,
    e: ArrayEdits,
    k: int,
) -> bool {
    0 <= k < a.len() && k < b.len() && uo[k] && un[k] && a[k] == b[k] && !has_place(e.deletes, k)
        && !has_place(e.inserts, k)
}

/// Whether an insertion puts the item of the new array at its place: a
/// moved item, or an added one at a place below `i`.
pub open spec fn insert_ok(
    a: Seq<Json>,
    b: Seq<Json>,
    uo: Seq<bool>,
    un: Seq<bool>,
    i: int,
    ins: (usize, Json),
) -> bool {
    ins.0 < b.len() && ins.1 == b[ins.0 as int] && (un[ins.0 as int] || (ins.0 < i && (ins.0
        >= a.len() || uo[ins.0 as int])))
}

/// Whether an edit is one that the delta holds under the key of place `m`:
/// a move to `m` from a place that is taken, or the deletion, the change
/// or the insertion at `m`, a place below `i` that receives no moved item.
pub open spec fn edit_ok(
    a_len: nat,
    b_len: nat,
    uo: Seq<bool>,
    un: Seq<bool>,
    i: int,
    m: nat,
    ed: ArrayEdit,
) -> bool {
    match ed {
        ArrayEdit::Move(to, from, _) => to == m && m < b_len && un[m as int] && from < a_len
            && uo[from as int],
        ArrayEdit::Delete(k) => k == m && m < i && m < a_len && !uo[m as int] && (m >= b_len
            || !un[m as int]),
        ArrayEdit::Change(k, _) => k == m && m < i && (m >= b_len || !un[m as int]),
        ArrayEdit::Insert(k, _) => k == m && m < i && (m >= b_len || !un[m as int]),
        ArrayEdit::Nothing => false,
    }
}

/// Whether an entry of the delta stands under the key of a place and asks
/// for an edit that the delta holds for that place.
pub open spec fn entry_ok(
    a: Seq<Json>,
    b_len: nat,
    uo: Seq<bool>,
    un: Seq<bool>,
    i: int,
    entry: (Seq<char>, Json),
) -> bool {
    exists|m: nat|
        m <= usize::MAX && #[trigger] names_place(entry.0, m) && edit_ok(
            a.len(),
            b_len,
            uo,
            un,
            i,
            m,
            classify_edit(a, entry.0, entry.1),
        )
}

/// What holds of the delta and its edits while it is put together: after
/// the search has looked at the places of the new array below `j`, and the
/// places below `i` have been compared.
pub open spec fn searched(
    a: Seq<Json>,
    b: Seq<Json>,
    uo: Seq<bool>,
    un: Seq<bool>,
    acc: Entries,
    e: ArrayEdits,
    j: int,
    i: int,
) -> bool {
    &&& 0 <= i
    &&& uo.len() == a.len()
    &&& un.len() == b.len()
    &&& ascending(e.deletes)
    &&& ascending(e.inserts)
    &&& e.changes == free_changes(a, b, uo, un, i as nat)
    &&& forall|k: int| #[trigger]
        has_place(e.deletes, k) ==> 0 <= k < a.len() && (uo[k] || (k < i && k >= b.len()))
    &&& forall|x: int|
        0 <= x < e.inserts.len() ==> insert_ok(a, b, uo, un, i, #[trigger] e.inserts[x])
    &&& forall|k: int|
        0 <= k < a.len() && #[trigger] uo[k] ==> has_place(e.deletes, k) || in_place(
            a,
            b,
            uo,
            un,
            e,
            k,
        )
    &&& forall|p: int|
        0 <= p < b.len() && #[trigger] un[p] ==> p < j && (has_place(e.inserts, p) || in_place(
            a,
            b,
            uo,
            un,
            e,
            p,
        ))
    &&& forall|k: int|
        0 <= k < i && k < a.len() && k >= b.len() && !uo[k] ==> #[trigger] has_place(e.deletes, k)
    &&& forall|p: int|
        0 <= p < i && p < b.len() && !un[p] && (p >= a.len() || uo[p]) ==> #[trigger] has_place(
            e.inserts,
            p,
        )
    &&& forall|x: int| 0 <= x < acc.len() ==> entry_ok(a, b.len(), uo, un, i, #[trigger] acc[x])
}

/// Putting an entry into a delta that has no entry under its key, and
/// whose edits are independent of the edit of the entry, adds that edit;
/// the delta then holds the entry and those it held.
pub proof fn lemma_insert_place_entry(existing: Seq<Json>, d: Entries, key: Seq<char>, sub: Json)
    requires
        forall|x: int| 0 <= x < d.len() ==> (#[trigger] d[x]).0 != key,
        forall|x: int|
            0 <= x < d.len() ==> independent(
                classify_edit(existing, (#[trigger] d[x]).0, d[x].1),
                classify_edit(existing, key, sub),
            ),
    ensures
        collect_edits(existing, insert_entry(d, key, sub), 0, no_edits()) == add_edit(
            collect_edits(existing, d, 0, no_edits()),
            classify_edit(existing, key, sub),
        ),
        forall|x: int|
            0 <= x < insert_entry(d, key, sub).len() ==> (#[trigger] insert_entry(d, key, sub)[x])
                == (key, sub) || d.contains(insert_entry(d, key, sub)[x]),
{
    lemma_key_index_from(d, key, 0);
    assert(key_index(d, key) is None);
    lemma_insert_position_from(d, key, 0);
    let p = insert_position_from(d, key, 0);
    let di = d.insert(p, (key, sub));
    assert(insert_entry(d, key, sub) == di);
    lemma_collect_edits_insert(existing, d, p, (key, sub), 0, no_edits());
    assert forall|x: int| 0 <= x < di.len() implies (#[trigger] di[x]) == (key, sub) || d.contains(
        di[x],
    ) by {
        if x < p {
            assert(di[x] == d[x]);
        } else if x > p {
            assert(di[x] == d[x - 1]);
        }
    }
}

/// The marker of a move from a place of the old array asks for the move of
/// the item at that place.
pub proof fn lemma_classify_move(a: Seq<Json>, j: nat, k: nat)
    requires
        j <= usize::MAX,
        k < a.len() <= usize::MAX,
    ensures
        classify_edit(a, index_key(j), move_marker(k as u64)) == ArrayEdit::Move(
            j as usize,
            k as usize,
            a[k as int],
        ),
{
    lemma_edit_index_of_index_key(j);
    let arr = move_marker(k as u64)->Array_0;
    assert(arr.len() == 3);
    assert(arr[2] == uint_json(3));
    assert(uint_json(3) != uint_json(0));
    assert(!is_deletion(arr));
    assert(is_move(arr));
    assert(arr[1] == uint_json(k as u64));
}

/// One step of the search keeps what holds of the delta and its edits.
#[verifier::rlimit(100)]
pub proof fn lemma_move_step(a: Seq<Json>, b: Seq<Json>, j: int, plan: MovePlan)
    requires
        a.len() <= usize::MAX,
        b.len() <= usize::MAX,
        0 <= j < b.len(),
        searched(
            a,
            b,
            plan.used_old,
            plan.used_new,
            plan.marks,
            collect_edits(a, plan.marks, 0, no_edits()),
            j,
            0,
        ),
    ensures
        ({
            let next = move_step(a, b, j, plan);
            searched(
                a,
                b,
                next.used_old,
                next.used_new,
                next.marks,
                collect_edits(a, next.marks, 0, no_edits()),
                j + 1,
                0,
            )
        }),
{
    let uo = plan.used_old;
    let un = plan.used_new;
    let e = collect_edits(a, plan.marks, 0, no_edits());
    let k = first_free_match(a, uo, b[j], 0);
    lemma_first_free_match(a, uo, b[j], 0);
    let next = move_step(a, b, j, plan);
    let e2 = collect_edits(a, next.marks, 0, no_edits());
    if un[j] {
        assert(j < j);
    }
    if k < a.len() {
        assert(a[k] == b[j]);
        let uo2 = next.used_old;
        let un2 = next.used_new;
        assert(uo2 == uo.update(k, true));
        assert(un2 == un.update(j, true));
        if has_place(e.deletes, k) {
            assert(uo[k]);
        }
        if has_place(e.inserts, j) {
            let x = choose|x: int| 0 <= x < e.inserts.len() && (#[trigger] e.inserts[x]).0 == j;
            assert(insert_ok(a, b, uo, un, 0, e.inserts[x]));
        }
        if k != j {
            let key = index_key(j as nat);
            let sub = move_marker(k as u64);
            lemma_classify_move(a, j as nat, k as nat);
            let mv = ArrayEdit::Move(j as usize, k as usize, a[k]);
            assert forall|x: int| 0 <= x < plan.marks.len() implies (#[trigger] plan.marks[x]).0
                != key && independent(classify_edit(a, plan.marks[x].0, plan.marks[x].1), mv) by {
                assert(entry_ok(a, b.len(), uo, un, 0, plan.marks[x]));
                let m = choose|m: nat|
                    m <= usize::MAX && #[trigger] names_place(plan.marks[x].0, m) && edit_ok(
                        a.len(),
                        b.len(),
                        uo,
                        un,
                        0,
                        m,
                        classify_edit(a, plan.marks[x].0, plan.marks[x].1),
                    );
                assert(un[m as int]);
                lemma_names_place(plan.marks[x].0, m);
                lemma_edit_index_of_index_key(j as nat);
            }
            lemma_insert_place_entry(a, plan.marks, key, sub);
            assert(e2 == add_edit(e, mv));
            lemma_insert_by_key_ascending(e.deletes, k as usize, ());
            lemma_insert_by_key_ascending(e.inserts, j as usize, a[k]);
            assert(e2.deletes == insert_by_key(e.deletes, k as usize, ()));
            assert(e2.inserts == insert_by_key(e.inserts, j as usize, a[k]));
            assert(e2.changes == e.changes);
            assert forall|x: int| 0 <= x < e2.inserts.len() implies insert_ok(
                a,
                b,
                uo2,
                un2,
                0,
                #[trigger] e2.inserts[x],
            ) by {
                if e2.inserts[x] != (j as usize, a[k]) {
                    let y = choose|y: int|
                        0 <= y < e.inserts.len() && e.inserts[y] == e2.inserts[x];
                    assert(insert_ok(a, b, uo, un, 0, e.inserts[y]));
                }
            }
            assert forall|q: int| 0 <= q < a.len() && #[trigger] uo2[q] implies has_place(
                e2.deletes,
                q,
            ) || in_place(a, b, uo2, un2, e2, q) by {
                if q != k {
                    assert(uo[q]);
                    if !has_place(e.deletes, q) {
                        assert(in_place(a, b, uo, un, e, q));
                    }
                }
            }
            assert forall|p: int| 0 <= p < b.len() && #[trigger] un2[p] implies p < j + 1 && (
            has_place(e2.inserts, p) || in_place(a, b, uo2, un2, e2, p)) by {
                if p != j {
                    assert(un[p]);
                    if !has_place(e.inserts, p) {
                        assert(in_place(a, b, uo, un, e, p));
                    }
                }
            }
            assert forall|x: int| 0 <= x < next.marks.len() implies entry_ok(
                a,
                b.len(),
                uo2,
                un2,
                0,
                #[trigger] next.marks[x],
            ) by {
                if next.marks[x] == (key, sub) {
                    assert(names_place(key, j as nat));
                    assert(edit_ok(a.len(), b.len(), uo2, un2, 0, j as nat, mv));
                } else {
                    let y = choose|y: int|
                        0 <= y < plan.marks.len() && plan.marks[y] == next.marks[x];
                    assert(entry_ok(a, b.len(), uo, un, 0, plan.marks[y]));
                    let m = choose|m: nat|
                        m <= usize::MAX && #[trigger] names_place(plan.marks[y].0, m) && edit_ok(
                            a.len(),
                            b.len(),
                            uo,
                            un,
                            0,
                            m,
                            classify_edit(a, plan.marks[y].0, plan.marks[y].1),
                        );
                    assert(edit_ok(
                        a.len(),
                        b.len(),
                        uo2,
                        un2,
                        0,
                        m,
                        classify_edit(a, plan.marks[y].0, plan.marks[y].1),
                    ));
                }
            }
            assert forall|q: int| #[trigger] has_place(e2.deletes, q) implies 0 <= q < a.len() && (
            uo2[q] || (q < 0 && q >= b.len())) by {
                if q != k {
                    assert(has_place(e.deletes, q));
                }
            }
        } else {
            assert(e2 == e);
            assert forall|x: int| 0 <= x < e2.inserts.len() implies insert_ok(
                a,
                b,
                uo2,
                un2,
                0,
                #[trigger] e2.inserts[x],
            ) by {
                assert(insert_ok(a, b, uo, un, 0, e.inserts[x]));
            }
            assert forall|q: int| 0 <= q < a.len() && #[trigger] uo2[q] implies has_place(
                e2.deletes,
                q,
            ) || in_place(a, b, uo2, un2, e2, q) by {
                if q != k {
                    assert(uo[q]);
                    if !has_place(e.deletes, q) {
                        assert(in_place(a, b, uo, un, e, q));
                    }
                }
            }
            assert forall|p: int| 0 <= p < b.len() && #[trigger] un2[p] implies p < j + 1 && (
            has_place(e2.inserts, p) || in_place(a, b, uo2, un2, e2, p)) by {
                if p != j {
                    assert(un[p]);
                    if !has_place(e.inserts, p) {
                        assert(in_place(a, b, uo, un, e, p));
                    }
                }
            }
            assert forall|x: int| 0 <= x < next.marks.len() implies entry_ok(
                a,
                b.len(),
                uo2,
                un2,
                0,
                #[trigger] next.marks[x],
            ) by {
                assert(entry_ok(a, b.len(), uo, un, 0, plan.marks[x]));
                let m = choose|m: nat|
                    m <= usize::MAX && #[trigger] names_place(plan.marks[x].0, m) && edit_ok(
                        a.len(),
                        b.len(),
                        uo,
                        un,
                        0,
                        m,
                        classify_edit(a, plan.marks[x].0, plan.marks[x].1),
                    );
                assert(edit_ok(
                    a.len(),
                    b.len(),
                    uo2,
                    un2,
                    0,
                    m,
                    classify_edit(a, plan.marks[x].0, plan.marks[x].1),
                ));
            }
            assert forall|q: int| #[trigger] has_place(e2.deletes, q) implies 0 <= q < a.len() && (
            uo2[q] || (q < 0 && q >= b.len())) by {
                assert(uo[q]);
            }
        }
        assert(e2.changes == free_changes(a, b, uo2, un2, 0));
    } else {
        assert(next == plan);
        assert forall|p: int| 0 <= p < b.len() && #[trigger] un[p] implies p < j + 1 && (has_place(
            e.inserts,
            p,
        ) || in_place(a, b, uo, un, e, p)) by {
        }
    }
}

/// The search keeps what holds of the delta and its edits.
pub proof fn lemma_moves_phase(a: Seq<Json>, b: Seq<Json>, j: int, plan: MovePlan)
    requires
        a.len() <= usize::MAX,
        b.len() <= usize::MAX,
        0 <= j <= b.len(),
        searched(
            a,
            b,
            plan.used_old,
            plan.used_new,
            plan.marks,
            collect_edits(a, plan.marks, 0, no_edits()),
            j,
            0,
        ),
    ensures
        ({
            let last = moves_phase(a, b, j, plan);
            searched(
                a,
                b,
                last.used_old,
                last.used_new,
                last.marks,
                collect_edits(a, last.marks, 0, no_edits()),
                b.len() as int,
                0,
            )
        }),
    decreases b.len() - j,
{
    if j < b.len() {
        lemma_move_step(a, b, j, plan);
        lemma_moves_phase(a, b, j + 1, move_step(a, b, j, plan));
    }
}

/// An entry that the delta holds for a place below `i` is one that it
/// holds for a place below `i + 1`.
pub proof fn lemma_entries_ok_next(
    a: Seq<Json>,
    b_len: nat,
    uo: Seq<bool>,
    un: Seq<bool>,
    i: int,
    acc: Entries,
)
    requires
        forall|x: int| 0 <= x < acc.len() ==> entry_ok(a, b_len, uo, un, i, #[trigger] acc[x]),
    ensures
        forall|x: int| 0 <= x < acc.len() ==> entry_ok(a, b_len, uo, un, i + 1, #[trigger] acc[x]),
{
    assert forall|x: int| 0 <= x < acc.len() implies entry_ok(
        a,
        b_len,
        uo,
        un,
        i + 1,
        #[trigger] acc[x],
    ) by {
        assert(entry_ok(a, b_len, uo, un, i, acc[x]));
        let m = choose|m: nat|
            m <= usize::MAX && #[trigger] names_place(acc[x].0, m) && edit_ok(
                a.len(),
                b_len,
                uo,
                un,
                i,
                m,
                classify_edit(a, acc[x].0, acc[x].1),
            );
        assert(edit_ok(a.len(), b_len, uo, un, i + 1, m, classify_edit(a, acc[x].0, acc[x].1)));
    }
}

/// Putting the entry of place `i` into the delta adds its edit, where the
/// place receives no moved item and the edit takes nothing out of a place
/// that is taken.
pub proof fn lemma_insert_rest_entry(
    a: Seq<Json>,
    b_len: nat,
    uo: Seq<bool>,
    un: Seq<bool>,
    i: int,
    acc: Entries,
    key: Seq<char>,
    sub: Json,
)
    requires
        0 <= i <= usize::MAX,
        names_place(key, i as nat),
        uo.len() == a.len(),
        un.len() == b_len,
        i >= b_len || !un[i],
        forall|x: int| 0 <= x < acc.len() ==> entry_ok(a, b_len, uo, un, i, #[trigger] acc[x]),
        edit_ok(a.len(), b_len, uo, un, i + 1, i as nat, classify_edit(a, key, sub)),
    ensures
        collect_edits(a, insert_entry(acc, key, sub), 0, no_edits()) == add_edit(
            collect_edits(a, acc, 0, no_edits()),
            classify_edit(a, key, sub),
        ),
        forall|x: int|
            0 <= x < insert_entry(acc, key, sub).len() ==> entry_ok(
                a,
                b_len,
                uo,
                un,
                i + 1,
                #[trigger] insert_entry(acc, key, sub)[x],
            ),
{
    let ed = classify_edit(a, key, sub);
    lemma_names_place(key, i as nat);
    assert forall|x: int| 0 <= x < acc.len() implies (#[trigger] acc[x]).0 != key && independent(
        classify_edit(a, acc[x].0, acc[x].1),
        ed,
    ) by {
        assert(entry_ok(a, b_len, uo, un, i, acc[x]));
        let m = choose|m: nat|
            m <= usize::MAX && #[trigger] names_place(acc[x].0, m) && edit_ok(
                a.len(),
                b_len,
                uo,
                un,
                i,
                m,
                classify_edit(a, acc[x].0, acc[x].1),
            );
        lemma_names_place(acc[x].0, m);
    }
    lemma_insert_place_entry(a, acc, key, sub);
    lemma_entries_ok_next(a, b_len, uo, un, i, acc);
    let next = insert_entry(acc, key, sub);
    assert forall|x: int| 0 <= x < next.len() implies entry_ok(
        a,
        b_len,
        uo,
        un,
        i + 1,
        #[trigger] next[x],
    ) by {
        if next[x] != (key, sub) {
            let y = choose|y: int| 0 <= y < acc.len() && acc[y] == next[x];
            assert(entry_ok(a, b_len, uo, un, i + 1, acc[y]));
        }
    }
}

/// A place that gets no entry keeps what holds of the delta and its
/// edits: one at which the free items are equal, or one that is free in
/// neither array.
pub proof fn lemma_rest_skip(
    a: Seq<Json>,
    b: Seq<Json>,
    i: int,
    uo: Seq<bool>,
    un: Seq<bool>,
    acc: Entries,
)
    requires
        a.len() <= usize::MAX,
        b.len() <= usize::MAX,
        destinations_matched(a.len(), b.len(), uo, un),
        0 <= i < longer(a.len(), b.len()),
        searched(a, b, uo, un, acc, collect_edits(a, acc, 0, no_edits()), b.len() as int, i),
        i < a.len() && i < b.len() && !uo[i] && !un[i] && a[i] == b[i] || ((i >= a.len() || uo[i])
            && (i >= b.len() || un[i])),
    ensures
        searched(a, b, uo, un, acc, collect_edits(a, acc, 0, no_edits()), b.len() as int, i + 1),
{
    let e = collect_edits(a, acc, 0, no_edits());
    let e2 = e;
    lemma_entries_ok_next(a, b.len(), uo, un, i, acc);
    assert forall|x: int| 0 <= x < e2.inserts.len() implies insert_ok(
        a,
        b,
        uo,
        un,
        i + 1,
        #[trigger] e2.inserts[x],
    ) by {
        assert(insert_ok(a, b, uo, un, i, e.inserts[x]));
    }
}

/// The entry of a place at which the free items differ keeps what holds
/// of the delta and its edits.
#[verifier::rlimit(100)]
pub proof fn lemma_rest_change(
    a: Seq<Json>,
    b: Seq<Json>,
    i: int,
    uo: Seq<bool>,
    un: Seq<bool>,
    o: DiffOptions,
    acc: Entries,
)
    requires
        a.len() <= usize::MAX,
        b.len() <= usize::MAX,
        destinations_matched(a.len(), b.len(), uo, un),
        0 <= i < longer(a.len(), b.len()),
        searched(a, b, uo, un, acc, collect_edits(a, acc, 0, no_edits()), b.len() as int, i),
        free_items_round_trip(a, b, uo, un, o),
        i < a.len() && i < b.len() && !uo[i] && !un[i] && a[i] != b[i],
    ensures
        ({
            let next = insert_entry(acc, index_key(i as nat), delta(a[i], b[i], o));
            searched(a, b, uo, un, next, collect_edits(a, next, 0, no_edits()), b.len() as int, i + 1)
        }),
{
    let e = collect_edits(a, acc, 0, no_edits());
    let key = index_key(i as nat);
    let bl = b.len() as int;
    lemma_edit_index_of_index_key(i as nat);
    let d = delta(a[i], b[i], o);
    let ed = classify_edit(a, key, d);
    assert(ed == ArrayEdit::Change(i as usize, b[i])) by {
        if d == change(a[i], b[i]) {
            assert(d->Array_0.len() == 2);
            assert(d->Array_0[1] == b[i]);
        }
    }
    lemma_insert_rest_entry(a, b.len(), uo, un, i, acc, key, d);
    let next = insert_entry(acc, key, d);
    let e2 = collect_edits(a, next, 0, no_edits());
    assert(e2 == add_edit(e, ed));
    lemma_free_changes_keys(a, b, uo, un, i as nat);
    lemma_key_position_unique(e.changes, i as usize, e.changes.len() as int);
    assert(insert_by_key(e.changes, i as usize, b[i]) =~= free_changes(a, b, uo, un, (i + 1) as nat));
    assert(e2.deletes == e.deletes && e2.inserts == e.inserts);
    assert forall|x: int| 0 <= x < e2.inserts.len() implies insert_ok(
        a,
        b,
        uo,
        un,
        i + 1,
        #[trigger] e2.inserts[x],
    ) by {
        assert(insert_ok(a, b, uo, un, i, e.inserts[x]));
    }
    assert forall|q: int| 0 <= q < a.len() && #[trigger] uo[q] implies has_place(e2.deletes, q)
        || in_place(a, b, uo, un, e2, q) by {
        if !has_place(e.deletes, q) {
            assert(in_place(a, b, uo, un, e, q));
        }
    }
    assert forall|p: int| 0 <= p < b.len() && #[trigger] un[p] implies p < bl && (has_place(
        e2.inserts,
        p,
    ) || in_place(a, b, uo, un, e2, p)) by {
        if !has_place(e.inserts, p) {
            assert(in_place(a, b, uo, un, e, p));
        }
    }
}

/// The deletion of a free place of the old array keeps what holds of the
/// delta and its edits.
#[verifier::rlimit(100)]
pub proof fn lemma_rest_delete(
    a: Seq<Json>,
    b: Seq<Json>,
    i: int,
    uo: Seq<bool>,
    un: Seq<bool>,
    acc: Entries,
)
    requires
        a.len() <= usize::MAX,
        b.len() <= usize::MAX,
        destinations_matched(a.len(), b.len(), uo, un),
        0 <= i < longer(a.len(), b.len()),
        searched(a, b, uo, un, acc, collect_edits(a, acc, 0, no_edits()), b.len() as int, i),
        i < a.len() && !uo[i] && (i >= b.len() || un[i]),
    ensures
        ({
            let next = insert_entry(acc, index_key(i as nat), deletion(a[i]));
            searched(a, b, uo, un, next, collect_edits(a, next, 0, no_edits()), b.len() as int, i + 1)
        }),
{
    let e = collect_edits(a, acc, 0, no_edits());
    let key = index_key(i as nat);
    let bl = b.len() as int;
    lemma_edit_index_of_index_key(i as nat);
    if i < b.len() {
        assert(un[i]);
        assert(uo[i]);
    }
    assert(i >= b.len());
    let d = deletion(a[i]);
    let ed = classify_edit(a, key, d);
    assert(is_deletion(d->Array_0));
    assert(ed == ArrayEdit::Delete(i as usize));
    lemma_insert_rest_entry(a, b.len(), uo, un, i, acc, key, d);
    let next = insert_entry(acc, key, d);
    let e2 = collect_edits(a, next, 0, no_edits());
    assert(e2 == add_edit(e, ed));
    if has_place(e.deletes, i) {
        assert(uo[i] || i < i);
    }
    lemma_insert_by_key_ascending(e.deletes, i as usize, ());
    assert(e2.deletes == insert_by_key(e.deletes, i as usize, ()));
    assert(e2.inserts == e.inserts && e2.changes == e.changes);
    assert forall|x: int| 0 <= x < e2.inserts.len() implies insert_ok(
        a,
        b,
        uo,
        un,
        i + 1,
        #[trigger] e2.inserts[x],
    ) by {
        assert(insert_ok(a, b, uo, un, i, e.inserts[x]));
    }
    assert forall|q: int| 0 <= q < a.len() && #[trigger] uo[q] implies has_place(e2.deletes, q)
        || in_place(a, b, uo, un, e2, q) by {
        if !has_place(e.deletes, q) {
            assert(in_place(a, b, uo, un, e, q));
        }
    }
    assert forall|p: int| 0 <= p < b.len() && #[trigger] un[p] implies p < bl && (has_place(
        e2.inserts,
        p,
    ) || in_place(a, b, uo, un, e2, p)) by {
        if !has_place(e.inserts, p) {
            assert(in_place(a, b, uo, un, e, p));
        }
    }
    assert forall|q: int| #[trigger] has_place(e2.deletes, q) implies 0 <= q < a.len() && (uo[q] || (
    q < i + 1 && q >= b.len())) by {
        if q != i {
            assert(has_place(e.deletes, q));
        }
    }
    assert forall|q: int|
        0 <= q < i + 1 && q < a.len() && q >= b.len() && !uo[q] implies #[trigger] has_place(
        e2.deletes,
        q,
    ) by {
        if q != i {
            assert(has_place(e.deletes, q));
        }
    }
}

/// The addition at a free place of the new array keeps what holds of the
/// delta and its edits.
#[verifier::rlimit(100)]
pub proof fn lemma_rest_add(
    a: Seq<Json>,
    b: Seq<Json>,
    i: int,
    uo: Seq<bool>,
    un: Seq<bool>,
    acc: Entries,
)
    requires
        a.len() <= usize::MAX,
        b.len() <= usize::MAX,
        destinations_matched(a.len(), b.len(), uo, un),
        0 <= i < longer(a.len(), b.len()),
        searched(a, b, uo, un, acc, collect_edits(a, acc, 0, no_edits()), b.len() as int, i),
        i < b.len() && !un[i] && (i >= a.len() || uo[i]),
    ensures
        ({
            let next = insert_entry(acc, insertion_key(i as nat), addition(b[i]));
            searched(a, b, uo, un, next, collect_edits(a, next, 0, no_edits()), b.len() as int, i + 1)
        }),
{
    let e = collect_edits(a, acc, 0, no_edits());
    let key = insertion_key(i as nat);
    let bl = b.len() as int;
    lemma_edit_index_of_insertion_key(i as nat);
    let d = addition(b[i]);
    let ed = classify_edit(a, key, d);
    assert(d->Array_0.len() == 1);
    assert(!is_deletion(d->Array_0));
    assert(!is_move(d->Array_0));
    assert(ed == ArrayEdit::Insert(i as usize, b[i]));
    lemma_insert_rest_entry(a, b.len(), uo, un, i, acc, key, d);
    let next = insert_entry(acc, key, d);
    let e2 = collect_edits(a, next, 0, no_edits());
    assert(e2 == add_edit(e, ed));
    if has_place(e.inserts, i) {
        let x = choose|x: int| 0 <= x < e.inserts.len() && (#[trigger] e.inserts[x]).0 == i;
        assert(insert_ok(a, b, uo, un, i, e.inserts[x]));
    }
    lemma_insert_by_key_ascending(e.inserts, i as usize, b[i]);
    assert(e2.inserts == insert_by_key(e.inserts, i as usize, b[i]));
    assert(e2.deletes == e.deletes && e2.changes == e.changes);
    assert forall|x: int| 0 <= x < e2.inserts.len() implies insert_ok(
        a,
        b,
        uo,
        un,
        i + 1,
        #[trigger] e2.inserts[x],
    ) by {
        if e2.inserts[x] != (i as usize, b[i]) {
            let y = choose|y: int| 0 <= y < e.inserts.len() && e.inserts[y] == e2.inserts[x];
            assert(insert_ok(a, b, uo, un, i, e.inserts[y]));
        }
    }
    assert forall|q: int| 0 <= q < a.len() && #[trigger] uo[q] implies has_place(e2.deletes, q)
        || in_place(a, b, uo, un, e2, q) by {
        if !has_place(e.deletes, q) {
            assert(in_place(a, b, uo, un, e, q));
        }
    }
    assert forall|p: int| 0 <= p < b.len() && #[trigger] un[p] implies p < bl && (has_place(
        e2.inserts,
        p,
    ) || in_place(a, b, uo, un, e2, p)) by {
        if !has_place(e.inserts, p) {
            assert(in_place(a, b, uo, un, e, p));
        }
    }
    assert forall|p: int|
        0 <= p < i + 1 && p < b.len() && !un[p] && (p >= a.len() || uo[p]) implies #[trigger] has_place(
        e2.inserts,
        p,
    ) by {
        if p != i {
            assert(has_place(e.inserts, p));
        }
    }
}

/// Comparing the places that the search left free keeps what holds of the
/// delta and its edits.
pub proof fn lemma_rest_phase(
    a: Seq<Json>,
    b: Seq<Json>,
    i: int,
    uo: Seq<bool>,
    un: Seq<bool>,
    o: DiffOptions,
    acc: Entries,
)
    requires
        a.len() <= usize::MAX,
        b.len() <= usize::MAX,
        destinations_matched(a.len(), b.len(), uo, un),
        free_items_round_trip(a, b, uo, un, o),
        0 <= i <= longer(a.len(), b.len()),
        searched(a, b, uo, un, acc, collect_edits(a, acc, 0, no_edits()), b.len() as int, i),
    ensures
        ({
            let d = rest_phase(a, b, i, uo, un, o, acc);
            searched(
                a,
                b,
                uo,
                un,
                d,
                collect_edits(a, d, 0, no_edits()),
                b.len() as int,
                longer(a.len(), b.len()) as int,
            )
        }),
    decreases longer(a.len(), b.len()) - i,
{
    let key = index_key(i as nat);
    if i < longer(a.len(), b.len()) {
        if i < a.len() && i < b.len() && !uo[i] && !un[i] {
            if a[i] == b[i] {
                lemma_rest_skip(a, b, i, uo, un, acc);
                lemma_rest_phase(a, b, i + 1, uo, un, o, acc);
            } else {
                lemma_rest_change(a, b, i, uo, un, o, acc);
                lemma_rest_phase(a, b, i + 1, uo, un, o, insert_entry(acc, key, delta(a[i], b[i], o)));
            }
        } else if i < a.len() && !uo[i] {
            lemma_rest_delete(a, b, i, uo, un, acc);
            lemma_rest_phase(a, b, i + 1, uo, un, o, insert_entry(acc, key, deletion(a[i])));
        } else if i < b.len() && !un[i] {
            lemma_rest_add(a, b, i, uo, un, acc);
            lemma_rest_phase(
                a,
                b,
                i + 1,
                uo,
                un,
                o,
                insert_entry(acc, insertion_key(i as nat), addition(b[i])),
            );
        } else {
            lemma_rest_skip(a, b, i, uo, un, acc);
            lemma_rest_phase(a, b, i + 1, uo, un, o, acc);
        }
    }
}

/// Applying the delta of two arrays that were searched for moves to the
/// old array gives the new one, where the search can be undone and the
/// deltas of the items at the places that it left free lead from the old
/// items to the new ones.
#[verifier::rlimit(100)]
pub proof fn lemma_moves_round_trip(a: Seq<Json>, b: Seq<Json>, o: DiffOptions)
    requires
        a.len() <= usize::MAX,
        b.len() <= usize::MAX,
        moves_safe(a, b),
        free_items_round_trip(a, b, free_old(a, b), free_new(a, b), o),
    ensures
        edited_array(a, array_delta_moves(a, b, o)) == b,
{
    let start = no_moves(a.len(), b.len());
    let none = Seq::<(Seq<char>, Json)>::empty();
    assert(collect_edits(a, none, 0, no_edits()) == no_edits());
    assert(start.marks == none);
    assert(searched(a, b, start.used_old, start.used_new, none, no_edits(), 0, 0)) by {
        assert forall|k: int| #[trigger] has_place(no_edits().deletes, k) implies false by {
        }
    }
    lemma_moves_phase(a, b, 0, start);
    let plan = moves_phase(a, b, 0, start);
    let uo = plan.used_old;
    let un = plan.used_new;
    lemma_rest_phase(a, b, 0, uo, un, o, plan.marks);
    let d = array_delta_moves(a, b, o);
    let top = longer(a.len(), b.len());
    let e = collect_edits(a, d, 0, no_edits());
    assert(searched(a, b, uo, un, d, e, b.len() as int, top as int));
    lemma_apply_free_changes(a, b, uo, un, top);
    let c = apply_changes(a, e.changes, 0);
    assert forall|i: int| 0 <= i < c.len() && !has_place(e.deletes, i) implies i < b.len()
        && #[trigger] c[i] == b[i] by {
        if uo[i] {
            assert(in_place(a, b, uo, un, e, i));
        } else {
            if i < b.len() && un[i] {
                assert(uo[i]);
            }
        }
    }
    assert forall|x: int| 0 <= x < e.inserts.len() implies {
        &&& (#[trigger] e.inserts[x]).0 < b.len()
        &&& e.inserts[x].1 == b[e.inserts[x].0 as int]
        &&& (e.inserts[x].0 >= c.len() || has_place(e.deletes, e.inserts[x].0 as int))
    } by {
        assert(insert_ok(a, b, uo, un, top as int, e.inserts[x]));
        let p = e.inserts[x].0 as int;
        assert(has_place(e.inserts, p));
        if p < a.len() {
            if un[p] {
                assert(uo[p]);
            }
            assert(uo[p]);
            if !has_place(e.deletes, p) {
                assert(in_place(a, b, uo, un, e, p));
            }
        }
    }
    assert forall|j: int|
        0 <= j < b.len() && (j >= c.len() || has_place(e.deletes, j)) implies #[trigger] has_place(
        e.inserts,
        j,
    ) by {
        if un[j] {
            if !has_place(e.inserts, j) {
                assert(in_place(a, b, uo, un, e, j));
            }
        } else {
            if j < a.len() {
                assert(uo[j] || (j < top && j >= b.len()));
            }
        }
    }
    assert forall|x: int| 0 <= x < e.deletes.len() implies (#[trigger] e.deletes[x]).0 < c.len() by {
        assert(has_place(e.deletes, e.deletes[x].0 as int));
    }
    assert(edits_lead_to(c, b, e.deletes, e.inserts));
    lemma_edits_lead_to(c, b, e.deletes, e.inserts);
}

} // verus!
