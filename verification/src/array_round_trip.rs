//! The edits that the delta of two arrays, compared place by place, holds,
//! and what applying them gives.

use crate::delta::{addition, change, deletion, index_key, insertion_key};
use crate::diff::{array_delta_simple, delta, longer};
use crate::options::DiffOptions;
use crate::patch::{
    add_edit, apply_changes, apply_deletes, apply_inserts, classify_edit,
    collect_edits, edit_index, edited_array, insert_by_key, is_deletion, is_move, is_old_place,
    key_position, lemma_key_position, no_edits, patched, ArrayEdit, ArrayEdits,
};
use crate::text::{decimal, lemma_parse_decimal_of_decimal};
use crate::value::{
    insert_entry, insert_position_from, key_index, lemma_insert_position_from,
    lemma_key_index_from, Entries, Json,
};
use vstd::prelude::*;

verus! {

/// The place of the old array from which an edit takes an item out.
pub open spec fn taken_place(e: ArrayEdit) -> Option<usize> {
    match e {
        ArrayEdit::Delete(idx) => Some(idx),
        ArrayEdit::Move(_, from, _) => Some(from),
        _ => None,
    }
}

/// The place at which an edit puts an item in.
pub open spec fn filled_place(e: ArrayEdit) -> Option<usize> {
    match e {
        ArrayEdit::Insert(idx, _) => Some(idx),
        ArrayEdit::Move(to, _, _) => Some(to),
        _ => None,
    }
}

/// The place of the old array that an edit changes.
pub open spec fn changed_place(e: ArrayEdit) -> Option<usize> {
    match e {
        ArrayEdit::Change(idx, _) => Some(idx),
        _ => None,
    }
}

/// Whether two edits can be added in either order: they take out of
/// different places, put in at different places and change different
/// places, as far as they do any of these.
pub open spec fn independent(e1: ArrayEdit, e2: ArrayEdit) -> bool {
    &&& taken_place(e1) is None || taken_place(e1) != taken_place(e2)
    &&& filled_place(e1) is None || filled_place(e1) != filled_place(e2)
    &&& changed_place(e1) is None || changed_place(e1) != changed_place(e2)
}

/// The position at which a key is put is the one position before which no
/// key is larger and at which a larger key stands.
pub proof fn lemma_key_position_unique<T>(s: Seq<(usize, T)>, key: usize, q: int)
    requires
        0 <= q <= s.len(),
        forall|j: int| 0 <= j < q ==> (#[trigger] s[j]).0 <= key,
        q < s.len() ==> s[q].0 > key,
    ensures
        key_position(s, key, 0) == q,
{
    lemma_key_position(s, key, 0);
    let pos = key_position(s, key, 0);
    if pos < q {
        assert(s[pos].0 <= key);
    } else if pos > q {
        assert(s[q].0 <= key);
    }
}

/// Two entries can be put into a list in either order, where the key of the
/// first is the smaller.
pub proof fn lemma_insert_by_key_commute_lt<T>(
    s: Seq<(usize, T)>,
    k1: usize,
    x1: T,
    k2: usize,
    x2: T,
)
    requires
        k1 < k2,
    ensures
        insert_by_key(insert_by_key(s, k1, x1), k2, x2) == insert_by_key(
            insert_by_key(s, k2, x2),
            k1,
            x1,
        ),
{
    if k1 < k2 {
        lemma_key_position(s, k1, 0);
        lemma_key_position(s, k2, 0);
        let first = key_position(s, k1, 0);
        let second = key_position(s, k2, 0);
        if second < first {
            assert(s[second].0 <= k1);
        }
        let s1 = s.insert(first, (k1, x1));
        let s2 = s.insert(second, (k2, x2));
        assert forall|j: int| 0 <= j < second + 1 implies (#[trigger] s1[j]).0 <= k2 by {
            if j < first {
                assert(s1[j] == s[j]);
            } else if j > first {
                assert(s1[j] == s[j - 1]);
            }
        }
        if second + 1 < s1.len() {
            assert(s1[second + 1] == s[second]);
        }
        lemma_key_position_unique(s1, k2, second + 1);
        assert forall|j: int| 0 <= j < first implies (#[trigger] s2[j]).0 <= k1 by {
            assert(s2[j] == s[j]);
        }
        if first < s2.len() {
            if first < second {
                assert(s2[first] == s[first]);
            } else {
                assert(s2[first] == (k2, x2));
            }
        }
        lemma_key_position_unique(s2, k1, first);
        assert(s1.insert(second + 1, (k2, x2)) =~= s2.insert(first, (k1, x1)));
    }
}

/// Two entries with different keys can be put into a list in either order.
pub proof fn lemma_insert_by_key_commute<T>(s: Seq<(usize, T)>, k1: usize, x1: T, k2: usize, x2: T)
    requires
        k1 != k2,
    ensures
        insert_by_key(insert_by_key(s, k1, x1), k2, x2) == insert_by_key(
            insert_by_key(s, k2, x2),
            k1,
            x1,
        ),
{
    if k1 < k2 {
        lemma_insert_by_key_commute_lt(s, k1, x1, k2, x2);
    } else {
        lemma_insert_by_key_commute_lt(s, k2, x2, k1, x1);
    }
}

/// Two edits of different places can be added in either order.
pub proof fn lemma_add_edit_commute(acc: ArrayEdits, e1: ArrayEdit, e2: ArrayEdit)
    requires
        independent(e1, e2),
    ensures
        add_edit(add_edit(acc, e1), e2) == add_edit(add_edit(acc, e2), e1),
{
    match (taken_place(e1), taken_place(e2)) {
        (Some(i), Some(j)) => {
            lemma_insert_by_key_commute(acc.deletes, i, (), j, ());
        },
        _ => {},
    }
    match (e1, e2) {
        (ArrayEdit::Change(i, v), ArrayEdit::Change(j, w)) => {
            lemma_insert_by_key_commute(acc.changes, i, v, j, w);
        },
        (ArrayEdit::Insert(i, v), ArrayEdit::Insert(j, w)) => {
            lemma_insert_by_key_commute(acc.inserts, i, v, j, w);
        },
        (ArrayEdit::Insert(i, v), ArrayEdit::Move(j, _, w)) => {
            lemma_insert_by_key_commute(acc.inserts, i, v, j, w);
        },
        (ArrayEdit::Move(i, _, v), ArrayEdit::Insert(j, w)) => {
            lemma_insert_by_key_commute(acc.inserts, i, v, j, w);
        },
        (ArrayEdit::Move(i, _, v), ArrayEdit::Move(j, _, w)) => {
            lemma_insert_by_key_commute(acc.inserts, i, v, j, w);
        },
        _ => {},
    }
    assert(add_edit(add_edit(acc, e1), e2) =~= add_edit(add_edit(acc, e2), e1));
}

/// An edit of a place of which no entry from `m` on speaks can be added
/// before those entries or after them.
pub proof fn lemma_collect_edits_commute(
    existing: Seq<Json>,
    d: Entries,
    m: int,
    acc: ArrayEdits,
    e: ArrayEdit,
)
    requires
        0 <= m <= d.len(),
        forall|x: int|
            m <= x < d.len() ==> independent(
                classify_edit(existing, (#[trigger] d[x]).0, d[x].1),
                e,
            ),
    ensures
        collect_edits(existing, d, m, add_edit(acc, e)) == add_edit(
            collect_edits(existing, d, m, acc),
            e,
        ),
    decreases d.len() - m,
{
    if m < d.len() {
        let c = classify_edit(existing, d[m].0, d[m].1);
        lemma_add_edit_commute(acc, e, c);
        lemma_collect_edits_commute(existing, d, m + 1, add_edit(acc, c), e);
    }
}

/// After the place at which an entry was put in, the entries are those of
/// the list before, one position later.
pub proof fn lemma_collect_edits_shift(
    existing: Seq<Json>,
    d: Entries,
    p: int,
    entry: (Seq<char>, Json),
    m: int,
    acc: ArrayEdits,
)
    requires
        0 <= p <= m <= d.len(),
    ensures
        collect_edits(existing, d.insert(p, entry), m + 1, acc) == collect_edits(
            existing,
            d,
            m,
            acc,
        ),
    decreases d.len() - m,
{
    if m < d.len() {
        assert(d.insert(p, entry)[m + 1] == d[m]);
        lemma_collect_edits_shift(
            existing,
            d,
            p,
            entry,
            m + 1,
            add_edit(acc, classify_edit(existing, d[m].0, d[m].1)),
        );
    }
}

/// The edits of a delta with one more entry, of a place of which no other
/// entry speaks, are the edits of the delta with the edit of that entry.
pub proof fn lemma_collect_edits_insert(
    existing: Seq<Json>,
    d: Entries,
    p: int,
    entry: (Seq<char>, Json),
    k: int,
    acc: ArrayEdits,
)
    requires
        0 <= k <= p <= d.len(),
        forall|x: int|
            0 <= x < d.len() ==> independent(
                classify_edit(existing, (#[trigger] d[x]).0, d[x].1),
                classify_edit(existing, entry.0, entry.1),
            ),
    ensures
        collect_edits(existing, d.insert(p, entry), k, acc) == add_edit(
            collect_edits(existing, d, k, acc),
            classify_edit(existing, entry.0, entry.1),
        ),
    decreases p - k,
{
    let e = classify_edit(existing, entry.0, entry.1);
    let di = d.insert(p, entry);
    if k < p {
        assert(di[k] == d[k]);
        lemma_collect_edits_insert(
            existing,
            d,
            p,
            entry,
            k + 1,
            add_edit(acc, classify_edit(existing, d[k].0, d[k].1)),
        );
    } else {
        assert(di[p] == entry);
        lemma_collect_edits_shift(existing, d, p, entry, p, add_edit(acc, e));
        lemma_collect_edits_commute(existing, d, p, acc, e);
    }
}

/// The key of the delta of a place names that place.
pub proof fn lemma_edit_index_of_index_key(i: nat)
    requires
        i <= usize::MAX,
    ensures
        is_old_place(index_key(i)),
        edit_index(index_key(i)) == Some(i as usize),
{
    lemma_parse_decimal_of_decimal(i);
    assert(index_key(i).skip(1) =~= decimal(i));
}

/// The key of the addition at a place names that place of the new array.
pub proof fn lemma_edit_index_of_insertion_key(i: nat)
    requires
        i <= usize::MAX,
    ensures
        !is_old_place(insertion_key(i)),
        edit_index(insertion_key(i)) == Some(i as usize),
{
    lemma_parse_decimal_of_decimal(i);
    crate::text::lemma_decimal_digits(i);
    assert(crate::text::is_digit(decimal(i)[0]));
}

/// Whether a key is one of the two keys of a place.
pub open spec fn names_place(key: Seq<char>, m: nat) -> bool {
    key == index_key(m) || key == insertion_key(m)
}

/// A key of a place names that place.
pub proof fn lemma_names_place(key: Seq<char>, m: nat)
    requires
        m <= usize::MAX,
        names_place(key, m),
    ensures
        edit_index(key) == Some(m as usize),
{
    lemma_edit_index_of_index_key(m);
    lemma_edit_index_of_insertion_key(m);
}

/// An edit that is no move speaks of the place that its key names.
pub proof fn lemma_edit_place(existing: Seq<Json>, key: Seq<char>, sub: Json)
    ensures
        ({
            let e = classify_edit(existing, key, sub);
            &&& e is Delete ==> taken_place(e) == edit_index(key)
            &&& e is Change ==> changed_place(e) == edit_index(key)
            &&& e is Insert || e is Move ==> filled_place(e) == edit_index(key)
        }),
{
}

/// Whether no entry of a delta is a move.
pub open spec fn without_moves(existing: Seq<Json>, d: Entries) -> bool {
    forall|x: int|
        0 <= x < d.len() ==> !(classify_edit(existing, (#[trigger] d[x]).0, d[x].1) is Move)
}

/// Whether a key is a key of a place below `n`.
pub open spec fn key_below(key: Seq<char>, n: nat) -> bool {
    exists|m: nat| m < n && #[trigger] names_place(key, m)
}

/// Whether every key of the entries is a key of a place below `n`.
pub open spec fn keys_below(d: Entries, n: nat) -> bool {
    forall|x: int| 0 <= x < d.len() ==> key_below((#[trigger] d[x]).0, n)
}

/// Putting the delta of place `n` into a delta without moves that speaks
/// of lower places only adds its edit, and the delta then speaks of places
/// up to `n`.
pub proof fn lemma_insert_index_entry(
    existing: Seq<Json>,
    d: Entries,
    n: nat,
    key: Seq<char>,
    sub: Json,
)
    requires
        n <= usize::MAX,
        names_place(key, n),
        keys_below(d, n),
        without_moves(existing, d),
        !(classify_edit(existing, key, sub) is Move),
    ensures
        keys_below(insert_entry(d, key, sub), n + 1),
        without_moves(existing, insert_entry(d, key, sub)),
        collect_edits(existing, insert_entry(d, key, sub), 0, no_edits()) == add_edit(
            collect_edits(existing, d, 0, no_edits()),
            classify_edit(existing, key, sub),
        ),
{
    lemma_names_place(key, n);
    assert forall|x: int| 0 <= x < d.len() implies (#[trigger] d[x]).0 != key && independent(
        classify_edit(existing, d[x].0, d[x].1),
        classify_edit(existing, key, sub),
    ) by {
        assert(key_below(d[x].0, n));
        let m = choose|m: nat| m < n && #[trigger] names_place(d[x].0, m);
        lemma_names_place(d[x].0, m);
        lemma_edit_place(existing, d[x].0, d[x].1);
        lemma_edit_place(existing, key, sub);
    }
    lemma_key_index_from(d, key, 0);
    assert(key_index(d, key) is None);
    lemma_insert_position_from(d, key, 0);
    let p = insert_position_from(d, key, 0);
    let di = d.insert(p, (key, sub));
    assert(insert_entry(d, key, sub) == di);
    assert forall|x: int| 0 <= x < di.len() implies !(classify_edit(
        existing,
        (#[trigger] di[x]).0,
        di[x].1,
    ) is Move) by {
        if x < p {
            assert(di[x] == d[x]);
        } else if x > p {
            assert(di[x] == d[x - 1]);
        }
    }
    assert forall|x: int| 0 <= x < di.len() implies key_below((#[trigger] di[x]).0, n + 1) by {
        if x < p {
            assert(di[x] == d[x]);
            assert(key_below(d[x].0, n));
            let m = choose|m: nat| m < n && #[trigger] names_place(d[x].0, m);
            assert(m < n + 1 && names_place(di[x].0, m));
        } else if x == p {
            assert(n < n + 1 && names_place(di[x].0, n));
        } else {
            assert(di[x] == d[x - 1]);
            assert(key_below(d[x - 1].0, n));
            let m = choose|m: nat| m < n && #[trigger] names_place(d[x - 1].0, m);
            assert(m < n + 1 && names_place(di[x].0, m));
        }
    }
    lemma_collect_edits_insert(existing, d, p, (key, sub), 0, no_edits());
}

/// The places of the old array from the length of the new one up to `n`:
/// the deletions that the delta of the two holds for the places below `n`.
pub open spec fn expected_deletes(a_len: nat, b_len: nat, n: nat) -> Seq<(usize, ())> {
    let top = if n <= a_len {
        n
    } else {
        a_len
    };
    Seq::new(
        if top >= b_len {
            (top - b_len) as nat
        } else {
            0
        },
        |t: int| ((b_len + t) as usize, ()),
    )
}

/// The items of the new array from the length of the old one up to `n`,
/// with their places: the insertions of the delta for the places below `n`.
pub open spec fn expected_inserts(a_len: nat, b: Seq<Json>, n: nat) -> Seq<(usize, Json)> {
    let top = if n <= b.len() {
        n
    } else {
        b.len()
    };
    Seq::new(
        if top >= a_len {
            (top - a_len) as nat
        } else {
            0
        },
        |t: int| ((a_len + t) as usize, b[a_len + t]),
    )
}

/// The items of the new array at the places below `n` where the two arrays
/// differ, with their places: the changes of the delta for those places.
pub open spec fn expected_changes(a: Seq<Json>, b: Seq<Json>, n: nat) -> Seq<(usize, Json)>
    decreases n,
{
    if n == 0 {
        Seq::empty()
    } else if n - 1 < a.len() && n - 1 < b.len() && a[n - 1] != b[n - 1] {
        expected_changes(a, b, (n - 1) as nat).push(((n - 1) as usize, b[n - 1]))
    } else {
        expected_changes(a, b, (n - 1) as nat)
    }
}

/// The edits that the delta of two arrays holds for the places below `n`.
pub open spec fn expected_edits(a: Seq<Json>, b: Seq<Json>, n: nat) -> ArrayEdits {
    ArrayEdits {
        deletes: expected_deletes(a.len(), b.len(), n),
        changes: expected_changes(a, b, n),
        inserts: expected_inserts(a.len(), b, n),
    }
}

pub proof fn lemma_expected_changes_keys(a: Seq<Json>, b: Seq<Json>, n: nat)
    requires
        n <= usize::MAX,
    ensures
        forall|x: int|
            0 <= x < expected_changes(a, b, n).len() ==> (#[trigger] expected_changes(a, b, n)[x]).0
                < n,
    decreases n,
{
    if n > 0 {
        lemma_expected_changes_keys(a, b, (n - 1) as nat);
        let less = expected_changes(a, b, (n - 1) as nat);
        let list = expected_changes(a, b, n);
        assert forall|x: int| 0 <= x < list.len() implies (#[trigger] list[x]).0 < n by {
            if x < less.len() {
                assert(list[x] == less[x]);
            }
        }
    }
}

/// Whether a delta patches the value that is there: it is no array, or an
/// array with the shape of none of the other leaves.
pub open spec fn is_nested_delta(d: Json) -> bool {
    match d {
        Json::Array(arr) => !is_deletion(arr) && !is_move(arr) && arr.len() != 1 && arr.len() != 2,
        _ => true,
    }
}

/// Whether the delta of the two items at every place is either the change
/// of the whole item or a delta that patches the old item to the new.
pub open spec fn items_round_trip(a: Seq<Json>, b: Seq<Json>, o: DiffOptions) -> bool {
    forall|i: int|
        0 <= i < a.len() && i < b.len() && a[i] != b[i] ==> {
            ||| #[trigger] delta(a[i], b[i], o) == change(a[i], b[i])
            ||| (is_nested_delta(delta(a[i], b[i], o)) && patched(a[i], delta(a[i], b[i], o))
                == b[i])
        }
}

/// The edits of the delta of two arrays are the expected ones.
pub proof fn lemma_array_delta_edits(a: Seq<Json>, b: Seq<Json>, i: nat, o: DiffOptions, acc: Entries)
    requires
        a.len() <= usize::MAX,
        b.len() <= usize::MAX,
        i <= longer(a.len(), b.len()),
        keys_below(acc, i),
        without_moves(a, acc),
        collect_edits(a, acc, 0, no_edits()) == expected_edits(a, b, i),
        items_round_trip(a, b, o),
    ensures
        collect_edits(a, array_delta_simple(a, b, i as int, o, acc), 0, no_edits())
            == expected_edits(a, b, longer(a.len(), b.len())),
    decreases longer(a.len(), b.len()) - i,
{
    let top = longer(a.len(), b.len());
    if i < top {
        let before = expected_edits(a, b, i);
        let after = expected_edits(a, b, i + 1);
        lemma_edit_index_of_index_key(i);
        lemma_expected_changes_keys(a, b, i);
        let key = index_key(i);
        if i < a.len() && i < b.len() {
            assert(expected_deletes(a.len(), b.len(), i + 1) =~= expected_deletes(
                a.len(),
                b.len(),
                i,
            ));
            assert(expected_inserts(a.len(), b, i + 1) =~= expected_inserts(a.len(), b, i));
            if a[i as int] == b[i as int] {
                assert(after =~= before);
                assert forall|x: int| 0 <= x < acc.len() implies key_below(
                    (#[trigger] acc[x]).0,
                    i + 1,
                ) by {
                    assert(key_below(acc[x].0, i));
                    let m = choose|m: nat| m < i && #[trigger] names_place(acc[x].0, m);
                    assert(m < i + 1 && names_place(acc[x].0, m));
                }
                lemma_array_delta_edits(a, b, i + 1, o, acc);
            } else {
                let d = delta(a[i as int], b[i as int], o);
                let e = classify_edit(a, key, d);
                assert(e == ArrayEdit::Change(i as usize, b[i as int])) by {
                    if d == change(a[i as int], b[i as int]) {
                        assert(d->Array_0.len() == 2);
                        assert(d->Array_0[1] == b[i as int]);
                    }
                }
                lemma_insert_index_entry(a, acc, i, key, d);
                lemma_key_position_unique(before.changes, i as usize, before.changes.len() as int);
                assert(insert_by_key(before.changes, i as usize, b[i as int]) =~= after.changes);
                assert(add_edit(before, e) =~= after);
                lemma_array_delta_edits(a, b, i + 1, o, insert_entry(acc, key, d));
            }
        } else if i < a.len() {
            let d = deletion(a[i as int]);
            let e = classify_edit(a, key, d);
            assert(is_deletion(d->Array_0));
            assert(e == ArrayEdit::Delete(i as usize));
            lemma_insert_index_entry(a, acc, i, key, d);
            lemma_key_position_unique(before.deletes, i as usize, before.deletes.len() as int);
            assert(insert_by_key(before.deletes, i as usize, ()) =~= after.deletes);
            assert(expected_inserts(a.len(), b, i + 1) =~= expected_inserts(a.len(), b, i));
            assert(add_edit(before, e) =~= after);
            lemma_array_delta_edits(a, b, i + 1, o, insert_entry(acc, key, d));
        } else {
            let d = addition(b[i as int]);
            let key = insertion_key(i);
            lemma_edit_index_of_insertion_key(i);
            let e = classify_edit(a, key, d);
            assert(d->Array_0.len() == 1);
            assert(!is_deletion(d->Array_0));
            assert(!is_move(d->Array_0));
            assert(e == ArrayEdit::Insert(i as usize, b[i as int]));
            lemma_insert_index_entry(a, acc, i, key, d);
            lemma_key_position_unique(before.inserts, i as usize, before.inserts.len() as int);
            assert(insert_by_key(before.inserts, i as usize, b[i as int]) =~= after.inserts);
            assert(expected_deletes(a.len(), b.len(), i + 1) =~= expected_deletes(
                a.len(),
                b.len(),
                i,
            ));
            assert(add_edit(before, e) =~= after);
            lemma_array_delta_edits(a, b, i + 1, o, insert_entry(acc, key, d));
        }
    }
}

/// The expected deletions cut the old array down to the length of the new.
pub proof fn lemma_apply_expected_deletes(a: Seq<Json>, b_len: nat, n: int)
    requires
        a.len() <= usize::MAX,
        b_len <= a.len(),
        0 <= n <= a.len() - b_len,
    ensures
        apply_deletes(a.take(b_len + n), expected_deletes(a.len(), b_len, a.len()), n) == a.take(
            b_len as int,
        ),
    decreases n,
{
    if n > 0 {
        let list = expected_deletes(a.len(), b_len, a.len());
        assert(list[n - 1].0 == b_len + n - 1);
        assert(a.take(b_len + n).remove(b_len + n - 1) =~= a.take(b_len + n - 1));
        lemma_apply_expected_deletes(a, b_len, n - 1);
    }
}

/// Changing by a list with one more entry is changing by the list and then
/// by that entry.
pub proof fn lemma_apply_changes_push(
    items: Seq<Json>,
    list: Seq<(usize, Json)>,
    e: (usize, Json),
    k: int,
)
    requires
        0 <= k <= list.len(),
    ensures
        apply_changes(items, list.push(e), k) == ({
            let r = apply_changes(items, list, k);
            if e.0 < r.len() {
                r.update(e.0 as int, e.1)
            } else {
                r
            }
        }),
    decreases list.len() - k,
{
    let more = list.push(e);
    if k < list.len() {
        assert(more[k] == list[k]);
        lemma_apply_changes_push(
            if list[k].0 < items.len() {
                items.update(list[k].0 as int, list[k].1)
            } else {
                items
            },
            list,
            e,
            k + 1,
        );
    } else {
        assert(more[k] == e);
        let next = if e.0 < items.len() {
            items.update(e.0 as int, e.1)
        } else {
            items
        };
        assert(apply_changes(next, more, k + 1) == next);
    }
}

/// The expected changes for the places below `n` make those places equal
/// to the new array and leave the others as they were.
pub proof fn lemma_apply_expected_changes(a: Seq<Json>, b: Seq<Json>, n: nat)
    requires
        n <= a.len() <= usize::MAX,
        n <= b.len(),
    ensures
        apply_changes(a, expected_changes(a, b, n), 0).len() == a.len(),
        forall|i: int| 0 <= i < n ==> apply_changes(a, expected_changes(a, b, n), 0)[i] == b[i],
        forall|i: int|
            n <= i < a.len() ==> apply_changes(a, expected_changes(a, b, n), 0)[i] == a[i],
    decreases n,
{
    if n > 0 {
        lemma_apply_expected_changes(a, b, (n - 1) as nat);
        if a[n - 1] != b[n - 1] {
            lemma_apply_changes_push(
                a,
                expected_changes(a, b, (n - 1) as nat),
                ((n - 1) as usize, b[n - 1]),
                0,
            );
        }
    }
}

/// The expected changes stop at the shorter of the two arrays.
pub proof fn lemma_expected_changes_top(a: Seq<Json>, b: Seq<Json>, m: nat, n: nat)
    requires
        m == if a.len() <= b.len() {
            a.len()
        } else {
            b.len()
        },
        m <= n,
    ensures
        expected_changes(a, b, n) == expected_changes(a, b, m),
    decreases n,
{
    if n > m {
        lemma_expected_changes_top(a, b, m, (n - 1) as nat);
    }
}

/// The expected insertions append the items of the new array beyond the
/// length of the old one.
pub proof fn lemma_apply_expected_inserts(a_len: nat, b: Seq<Json>, k: int)
    requires
        a_len <= b.len() <= usize::MAX,
        0 <= k <= b.len() - a_len,
    ensures
        apply_inserts(b.take(a_len + k), expected_inserts(a_len, b, b.len()), k) == b,
    decreases b.len() - a_len - k,
{
    let list = expected_inserts(a_len, b, b.len());
    if k < list.len() {
        assert(list[k] == ((a_len + k) as usize, b[a_len + k]));
        assert(b.take(a_len + k).insert(a_len + k, b[a_len + k]) =~= b.take(a_len + k + 1));
        lemma_apply_expected_inserts(a_len, b, k + 1);
    } else {
        assert(b.take(a_len + k) =~= b);
    }
}

/// Applying the delta of two arrays, compared place by place, to the old
/// array gives the new one.
pub proof fn lemma_array_round_trip(a: Seq<Json>, b: Seq<Json>, o: DiffOptions)
    requires
        a.len() <= usize::MAX,
        b.len() <= usize::MAX,
        items_round_trip(a, b, o),
    ensures
        edited_array(a, array_delta_simple(a, b, 0, o, Seq::empty())) == b,
{
    let top = longer(a.len(), b.len());
    let m: nat = if a.len() <= b.len() {
        a.len()
    } else {
        b.len()
    };
    let none = Seq::<(Seq<char>, Json)>::empty();
    assert(expected_deletes(a.len(), b.len(), 0) =~= Seq::empty());
    assert(expected_inserts(a.len(), b, 0) =~= Seq::empty());
    assert(expected_changes(a, b, 0) =~= Seq::empty());
    assert(expected_edits(a, b, 0) == no_edits());
    assert(collect_edits(a, none, 0, no_edits()) == no_edits());
    lemma_array_delta_edits(a, b, 0, o, none);
    let e = expected_edits(a, b, top);
    // the changes
    lemma_expected_changes_top(a, b, m, top);
    lemma_apply_expected_changes(a, b, m);
    let after_changes = apply_changes(a, e.changes, 0);
    // the deletions
    let after_deletes = apply_deletes(after_changes, e.deletes, e.deletes.len() as int);
    if a.len() > b.len() {
        assert(after_changes.take(a.len() as int) =~= after_changes);
        lemma_apply_expected_deletes(after_changes, b.len(), a.len() - b.len());
    } else {
        assert(after_changes.take(m as int) =~= after_changes);
    }
    assert(after_deletes == after_changes.take(m as int));
    assert(after_deletes =~= b.take(m as int));
    // the insertions
    if b.len() > a.len() {
        lemma_apply_expected_inserts(a.len(), b, 0);
    } else {
        assert(b.take(m as int) =~= b);
    }
    assert(apply_inserts(after_deletes, e.inserts, 0) == b);
}

} // verus!
