//! A structural delta of documents in canonical form is in canonical form.

use crate::delta::{
    addition, change, deletion, index_key, insertion_key, move_marker, text_delta, text_delta_or_change,
    text_op_json, text_ops_json, EditOp,
};
use crate::diff::{
    array_delta_simple, delta, longer, move_step, moves_phase, no_moves, object_delta, rest_phase,
    MovePlan,
};
use crate::options::DiffOptions;
use crate::patch::{
    add_edit, apply_changes, apply_deletes, apply_inserts, classify_edit,
    collect_edits, edited_array, insert_by_key, is_deletion, is_text_diff,
    key_position, lemma_key_position, no_edits, patch_entries, patch_entry, patched,
    patched_by_leaf, ArrayEdit, ArrayEdits,
};
use crate::text::{lemma_text_lt_total, lemma_text_lt_transitive, text_lt};
use crate::value::{
    insert_entry, insert_position_from, items_wf, key_index, keys_sorted,
    lemma_insert_entry_sorted, lemma_insert_position_from, lemma_key_index_from,
    lemma_remove_entry_sorted, lookup, remove_entry, values_wf, wf_json, Entries, Json,
};
use vstd::prelude::*;

verus! {

/// Putting a value in canonical form under a key keeps the values of the
/// entries in canonical form.
pub proof fn lemma_insert_entry_values_wf(entries: Entries, key: Seq<char>, value: Json)
    requires
        values_wf(entries),
        wf_json(value),
    ensures
        values_wf(insert_entry(entries, key, value)),
{
    let next = insert_entry(entries, key, value);
    lemma_key_index_from(entries, key, 0);
    lemma_insert_position_from(entries, key, 0);
    assert forall|x: int| 0 <= x < next.len() implies wf_json((#[trigger] next[x]).1) by {
        match key_index(entries, key) {
            Some(k) => {
                if x != k {
                    assert(next[x] == entries[x]);
                }
            },
            None => {
                let p = insert_position_from(entries, key, 0);
                if x < p {
                    assert(next[x] == entries[x]);
                } else if x > p {
                    assert(next[x] == entries[x - 1]);
                }
            },
        }
    }
}

/// Taking a key away keeps the values of the entries in canonical form.
pub proof fn lemma_remove_entry_values_wf(entries: Entries, key: Seq<char>)
    requires
        values_wf(entries),
    ensures
        values_wf(remove_entry(entries, key)),
{
    let next = remove_entry(entries, key);
    lemma_key_index_from(entries, key, 0);
    assert forall|x: int| 0 <= x < next.len() implies wf_json((#[trigger] next[x]).1) by {
        match key_index(entries, key) {
            Some(k) => {
                if x < k {
                    assert(next[x] == entries[x]);
                } else {
                    assert(next[x] == entries[x + 1]);
                }
            },
            None => {},
        }
    }
}

/// The keys of the entries of a character diff ascend.
pub proof fn lemma_text_diff_keys_ascend()
    ensures
        text_lt("op"@, "range"@),
        text_lt("range"@, "text"@),
        text_lt("op"@, "text"@),
        text_lt("new_range"@, "new_text"@),
        text_lt("new_text"@, "old_range"@),
        text_lt("old_range"@, "old_text"@),
        text_lt("old_text"@, "op"@),
{
    reveal_strlit("op");
    reveal_strlit("range");
    reveal_strlit("text");
    reveal_strlit("new_range");
    reveal_strlit("new_text");
    reveal_strlit("old_range");
    reveal_strlit("old_text");
    reveal_with_fuel(text_lt, 6);
    assert("new_range"@.skip(1).skip(1).skip(1).skip(1) =~= "range"@);
    assert("new_text"@.skip(1).skip(1).skip(1).skip(1) =~= "text"@);
    assert("old_range"@.skip(1).skip(1).skip(1).skip(1) =~= "range"@);
    assert("old_text"@.skip(1).skip(1).skip(1).skip(1) =~= "text"@);
    assert(text_lt("range"@, "text"@));
    lemma_skip_prefix("new_range"@, "new_text"@, 4);
    lemma_skip_prefix("old_range"@, "old_text"@, 4);
    lemma_text_lt_transitive("new_range"@, "new_text"@, "old_range"@);
    lemma_text_lt_transitive("op"@, "range"@, "text"@);
}

/// Two texts that agree in their first `n` scalar values are ordered as
/// what follows those.
pub proof fn lemma_skip_prefix(a: Seq<char>, b: Seq<char>, n: int)
    requires
        0 <= n <= a.len(),
        n <= b.len(),
        forall|i: int| 0 <= i < n ==> a[i] == b[i],
    ensures
        text_lt(a, b) == text_lt(a.skip(n), b.skip(n)),
    decreases n,
{
    if n > 0 {
        assert forall|i: int| 0 <= i < n - 1 implies a.skip(1)[i] == b.skip(1)[i] by {
            assert(a.skip(1)[i] == a[i + 1]);
            assert(b.skip(1)[i] == b[i + 1]);
        }
        lemma_skip_prefix(a.skip(1), b.skip(1), n - 1);
        assert(a.skip(1).skip(n - 1) =~= a.skip(n));
        assert(b.skip(1).skip(n - 1) =~= b.skip(n));
    } else {
        assert(a.skip(0) =~= a);
        assert(b.skip(0) =~= b);
    }
}

/// The entry of a character diff for an edit step is in canonical form.
pub proof fn lemma_text_op_wf(old: Seq<char>, new: Seq<char>, op: EditOp)
    ensures
        match text_op_json(old, new, op) {
            Some(entry) => wf_json(entry),
            None => true,
        },
{
    lemma_text_diff_keys_ascend();
    match text_op_json(old, new, op) {
        Some(Json::Object(e)) => {
            assert(e.len() == 3 || e.len() == 5);
            assert forall|i: int, j: int| 0 <= i < j < e.len() implies text_lt(
                (#[trigger] e[i]).0,
                (#[trigger] e[j]).0,
            ) by {
                if e.len() == 5 {
                    lemma_text_lt_transitive("new_range"@, "new_text"@, "old_range"@);
                    lemma_text_lt_transitive("new_range"@, "old_range"@, "old_text"@);
                    lemma_text_lt_transitive("new_range"@, "old_text"@, "op"@);
                    lemma_text_lt_transitive("new_text"@, "old_range"@, "old_text"@);
                    lemma_text_lt_transitive("new_text"@, "old_text"@, "op"@);
                    lemma_text_lt_transitive("old_range"@, "old_text"@, "op"@);
                }
            }
            assert forall|i: int| 0 <= i < e.len() implies wf_json((#[trigger] e[i]).1) by {
                match e[i].1 {
                    Json::Array(range) => {
                        assert(range.len() == 2);
                        assert(forall|k: int| 0 <= k < range.len() ==> wf_json(#[trigger] range[k]));
                    },
                    _ => {},
                }
            }
        },
        _ => {},
    }
}

/// The entries of a character diff are in canonical form.
pub proof fn lemma_text_ops_wf(old: Seq<char>, new: Seq<char>, ops: Seq<EditOp>, i: int)
    requires
        0 <= i,
    ensures
        items_wf(text_ops_json(old, new, ops, i)),
    decreases ops.len() - i,
{
    let list = text_ops_json(old, new, ops, i);
    if i < ops.len() {
        lemma_text_ops_wf(old, new, ops, i + 1);
        lemma_text_op_wf(old, new, ops[i]);
        let rest = text_ops_json(old, new, ops, i + 1);
        match text_op_json(old, new, ops[i]) {
            Some(entry) => {
                assert forall|k: int| 0 <= k < list.len() implies wf_json(#[trigger] list[k]) by {
                    if k > 0 {
                        assert(list[k] == rest[k - 1]);
                    }
                }
            },
            None => {},
        }
    }
}

/// The delta that adds, deletes or changes values in canonical form is in
/// canonical form, and so is a move marker.
pub proof fn lemma_leaves_wf(old: Json, new: Json, from: u64)
    requires
        wf_json(old),
        wf_json(new),
    ensures
        wf_json(addition(new)),
        wf_json(deletion(old)),
        wf_json(change(old, new)),
        wf_json(move_marker(from)),
{
    let a = addition(new)->Array_0;
    assert(forall|k: int| 0 <= k < a.len() ==> wf_json(#[trigger] a[k]));
    let d = deletion(old)->Array_0;
    assert(forall|k: int| 0 <= k < d.len() ==> wf_json(#[trigger] d[k]));
    let c = change(old, new)->Array_0;
    assert(forall|k: int| 0 <= k < c.len() ==> wf_json(#[trigger] c[k]));
    let m = move_marker(from)->Array_0;
    assert(forall|k: int| 0 <= k < m.len() ==> wf_json(#[trigger] m[k]));
}

/// The delta of two strings is in canonical form.
pub proof fn lemma_text_delta_wf(old: Seq<char>, new: Seq<char>, ops: Seq<EditOp>)
    ensures
        wf_json(text_delta_or_change(old, new, ops)),
{
    lemma_leaves_wf(Json::Str(old), Json::Str(new), 0);
    lemma_text_ops_wf(old, new, ops, 0);
    let list = text_ops_json(old, new, ops, 0);
    let inner = seq![("text_diff"@, Json::Array(list))];
    assert(keys_sorted(inner));
    assert(wf_json(Json::Array(list)));
    assert(forall|k: int| 0 <= k < inner.len() ==> wf_json((#[trigger] inner[k]).1));
    let items = text_delta(old, new, ops)->Array_0;
    assert(items[0] == Json::Object(inner));
    assert(forall|k: int| 0 <= k < items.len() ==> wf_json(#[trigger] items[k]));
}

/// Whether a key comes before the keys of all the entries from position `i`
/// on.
pub open spec fn below(key: Seq<char>, entries: Entries, i: int) -> bool {
    forall|y: int| i <= y < entries.len() && 0 <= y ==> text_lt(key, (#[trigger] entries[y]).0)
}

/// A key that comes before the keys of two objects, from the entries at
/// `i` and `j` on, comes before the keys of their delta.
pub proof fn lemma_object_delta_below(
    a: Entries,
    b: Entries,
    i: int,
    j: int,
    o: DiffOptions,
    key: Seq<char>,
)
    requires
        0 <= i <= a.len(),
        0 <= j <= b.len(),
        below(key, a, i),
        below(key, b, j),
    ensures
        below(key, object_delta(a, b, i, j, o), 0),
    decreases (a.len() - i) + (b.len() - j),
{
    let d = object_delta(a, b, i, j, o);
    if i >= a.len() && j >= b.len() {
    } else if j >= b.len() || (i < a.len() && text_lt(a[i].0, b[j].0)) {
        lemma_object_delta_below(a, b, i + 1, j, o, key);
        let rest = object_delta(a, b, i + 1, j, o);
        assert forall|y: int| 0 <= y < d.len() implies text_lt(key, (#[trigger] d[y]).0) by {
            if y > 0 {
                assert(d[y] == rest[y - 1]);
            } else {
                assert(d[0].0 == a[i].0);
            }
        }
    } else if i >= a.len() || text_lt(b[j].0, a[i].0) {
        lemma_object_delta_below(a, b, i, j + 1, o, key);
        let rest = object_delta(a, b, i, j + 1, o);
        assert forall|y: int| 0 <= y < d.len() implies text_lt(key, (#[trigger] d[y]).0) by {
            if y > 0 {
                assert(d[y] == rest[y - 1]);
            } else {
                assert(d[0].0 == b[j].0);
            }
        }
    } else {
        lemma_object_delta_below(a, b, i + 1, j + 1, o, key);
        let rest = object_delta(a, b, i + 1, j + 1, o);
        if a[i].1 != b[j].1 {
            assert forall|y: int| 0 <= y < d.len() implies text_lt(key, (#[trigger] d[y]).0) by {
                if y > 0 {
                    assert(d[y] == rest[y - 1]);
                } else {
                    assert(d[0].0 == a[i].0);
                }
            }
        }
    }
}

/// The entries of a list that begins with one more entry ascend, where
/// those of the rest do and the key of the first comes before them.
pub proof fn lemma_cons_sorted(head: (Seq<char>, Json), rest: Entries)
    requires
        keys_sorted(rest),
        below(head.0, rest, 0),
    ensures
        keys_sorted(seq![head] + rest),
{
    let all = seq![head] + rest;
    assert forall|x: int, y: int| 0 <= x < y < all.len() implies text_lt(
        (#[trigger] all[x]).0,
        (#[trigger] all[y]).0,
    ) by {
        assert(all[y] == rest[y - 1]);
        if x > 0 {
            assert(all[x] == rest[x - 1]);
        }
    }
}

/// The values of a list that begins with one more entry are in canonical
/// form, where those of the rest and that of the first are.
pub proof fn lemma_cons_values_wf(head: (Seq<char>, Json), rest: Entries)
    requires
        values_wf(rest),
        wf_json(head.1),
    ensures
        values_wf(seq![head] + rest),
{
    let all = seq![head] + rest;
    assert forall|x: int| 0 <= x < all.len() implies wf_json((#[trigger] all[x]).1) by {
        if x > 0 {
            assert(all[x] == rest[x - 1]);
        }
    }
}

/// The keys of entries in ascending order from position `i + 1` on come
/// after the key at `i`.
pub proof fn lemma_sorted_below(entries: Entries, i: int)
    requires
        keys_sorted(entries),
        0 <= i < entries.len(),
    ensures
        below(entries[i].0, entries, i + 1),
{
}

/// A key that comes before the key at position `i` of entries in ascending
/// order comes before all the keys from `i` on.
pub proof fn lemma_before_all(entries: Entries, i: int, key: Seq<char>)
    requires
        keys_sorted(entries),
        0 <= i < entries.len(),
        text_lt(key, entries[i].0),
    ensures
        below(key, entries, i),
{
    assert forall|y: int| i <= y < entries.len() && 0 <= y implies text_lt(
        key,
        (#[trigger] entries[y]).0,
    ) by {
        if y > i {
            lemma_text_lt_transitive(key, entries[i].0, entries[y].0);
        }
    }
}

/// The delta of two documents in canonical form is in canonical form.
pub proof fn lemma_delta_wf(old: Json, new: Json, o: DiffOptions)
    requires
        wf_json(old),
        wf_json(new),
    ensures
        wf_json(delta(old, new, o)),
    decreases old, 0nat,
{
    lemma_leaves_wf(old, new, 0);
    if old == new {
        let none = Seq::<(Seq<char>, Json)>::empty();
        assert(keys_sorted(none) && values_wf(none));
    } else {
        match (old, new) {
            (Json::Object(a), Json::Object(b)) => {
                lemma_object_delta_wf(a, b, 0, 0, o);
            },
            (Json::Array(a), Json::Array(b)) => {
                let none = Seq::<(Seq<char>, Json)>::empty();
                assert(keys_sorted(none) && values_wf(none));
                if crate::diff::searches_moves(a, b, o) {
                    let start = no_moves(a.len(), b.len());
                    lemma_moves_phase_wf(a, b, 0, start);
                    let plan = moves_phase(a, b, 0, start);
                    lemma_rest_phase_wf(a, b, 0, plan.used_old, plan.used_new, o, plan.marks);
                } else {
                    lemma_array_delta_simple_wf(a, b, 0, o, none);
                }
            },
            (Json::Str(a), Json::Str(b)) => {
                lemma_text_delta_wf(a, b, crate::delta::myers_edit_script(a, b));
            },
            _ => {},
        }
    }
}

/// The delta of two objects in canonical form, from the entries at `i` and
/// `j` on, has its keys in ascending order and its values in canonical
/// form.
pub proof fn lemma_object_delta_wf(a: Entries, b: Entries, i: int, j: int, o: DiffOptions)
    requires
        keys_sorted(a),
        keys_sorted(b),
        values_wf(a),
        values_wf(b),
        0 <= i <= a.len(),
        0 <= j <= b.len(),
    ensures
        keys_sorted(object_delta(a, b, i, j, o)),
        values_wf(object_delta(a, b, i, j, o)),
    decreases a, (a.len() - i) + (b.len() - j),
{
    if i >= a.len() && j >= b.len() {
    } else if j >= b.len() || (i < a.len() && text_lt(a[i].0, b[j].0)) {
        let head = (a[i].0, deletion(a[i].1));
        let rest = object_delta(a, b, i + 1, j, o);
        lemma_object_delta_wf(a, b, i + 1, j, o);
        lemma_sorted_below(a, i);
        if j < b.len() {
            lemma_before_all(b, j, a[i].0);
        }
        lemma_object_delta_below(a, b, i + 1, j, o, a[i].0);
        lemma_leaves_wf(a[i].1, a[i].1, 0);
        lemma_cons_sorted(head, rest);
        lemma_cons_values_wf(head, rest);
    } else if i >= a.len() || text_lt(b[j].0, a[i].0) {
        let head = (b[j].0, addition(b[j].1));
        let rest = object_delta(a, b, i, j + 1, o);
        lemma_object_delta_wf(a, b, i, j + 1, o);
        lemma_sorted_below(b, j);
        if i < a.len() {
            lemma_before_all(a, i, b[j].0);
        }
        lemma_object_delta_below(a, b, i, j + 1, o, b[j].0);
        lemma_leaves_wf(b[j].1, b[j].1, 0);
        lemma_cons_sorted(head, rest);
        lemma_cons_values_wf(head, rest);
    } else {
        lemma_object_delta_wf(a, b, i + 1, j + 1, o);
        if a[i].1 != b[j].1 {
            let head = (a[i].0, delta(a[i].1, b[j].1, o));
            let rest = object_delta(a, b, i + 1, j + 1, o);
            lemma_text_lt_total(a[i].0, b[j].0);
            lemma_sorted_below(a, i);
            lemma_sorted_below(b, j);
            lemma_object_delta_below(a, b, i + 1, j + 1, o, a[i].0);
            lemma_delta_wf(a[i].1, b[j].1, o);
            lemma_cons_sorted(head, rest);
            lemma_cons_values_wf(head, rest);
        }
    }
}

/// The delta of two arrays in canonical form, compared place by place from
/// place `i` on and added to entries in canonical form, is in canonical
/// form.
pub proof fn lemma_array_delta_simple_wf(a: Seq<Json>, b: Seq<Json>, i: int, o: DiffOptions, acc: Entries)
    requires
        items_wf(a),
        items_wf(b),
        keys_sorted(acc),
        values_wf(acc),
        0 <= i,
    ensures
        keys_sorted(array_delta_simple(a, b, i, o, acc)),
        values_wf(array_delta_simple(a, b, i, o, acc)),
    decreases a, longer(a.len(), b.len()) - i,
{
    if i < longer(a.len(), b.len()) {
        let key = index_key(i as nat);
        if i < a.len() && i < b.len() {
            if a[i] == b[i] {
                lemma_array_delta_simple_wf(a, b, i + 1, o, acc);
            } else {
                let d = delta(a[i], b[i], o);
                lemma_delta_wf(a[i], b[i], o);
                lemma_insert_entry_sorted(acc, key, d);
                lemma_insert_entry_values_wf(acc, key, d);
                lemma_array_delta_simple_wf(a, b, i + 1, o, insert_entry(acc, key, d));
            }
        } else if i < a.len() {
            let d = deletion(a[i]);
            lemma_leaves_wf(a[i], a[i], 0);
            lemma_insert_entry_sorted(acc, key, d);
            lemma_insert_entry_values_wf(acc, key, d);
            lemma_array_delta_simple_wf(a, b, i + 1, o, insert_entry(acc, key, d));
        } else {
            let d = addition(b[i]);
            let key = insertion_key(i as nat);
            lemma_leaves_wf(b[i], b[i], 0);
            lemma_insert_entry_sorted(acc, key, d);
            lemma_insert_entry_values_wf(acc, key, d);
            lemma_array_delta_simple_wf(a, b, i + 1, o, insert_entry(acc, key, d));
        }
    }
}

/// The move markers that the search for moves leaves are in canonical
/// form.
pub proof fn lemma_moves_phase_wf(ha: Seq<Json>, hb: Seq<Json>, j: int, plan: MovePlan)
    requires
        0 <= j,
        keys_sorted(plan.marks),
        values_wf(plan.marks),
    ensures
        keys_sorted(moves_phase(ha, hb, j, plan).marks),
        values_wf(moves_phase(ha, hb, j, plan).marks),
    decreases hb.len() - j,
{
    if j < hb.len() {
        let next = move_step(ha, hb, j, plan);
        let k = crate::diff::first_free_match(ha, plan.used_old, hb[j], 0);
        if k < ha.len() && k != j {
            lemma_leaves_wf(Json::Null, Json::Null, k as u64);
            lemma_insert_entry_sorted(plan.marks, index_key(j as nat), move_marker(k as u64));
            lemma_insert_entry_values_wf(plan.marks, index_key(j as nat), move_marker(k as u64));
        }
        lemma_moves_phase_wf(ha, hb, j + 1, next);
    }
}

/// The delta of two arrays in canonical form after the search for moves,
/// from place `i` on and added to entries in canonical form, is in
/// canonical form.
pub proof fn lemma_rest_phase_wf(
    a: Seq<Json>,
    b: Seq<Json>,
    i: int,
    used_old: Seq<bool>,
    used_new: Seq<bool>,
    o: DiffOptions,
    acc: Entries,
)
    requires
        items_wf(a),
        items_wf(b),
        keys_sorted(acc),
        values_wf(acc),
        0 <= i,
    ensures
        keys_sorted(rest_phase(a, b, i, used_old, used_new, o, acc)),
        values_wf(rest_phase(a, b, i, used_old, used_new, o, acc)),
    decreases a, longer(a.len(), b.len()) - i,
{
    if i < longer(a.len(), b.len()) {
        let key = index_key(i as nat);
        if i < a.len() && i < b.len() && !used_old[i] && !used_new[i] {
            if a[i] == b[i] {
                lemma_rest_phase_wf(a, b, i + 1, used_old, used_new, o, acc);
            } else {
                let d = delta(a[i], b[i], o);
                lemma_delta_wf(a[i], b[i], o);
                lemma_insert_entry_sorted(acc, key, d);
                lemma_insert_entry_values_wf(acc, key, d);
                lemma_rest_phase_wf(a, b, i + 1, used_old, used_new, o, insert_entry(acc, key, d));
            }
        } else if i < a.len() && !used_old[i] {
            let d = deletion(a[i]);
            lemma_leaves_wf(a[i], a[i], 0);
            lemma_insert_entry_sorted(acc, key, d);
            lemma_insert_entry_values_wf(acc, key, d);
            lemma_rest_phase_wf(a, b, i + 1, used_old, used_new, o, insert_entry(acc, key, d));
        } else if i < b.len() && !used_new[i] {
            let d = addition(b[i]);
            let key = insertion_key(i as nat);
            lemma_leaves_wf(b[i], b[i], 0);
            lemma_insert_entry_sorted(acc, key, d);
            lemma_insert_entry_values_wf(acc, key, d);
            lemma_rest_phase_wf(a, b, i + 1, used_old, used_new, o, insert_entry(acc, key, d));
        } else {
            lemma_rest_phase_wf(a, b, i + 1, used_old, used_new, o, acc);
        }
    }
}

/// Whether the values of a list of edits are in canonical form.
pub open spec fn payloads_wf(list: Seq<(usize, Json)>) -> bool {
    forall|i: int| 0 <= i < list.len() ==> wf_json((#[trigger] list[i]).1)
}

/// Whether the values of the edits of an array are in canonical form.
pub open spec fn edits_wf(e: ArrayEdits) -> bool {
    payloads_wf(e.changes) && payloads_wf(e.inserts)
}

/// Whether the value of an edit is in canonical form.
pub open spec fn edit_wf(e: ArrayEdit) -> bool {
    match e {
        ArrayEdit::Change(_, v) => wf_json(v),
        ArrayEdit::Insert(_, v) => wf_json(v),
        ArrayEdit::Move(_, _, v) => wf_json(v),
        _ => true,
    }
}

/// Putting a value in canonical form into a list of edits keeps the values
/// of the list in canonical form.
pub proof fn lemma_insert_by_key_wf(list: Seq<(usize, Json)>, key: usize, value: Json)
    requires
        payloads_wf(list),
        wf_json(value),
    ensures
        payloads_wf(insert_by_key(list, key, value)),
{
    lemma_key_position(list, key, 0);
    let p = key_position(list, key, 0);
    let next = insert_by_key(list, key, value);
    assert forall|i: int| 0 <= i < next.len() implies wf_json((#[trigger] next[i]).1) by {
        if i < p {
            assert(next[i] == list[i]);
        } else if i > p {
            assert(next[i] == list[i - 1]);
        }
    }
}

/// What an object in canonical form holds under a key is in canonical
/// form.
pub proof fn lemma_lookup_wf(entries: Entries, key: Seq<char>)
    requires
        values_wf(entries),
    ensures
        match lookup(entries, key) {
            Some(v) => wf_json(v),
            None => true,
        },
{
    lemma_key_index_from(entries, key, 0);
}

/// The array after deletions keeps its items in canonical form.
pub proof fn lemma_apply_deletes_wf(items: Seq<Json>, deletes: Seq<(usize, ())>, n: int)
    requires
        items_wf(items),
    ensures
        items_wf(apply_deletes(items, deletes, n)),
    decreases n,
{
    if 0 < n <= deletes.len() {
        let idx = deletes[n - 1].0;
        if idx < items.len() {
            let next = items.remove(idx as int);
            assert forall|i: int| 0 <= i < next.len() implies wf_json(#[trigger] next[i]) by {
                if i < idx {
                    assert(next[i] == items[i]);
                } else {
                    assert(next[i] == items[i + 1]);
                }
            }
            lemma_apply_deletes_wf(next, deletes, n - 1);
        } else {
            lemma_apply_deletes_wf(items, deletes, n - 1);
        }
    }
}

/// The array after changes in canonical form keeps its items in canonical
/// form.
pub proof fn lemma_apply_changes_wf(items: Seq<Json>, changes: Seq<(usize, Json)>, i: int)
    requires
        items_wf(items),
        payloads_wf(changes),
        0 <= i,
    ensures
        items_wf(apply_changes(items, changes, i)),
    decreases changes.len() - i,
{
    if i < changes.len() {
        let next = if changes[i].0 < items.len() {
            items.update(changes[i].0 as int, changes[i].1)
        } else {
            items
        };
        assert forall|k: int| 0 <= k < next.len() implies wf_json(#[trigger] next[k]) by {
            if changes[i].0 < items.len() && k != changes[i].0 {
                assert(next[k] == items[k]);
            }
        }
        lemma_apply_changes_wf(next, changes, i + 1);
    }
}

/// The array after insertions in canonical form keeps its items in
/// canonical form.
pub proof fn lemma_apply_inserts_wf(items: Seq<Json>, inserts: Seq<(usize, Json)>, i: int)
    requires
        items_wf(items),
        payloads_wf(inserts),
        0 <= i,
    ensures
        items_wf(apply_inserts(items, inserts, i)),
    decreases inserts.len() - i,
{
    if i < inserts.len() {
        let at = if inserts[i].0 <= items.len() {
            inserts[i].0 as int
        } else {
            items.len() as int
        };
        let next = items.insert(at, inserts[i].1);
        assert forall|k: int| 0 <= k < next.len() implies wf_json(#[trigger] next[k]) by {
            if k < at {
                assert(next[k] == items[k]);
            } else if k > at {
                assert(next[k] == items[k - 1]);
            }
        }
        lemma_apply_inserts_wf(next, inserts, i + 1);
    }
}

/// Adding an edit in canonical form keeps the edits in canonical form.
pub proof fn lemma_add_edit_wf(acc: ArrayEdits, e: ArrayEdit)
    requires
        edits_wf(acc),
        edit_wf(e),
    ensures
        edits_wf(add_edit(acc, e)),
{
    match e {
        ArrayEdit::Change(idx, v) => {
            lemma_insert_by_key_wf(acc.changes, idx, v);
        },
        ArrayEdit::Insert(idx, v) => {
            lemma_insert_by_key_wf(acc.inserts, idx, v);
        },
        ArrayEdit::Move(to, _, v) => {
            lemma_insert_by_key_wf(acc.inserts, to, v);
        },
        _ => {},
    }
}

/// The document after a delta is in canonical form, where the document
/// and the delta are.
pub proof fn lemma_patched_wf(doc: Json, patch: Json)
    requires
        wf_json(doc),
        wf_json(patch),
    ensures
        wf_json(patched(doc, patch)),
    decreases patch, 2nat,
{
    match patch {
        Json::Object(p) => {
            match doc {
                Json::Object(entries) => {
                    lemma_patch_entries_wf(entries, p, 0);
                },
                Json::Array(items) => {
                    lemma_edited_array_wf(items, p);
                },
                _ => {},
            }
        },
        Json::Array(p) => {
            lemma_patched_by_leaf_wf(doc, p);
        },
        _ => {},
    }
}

/// The document after a leaf of a delta is in canonical form.
pub proof fn lemma_patched_by_leaf_wf(doc: Json, p: Seq<Json>)
    requires
        wf_json(doc),
        items_wf(p),
    ensures
        wf_json(patched_by_leaf(doc, p)),
{
    if !is_text_diff(p) {
        if p.len() == 1 {
            assert(wf_json(p[0]));
        } else if p.len() == 2 {
            assert(wf_json(p[1]));
        }
    }
}

/// The entries of an object after the entries of a delta from position `i`
/// on are in canonical form.
pub proof fn lemma_patch_entries_wf(state: Entries, p: Entries, i: int)
    requires
        keys_sorted(state),
        values_wf(state),
        values_wf(p),
        0 <= i,
    ensures
        keys_sorted(patch_entries(state, p, i)),
        values_wf(patch_entries(state, p, i)),
    decreases p, p.len() - i,
{
    if i < p.len() {
        lemma_patch_entry_wf(state, p[i].0, p[i].1);
        lemma_patch_entries_wf(patch_entry(state, p[i].0, p[i].1), p, i + 1);
    }
}

/// The entries of an object after one entry of a delta are in canonical
/// form.
pub proof fn lemma_patch_entry_wf(state: Entries, key: Seq<char>, pv: Json)
    requires
        keys_sorted(state),
        values_wf(state),
        wf_json(pv),
    ensures
        keys_sorted(patch_entry(state, key, pv)),
        values_wf(patch_entry(state, key, pv)),
    decreases pv, 4nat,
{
    lemma_lookup_wf(state, key);
    lemma_remove_entry_sorted(state, key);
    lemma_remove_entry_values_wf(state, key);
    match (lookup(state, key), pv) {
        (Some(Json::Array(items)), Json::Object(pe)) => {
            lemma_edited_array_wf(items, pe);
            let v = Json::Array(edited_array(items, pe));
            lemma_insert_entry_sorted(state, key, v);
            lemma_insert_entry_values_wf(state, key, v);
        },
        _ => {
            {
                let existing = lookup(state, key);
                match pv {
                    Json::Array(arr) => {
                        if is_deletion(arr) {
                        } else if arr.len() == 1 {
                            assert(wf_json(arr[0]));
                            lemma_insert_entry_sorted(state, key, arr[0]);
                            lemma_insert_entry_values_wf(state, key, arr[0]);
                        } else if arr.len() == 2 {
                            assert(wf_json(arr[1]));
                            lemma_insert_entry_sorted(state, key, arr[1]);
                            lemma_insert_entry_values_wf(state, key, arr[1]);
                        } else {
                            lemma_patch_nested_wf(state, key, pv);
                        }
                    },
                    _ => {
                        lemma_patch_nested_wf(state, key, pv);
                    },
                }
            }
        },
    }
}

/// The entries of an object after a delta patched the value under a key,
/// or was set as that value, are in canonical form.
pub proof fn lemma_patch_nested_wf(state: Entries, key: Seq<char>, pv: Json)
    requires
        keys_sorted(state),
        values_wf(state),
        wf_json(pv),
    ensures
        ({
            let v = match lookup(state, key) {
                Some(existing) => patched(existing, pv),
                None => pv,
            };
            keys_sorted(insert_entry(state, key, v)) && values_wf(insert_entry(state, key, v))
        }),
    decreases pv, 3nat,
{
    lemma_lookup_wf(state, key);
    let v = match lookup(state, key) {
        Some(existing) => patched(existing, pv),
        None => pv,
    };
    match lookup(state, key) {
        Some(existing) => {
            lemma_patched_wf(existing, pv);
        },
        None => {},
    }
    lemma_insert_entry_sorted(state, key, v);
    lemma_insert_entry_values_wf(state, key, v);
}

/// The edit that an entry of an array delta asks for is in canonical form.
pub proof fn lemma_classify_edit_wf(existing: Seq<Json>, key: Seq<char>, sub: Json)
    requires
        items_wf(existing),
        wf_json(sub),
    ensures
        edit_wf(classify_edit(existing, key, sub)),
    decreases sub, 3nat,
{
    match classify_edit(existing, key, sub) {
        ArrayEdit::Change(idx, v) => {
            match sub {
                Json::Array(arr) => {
                    if arr.len() == 2 && !is_deletion(arr) && !crate::patch::is_move(arr) {
                        assert(wf_json(arr[1]));
                    } else {
                        assert(wf_json(existing[idx as int]));
                        lemma_patched_wf(existing[idx as int], sub);
                    }
                },
                _ => {
                    assert(wf_json(existing[idx as int]));
                    lemma_patched_wf(existing[idx as int], sub);
                },
            }
        },
        ArrayEdit::Insert(idx, v) => {
            match sub {
                Json::Array(arr) => {
                    assert(wf_json(arr[0]));
                },
                _ => {},
            }
        },
        _ => {},
    }
}

/// The edits of an array delta in canonical form are in canonical form.
pub proof fn lemma_collect_edits_wf(existing: Seq<Json>, d: Entries, i: int, acc: ArrayEdits)
    requires
        items_wf(existing),
        values_wf(d),
        edits_wf(acc),
        0 <= i,
    ensures
        edits_wf(collect_edits(existing, d, i, acc)),
    decreases d, d.len() - i,
{
    if i < d.len() {
        lemma_classify_edit_wf(existing, d[i].0, d[i].1);
        lemma_add_edit_wf(acc, classify_edit(existing, d[i].0, d[i].1));
        lemma_collect_edits_wf(
            existing,
            d,
            i + 1,
            add_edit(acc, classify_edit(existing, d[i].0, d[i].1)),
        );
    }
}

/// The array after an array delta is in canonical form.
pub proof fn lemma_edited_array_wf(existing: Seq<Json>, d: Entries)
    requires
        items_wf(existing),
        values_wf(d),
    ensures
        items_wf(edited_array(existing, d)),
    decreases d, d.len() + 1,
{
    assert(edits_wf(no_edits()));
    lemma_collect_edits_wf(existing, d, 0, no_edits());
    let e = collect_edits(existing, d, 0, no_edits());
    lemma_apply_changes_wf(existing, e.changes, 0);
    let r1 = apply_changes(existing, e.changes, 0);
    lemma_apply_deletes_wf(r1, e.deletes, e.deletes.len() as int);
    let r2 = apply_deletes(r1, e.deletes, e.deletes.len() as int);
    lemma_apply_inserts_wf(r2, e.inserts, 0);
}

/// The entries put together from pairs with values in canonical form have
/// their values in canonical form.
pub proof fn lemma_entries_from_pairs_values_wf(pairs: Entries, i: int, acc: Entries)
    requires
        0 <= i,
        values_wf(pairs),
        values_wf(acc),
    ensures
        values_wf(crate::value::entries_from_pairs(pairs, i, acc)),
    decreases pairs.len() - i,
{
    if i < pairs.len() {
        lemma_insert_entry_values_wf(acc, pairs[i].0, pairs[i].1);
        lemma_entries_from_pairs_values_wf(pairs, i + 1, insert_entry(acc, pairs[i].0, pairs[i].1));
    }
}

} // verus!
