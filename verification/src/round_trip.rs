//! What holds of a structural delta and its application together.

use crate::array_round_trip::{is_nested_delta, lemma_array_round_trip};
use crate::delta::{addition, change, deletion, myers_edit_script, replayable_script};
use crate::text_round_trip::lemma_text_round_trip;
use crate::diff::{delta, object_delta, searches_moves, uses_text_diff};
use crate::move_round_trip::{free_new, free_old, lemma_moves_round_trip, moves_safe};
use crate::options::DiffOptions;
use crate::patch::{
    apply_changes, apply_deletes, apply_inserts, collect_edits, edited_array,
    no_edits, patch_entries, patch_entry, patched,
};
use crate::text::{
    lemma_text_lt_asymmetric, lemma_text_lt_irreflexive, lemma_text_lt_total,
    lemma_text_lt_transitive, text_lt,
};
use crate::value::{
    insert_position_from, key_index, lemma_insert_position_from, lemma_key_index_from, lookup,
    representable, wf_json, Entries, Json,
};
use vstd::prelude::*;

verus! {

/// The delta of a document to itself is empty, and applying it gives the
/// document back.
pub proof fn lemma_diff_of_equal_documents(doc: Json, o: DiffOptions)
    ensures
        delta(doc, doc, o) == Json::Object(Seq::empty()),
        patched(doc, delta(doc, doc, o)) == doc,
{
    let empty = Seq::<(Seq<char>, Json)>::empty();
    match doc {
        Json::Object(entries) => {
            assert(patch_entries(entries, empty, 0) == entries);
        },
        Json::Array(items) => {
            let e = collect_edits(items, empty, 0, no_edits());
            assert(e == no_edits());
            assert(apply_changes(items, e.changes, 0) == items);
            assert(apply_deletes(items, e.deletes, 0) == items);
            assert(apply_inserts(items, e.inserts, 0) == items);
            assert(edited_array(items, empty) == items);
        },
        _ => {},
    }
}

/// The first entry of the second part is the first with its key, where no
/// entry of the first part has that key.
pub proof fn lemma_key_index_hit(p: Entries, r: Entries, key: Seq<char>)
    requires
        r.len() > 0,
        r[0].0 == key,
        forall|x: int| 0 <= x < p.len() ==> (#[trigger] p[x]).0 != key,
    ensures
        key_index(p + r, key) == Some(p.len() as int),
{
    lemma_key_index_from(p + r, key, 0);
    assert((p + r)[p.len() as int] == r[0]);
    match key_index(p + r, key) {
        Some(i) => {
            if i < p.len() {
                assert((p + r)[i] == p[i]);
            }
        },
        None => {},
    }
}

/// No entry has the key, where none of either part has it.
pub proof fn lemma_key_index_miss(p: Entries, r: Entries, key: Seq<char>)
    requires
        forall|x: int| 0 <= x < p.len() ==> (#[trigger] p[x]).0 != key,
        forall|x: int| 0 <= x < r.len() ==> (#[trigger] r[x]).0 != key,
    ensures
        key_index(p + r, key) is None,
{
    lemma_key_index_from(p + r, key, 0);
    match key_index(p + r, key) {
        Some(i) => {
            if i < p.len() {
                assert((p + r)[i] == p[i]);
            } else {
                assert((p + r)[i] == r[i - p.len()]);
            }
        },
        None => {},
    }
}

/// A key that comes after every key of the first part and before the first
/// key of the second part is put between the two.
pub proof fn lemma_insert_position_between(p: Entries, r: Entries, key: Seq<char>)
    requires
        forall|x: int| 0 <= x < p.len() ==> !text_lt(key, (#[trigger] p[x]).0),
        r.len() == 0 || text_lt(key, r[0].0),
    ensures
        insert_position_from(p + r, key, 0) == p.len(),
{
    lemma_insert_position_from(p + r, key, 0);
    let pos = insert_position_from(p + r, key, 0);
    if pos < p.len() {
        assert((p + r)[pos] == p[pos]);
    } else if pos > p.len() {
        assert((p + r)[p.len() as int] == r[0]);
    }
}

/// Patching with a delta that begins with one entry is patching with that
/// entry and then with the rest.
pub proof fn lemma_patch_entries_shift(
    state: Entries,
    head: (Seq<char>, Json),
    rest: Entries,
    k: int,
)
    requires
        0 <= k,
    ensures
        patch_entries(state, seq![head] + rest, k + 1) == patch_entries(state, rest, k),
    decreases rest.len() - k,
{
    let p = seq![head] + rest;
    if k < rest.len() {
        assert(p[k + 1] == rest[k]);
        lemma_patch_entries_shift(patch_entry(state, rest[k].0, rest[k].1), head, rest, k + 1);
    }
}

pub proof fn lemma_patch_entries_cons(state: Entries, head: (Seq<char>, Json), rest: Entries)
    ensures
        patch_entries(state, seq![head] + rest, 0) == patch_entries(
            patch_entry(state, head.0, head.1),
            rest,
            0,
        ),
{
    let p = seq![head] + rest;
    assert(p[0] == head);
    lemma_patch_entries_shift(patch_entry(state, head.0, head.1), head, rest, 0);
}

/// Whether the items of two arrays at a common place are compared with
/// one another: always where the arrays are compared place by place, and
/// where the search for moves takes neither of them.
pub open spec fn compared(a: Seq<Json>, b: Seq<Json>, o: DiffOptions, i: int) -> bool {
    searches_moves(a, b, o) ==> 0 <= i < free_old(a, b).len() && i < free_new(a, b).len()
        && !free_old(a, b)[i] && !free_new(a, b)[i]
}

/// Whether applying the delta from `old` to `new` is certain to give
/// `new`. It is where the two are equal. The values of two objects under
/// a common key must themselves qualify. The items of two arrays that are
/// compared with one another must themselves qualify; where the arrays are
/// searched for moves, no place of the old array that the search leaves
/// free may receive a moved item, since the delta has one key for the
/// deletion at a place and the move to it. Two strings always qualify.
pub open spec fn round_trip_safe(old: Json, new: Json, o: DiffOptions) -> bool
    decreases old,
{
    if old == new {
        true
    } else {
        match (old, new) {
            (Json::Object(a), Json::Object(b)) => {
                forall|i: int, j: int|
                    0 <= i < a.len() && 0 <= j < b.len() && (#[trigger] a[i]).0 == (
                    #[trigger] b[j]).0 ==> round_trip_safe(a[i].1, b[j].1, o)
            },
            (Json::Array(a), Json::Array(b)) => {
                &&& searches_moves(a, b, o) ==> moves_safe(a, b)
                &&& forall|i: int|
                    0 <= i < a.len() && i < b.len() && compared(a, b, o, i) ==> round_trip_safe(
                        #[trigger] a[i],
                        b[i],
                        o,
                    )
            },
            _ => true,
        }
    }
}

/// Applying the delta of two objects, from the entries at `i` and `j` on,
/// to the entries of the new object before `j` followed by those of the old
/// object from `i` gives the new object.
pub proof fn lemma_object_round_trip(a: Entries, b: Entries, i: int, j: int, o: DiffOptions)
    requires
        wf_json(Json::Object(a)),
        wf_json(Json::Object(b)),
        representable(Json::Object(a)),
        representable(Json::Object(b)),
        Json::Object(a) != Json::Object(b),
        round_trip_safe(Json::Object(a), Json::Object(b), o),
        0 <= i <= a.len(),
        0 <= j <= b.len(),
        forall|x: int, y: int| 0 <= x < j && i <= y < a.len() ==> text_lt(b[x].0, a[y].0),
        forall|x: int, y: int| 0 <= x < i && j <= y < b.len() ==> text_lt(a[x].0, b[y].0),
    ensures
        patch_entries(b.take(j) + a.skip(i), object_delta(a, b, i, j, o), 0) == b,
    decreases a, (a.len() - i) + (b.len() - j),
{
    let p = b.take(j);
    let r = a.skip(i);
    let state = p + r;
    if i >= a.len() && j >= b.len() {
        assert(state =~= b);
    } else if j >= b.len() || (i < a.len() && text_lt(a[i].0, b[j].0)) {
        let key = a[i].0;
        let rest = object_delta(a, b, i + 1, j, o);
        lemma_patch_entries_cons(state, (key, deletion(a[i].1)), rest);
        // the key is in the old object alone
        assert forall|x: int| 0 <= x < p.len() implies (#[trigger] p[x]).0 != key by {
            lemma_text_lt_irreflexive(key);
        }
        assert forall|y: int| 0 <= y < b.len() implies (#[trigger] b[y]).0 != key by {
            lemma_text_lt_irreflexive(key);
            if y < j {
            } else {
                if y > j {
                    lemma_text_lt_transitive(a[i].0, b[j].0, b[y].0);
                }
            }
        }
        lemma_key_index_hit(p, r, key);
        assert(state.remove(p.len() as int) =~= p + a.skip(i + 1));
        assert(patch_entry(state, key, deletion(a[i].1)) == p + a.skip(i + 1));
        assert forall|x: int, y: int| 0 <= x < i + 1 && j <= y < b.len() implies text_lt(
            a[x].0,
            b[y].0,
        ) by {
            if x == i {
                if y > j {
                    lemma_text_lt_transitive(a[i].0, b[j].0, b[y].0);
                }
            }
        }
        lemma_object_round_trip(a, b, i + 1, j, o);
    } else if i >= a.len() || text_lt(b[j].0, a[i].0) {
        let key = b[j].0;
        let rest = object_delta(a, b, i, j + 1, o);
        lemma_patch_entries_cons(state, (key, addition(b[j].1)), rest);
        assert forall|x: int| 0 <= x < p.len() implies (#[trigger] p[x]).0 != key && !text_lt(
            key,
            p[x].0,
        ) by {
            lemma_text_lt_irreflexive(key);
            lemma_text_lt_asymmetric(b[x].0, b[j].0);
        }
        assert forall|x: int| 0 <= x < r.len() implies (#[trigger] r[x]).0 != key by {
            lemma_text_lt_irreflexive(key);
            if x > 0 {
                lemma_text_lt_transitive(b[j].0, a[i].0, a[i + x].0);
            }
        }
        assert forall|y: int| 0 <= y < a.len() implies (#[trigger] a[y]).0 != key by {
            lemma_text_lt_irreflexive(key);
            if y >= i {
                assert(a[y] == r[y - i]);
            }
        }
        lemma_key_index_miss(p, r, key);
        lemma_insert_position_between(p, r, key);
        assert(state.insert(p.len() as int, (key, b[j].1)) =~= b.take(j + 1) + r);
        assert(addition(b[j].1)->Array_0.len() == 1);
        assert(patch_entry(state, key, addition(b[j].1)) == b.take(j + 1) + r);
        assert forall|x: int, y: int| 0 <= x < j + 1 && i <= y < a.len() implies text_lt(
            b[x].0,
            a[y].0,
        ) by {
            if x == j {
                if y > i {
                    lemma_text_lt_transitive(b[j].0, a[i].0, a[y].0);
                }
            }
        }
        lemma_object_round_trip(a, b, i, j + 1, o);
    } else {
        let key = a[i].0;
        lemma_text_lt_total(a[i].0, b[j].0);
        assert(b[j].0 == key);
        assert forall|x: int, y: int| 0 <= x < j + 1 && i + 1 <= y < a.len() implies text_lt(
            b[x].0,
            a[y].0,
        ) by {
        }
        assert forall|x: int, y: int| 0 <= x < i + 1 && j + 1 <= y < b.len() implies text_lt(
            a[x].0,
            b[y].0,
        ) by {
        }
        if a[i].1 == b[j].1 {
            assert(a[i] == b[j]);
            assert(state =~= b.take(j + 1) + a.skip(i + 1));
            lemma_object_round_trip(a, b, i + 1, j + 1, o);
        } else {
            let va = a[i].1;
            let vb = b[j].1;
            let d = delta(va, vb, o);
            let rest = object_delta(a, b, i + 1, j + 1, o);
            lemma_patch_entries_cons(state, (key, d), rest);
            assert forall|x: int| 0 <= x < p.len() implies (#[trigger] p[x]).0 != key by {
                lemma_text_lt_irreflexive(key);
            }
            lemma_key_index_hit(p, r, key);
            assert(lookup(state, key) == Some(va));
            lemma_round_trip(va, vb, o);
            lemma_delta_shape(va, vb, o);
            assert(state.update(p.len() as int, (key, vb)) =~= b.take(j + 1) + a.skip(i + 1));
            assert(patch_entry(state, key, d) == b.take(j + 1) + a.skip(i + 1));
            lemma_object_round_trip(a, b, i + 1, j + 1, o);
        }
    }
}

/// The delta of two different documents that qualify is the change of the
/// whole value, or a delta that patches the value that is there.
pub proof fn lemma_delta_shape(old: Json, new: Json, o: DiffOptions)
    requires
        old != new,
        round_trip_safe(old, new, o),
    ensures
        delta(old, new, o) == change(old, new) || is_nested_delta(delta(old, new, o)),
{
    match (old, new) {
        (Json::Str(a), Json::Str(b)) => {
            if uses_text_diff(a, b, o) && replayable_script(myers_edit_script(a, b), a, b) {
                lemma_text_round_trip(a, b, myers_edit_script(a, b));
            }
        },
        _ => {},
    }
}

/// Applying the delta from `old` to `new` to `old` gives `new`, for two
/// documents in canonical form, such as values hold, that qualify.
pub proof fn lemma_round_trip(old: Json, new: Json, o: DiffOptions)
    requires
        wf_json(old),
        wf_json(new),
        representable(old),
        representable(new),
        round_trip_safe(old, new, o),
    ensures
        patched(old, delta(old, new, o)) == new,
    decreases old, 0nat,
{
    if old == new {
        lemma_diff_of_equal_documents(old, o);
    } else {
        match (old, new) {
            (Json::Object(a), Json::Object(b)) => {
                lemma_object_round_trip(a, b, 0, 0, o);
                assert(b.take(0) + a.skip(0) =~= a);
            },
            (Json::Array(a), Json::Array(b)) => {
                if searches_moves(a, b, o) {
                    let uo = free_old(a, b);
                    let un = free_new(a, b);
                    assert forall|i: int|
                        0 <= i < a.len() && i < b.len() && 0 <= i < uo.len() && i < un.len()
                            && !uo[i] && !un[i] && a[i] != b[i] implies {
                        ||| #[trigger] delta(a[i], b[i], o) == change(a[i], b[i])
                        ||| (is_nested_delta(delta(a[i], b[i], o)) && patched(
                            a[i],
                            delta(a[i], b[i], o),
                        ) == b[i])
                    } by {
                        assert(compared(a, b, o, i));
                        lemma_round_trip(a[i], b[i], o);
                        lemma_delta_shape(a[i], b[i], o);
                    }
                    lemma_moves_round_trip(a, b, o);
                } else {
                    assert forall|i: int|
                        0 <= i < a.len() && i < b.len() && a[i] != b[i] implies {
                        ||| #[trigger] delta(a[i], b[i], o) == change(a[i], b[i])
                        ||| (is_nested_delta(delta(a[i], b[i], o)) && patched(
                            a[i],
                            delta(a[i], b[i], o),
                        ) == b[i])
                    } by {
                        assert(compared(a, b, o, i));
                        lemma_round_trip(a[i], b[i], o);
                        lemma_delta_shape(a[i], b[i], o);
                    }
                    lemma_array_round_trip(a, b, o);
                }
            },
            (Json::Str(a), Json::Str(b)) => {
                if uses_text_diff(a, b, o) && replayable_script(myers_edit_script(a, b), a, b) {
                    lemma_text_round_trip(a, b, myers_edit_script(a, b));
                }
            },
            _ => {},
        }
    }
}

} // verus!
