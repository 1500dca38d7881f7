//! Applying a structural delta to a document.

use crate::delta::uint_json;
use crate::text::{chars_of, parse_index, parse_index_model, push_chars, slice_chars, string_of};
use crate::value::{
    array_model, entries_model, insert_entry, json_get, lookup, obj_get, obj_insert, obj_remove,
    remove_entry, same_text, Entries, Json, NumberModel, Value,
};
use vstd::prelude::*;

verus! {

/// The list with `(key, x)` put after every entry whose key is not larger:
/// a list that was in ascending key order stays so, and entries with equal
/// keys stay in the order in which they came.
pub open spec fn insert_by_key<T>(s: Seq<(usize, T)>, key: usize, x: T) -> Seq<(usize, T)> {
    s.insert(key_position(s, key, 0), (key, x))
}

/// The first position at or after `from` that holds a larger key, or the
/// length of the list.
pub open spec fn key_position<T>(s: Seq<(usize, T)>, key: usize, from: int) -> int
    decreases s.len() - from,
{
    if from < 0 || from >= s.len() {
        s.len() as int
    } else if s[from].0 > key {
        from
    } else {
        key_position(s, key, from + 1)
    }
}

pub proof fn lemma_key_position<T>(s: Seq<(usize, T)>, key: usize, from: int)
    requires
        0 <= from <= s.len(),
    ensures
        from <= key_position(s, key, from) <= s.len(),
        forall|j: int| from <= j < key_position(s, key, from) ==> (#[trigger] s[j]).0 <= key,
        key_position(s, key, from) < s.len() ==> s[key_position(s, key, from)].0 > key,
    decreases s.len() - from,
{
    if from < s.len() && s[from].0 <= key {
        lemma_key_position(s, key, from + 1);
    }
}

/// Puts `(key, x)` into a list kept in ascending key order.
pub fn insert_sorted<T>(v: &mut Vec<(usize, T)>, key: usize, x: T)
    ensures
        final(v)@ == insert_by_key(old(v)@, key, x),
{
    let mut i: usize = 0;
    let mut found = false;
    while !found && i < v.len()
        invariant
            i <= v.len(),
            v@ == old(v)@,
            found ==> i < v.len() && v[i as int].0 > key,
            key_position(v@, key, 0) == key_position(v@, key, i as int),
        decreases v.len() - i + if found { 0int } else { 1int },
    {
        if v[i].0 > key {
            found = true;
        } else {
            i += 1;
        }
    }
    v.insert(i, (key, x));
}

/// The models of a list of values with their indices.
pub open spec fn indexed_model(s: Seq<(usize, Value)>) -> Seq<(usize, Json)> {
    Seq::new(s.len(), |i: int| (s[i].0, s[i].1@))
}

/// The position of a key in a list depends on the keys alone.
pub proof fn lemma_key_position_model(s: Seq<(usize, Value)>, key: usize, from: int)
    requires
        0 <= from,
    ensures
        key_position(indexed_model(s), key, from) == key_position(s, key, from),
    decreases s.len() - from,
{
    if from < s.len() && s[from].0 <= key {
        lemma_key_position_model(s, key, from + 1);
    }
}

/// The model of a list with one more value is the model of the list with
/// the model of the value.
pub proof fn lemma_insert_by_key_model(s: Seq<(usize, Value)>, key: usize, x: Value)
    ensures
        indexed_model(insert_by_key(s, key, x)) == insert_by_key(indexed_model(s), key, x@),
{
    lemma_key_position_model(s, key, 0);
    lemma_key_position(s, key, 0);
    assert(indexed_model(insert_by_key(s, key, x)) =~= insert_by_key(indexed_model(s), key, x@));
}

/// The edits that a delta holds for an array, each list in ascending order
/// of its places: the places of the old array whose items are taken out,
/// the places of the old array to change with their new values, and the
/// places at which to put items in with those items. A move takes an item
/// out of its old place and puts it in at its new one.
pub struct ArrayEdits {
    pub deletes: Seq<(usize, ())>,
    pub changes: Seq<(usize, Json)>,
    pub inserts: Seq<(usize, Json)>,
}

/// No edits.
pub open spec fn no_edits() -> ArrayEdits {
    ArrayEdits {
        deletes: Seq::empty(),
        changes: Seq::empty(),
        inserts: Seq::empty(),
    }
}

/// Whether a key of an array delta speaks of a place of the old array: it
/// begins with `_`.
pub open spec fn is_old_place(key: Seq<char>) -> bool {
    key.len() > 0 && key[0] == '_'
}

/// Whether a delta has the shape of a deletion, `[old, 0, 0]`.
pub open spec fn is_deletion(p: Seq<Json>) -> bool {
    p.len() == 3 && p[1] == uint_json(0) && p[2] == uint_json(0)
}

/// Whether a delta has the shape of a move marker, `["", .., 3]`.
pub open spec fn is_move(p: Seq<Json>) -> bool {
    p.len() == 3 && p[0] == Json::Str(Seq::empty()) && p[2] == uint_json(3)
}

/// Whether a delta has the shape of a character diff, `[.., 0, 2]`.
pub open spec fn is_text_diff(p: Seq<Json>) -> bool {
    p.len() == 3 && p[1] == uint_json(0) && p[2] == uint_json(2)
}

/// The document after a delta. An object delta patches an object entry by
/// entry and an array edit by edit; an array delta is one of the leaves;
/// any other delta is taken as the new document.
pub open spec fn patched(doc: Json, patch: Json) -> Json
    decreases patch, 2nat,
{
    match patch {
        Json::Object(p) => patched_by_object(doc, p),
        Json::Array(p) => patched_by_leaf(doc, p),
        _ => patch,
    }
}

/// The document after an object delta. A document that is neither an
/// object nor an array stays as it is.
pub open spec fn patched_by_object(doc: Json, p: Entries) -> Json
    decreases p, p.len() + 2,
{
    match doc {
        Json::Object(entries) => Json::Object(patch_entries(entries, p, 0)),
        Json::Array(items) => Json::Array(edited_array(items, p)),
        _ => doc,
    }
}

/// The entries of an object after the entries of a delta from position `i`
/// on, in order.
pub open spec fn patch_entries(state: Entries, p: Entries, i: int) -> Entries
    decreases p, (if i < p.len() { p.len() - i } else { 0 }),
{
    if i < 0 || i >= p.len() {
        state
    } else {
        patch_entries(patch_entry(state, p[i].0, p[i].1), p, i + 1)
    }
}

/// The entries of an object after one entry of a delta, whose key is the
/// name of a property whatever it begins with. An array under the key
/// takes an object delta as its edits. Otherwise a deletion removes the
/// key, an addition and a change set it; any other delta patches the value
/// under the key, or is set as that value where there is none.
pub open spec fn patch_entry(state: Entries, key: Seq<char>, pv: Json) -> Entries
    decreases pv, 3nat,
{
    match (lookup(state, key), pv) {
        (Some(Json::Array(items)), Json::Object(pe)) => insert_entry(
            state,
            key,
            Json::Array(edited_array(items, pe)),
        ),
        _ => match pv {
            Json::Array(arr) => if is_deletion(arr) {
                remove_entry(state, key)
            } else if arr.len() == 1 {
                insert_entry(state, key, arr[0])
            } else if arr.len() == 2 {
                insert_entry(state, key, arr[1])
            } else {
                match lookup(state, key) {
                    Some(existing) => insert_entry(state, key, patched(existing, pv)),
                    None => insert_entry(state, key, pv),
                }
            },
            _ => match lookup(state, key) {
                Some(existing) => insert_entry(state, key, patched(existing, pv)),
                None => insert_entry(state, key, pv),
            },
        },
    }
}

/// One edit of an array.
pub enum ArrayEdit {
    /// No edit.
    Nothing,
    /// Delete the item at a place.
    Delete(usize),
    /// Move an item: the destination, the source, and the item that stands
    /// at the source in the old array.
    Move(usize, usize, Json),
    /// Set the item at a place.
    Change(usize, Json),
    /// Insert an item at a place.
    Insert(usize, Json),
}

/// The place that a key of an array delta names: the numeral after `_`, or
/// the whole key where it is a numeral.
pub open spec fn edit_index(key: Seq<char>) -> Option<usize> {
    if is_old_place(key) {
        parse_index_model(key.skip(1))
    } else {
        parse_index_model(key)
    }
}

/// The edit that one entry of an array delta asks for. A key without `_`
/// that is a numeral inserts a one-item delta at that place. A key `_` and
/// a numeral deletes, moves, inserts or changes by the shape of its delta;
/// any other delta patches the item of the old array at that place. A move
/// names the place of the old array from which the item comes; one from a
/// place outside the old array asks for nothing, as any other entry does.
pub open spec fn classify_edit(existing: Seq<Json>, key: Seq<char>, sub: Json) -> ArrayEdit
    decreases sub, 3nat,
{
    match edit_index(key) {
        None => ArrayEdit::Nothing,
        Some(idx) => if !is_old_place(key) {
            match sub {
                Json::Array(arr) => if arr.len() == 1 {
                    ArrayEdit::Insert(idx, arr[0])
                } else {
                    ArrayEdit::Nothing
                },
                _ => ArrayEdit::Nothing,
            }
        } else {
            match sub {
                Json::Array(arr) => if is_deletion(arr) {
                    ArrayEdit::Delete(idx)
                } else if is_move(arr) {
                    match arr[1] {
                        Json::Number(NumberModel::PosInt(from)) => if from < existing.len() {
                            ArrayEdit::Move(idx, from as usize, existing[from as int])
                        } else {
                            ArrayEdit::Nothing
                        },
                        _ => ArrayEdit::Nothing,
                    }
                } else if arr.len() == 1 {
                    ArrayEdit::Insert(idx, arr[0])
                } else if arr.len() == 2 {
                    ArrayEdit::Change(idx, arr[1])
                } else if idx < existing.len() {
                    ArrayEdit::Change(idx, patched(existing[idx as int], sub))
                } else {
                    ArrayEdit::Nothing
                },
                _ => if idx < existing.len() {
                    ArrayEdit::Change(idx, patched(existing[idx as int], sub))
                } else {
                    ArrayEdit::Nothing
                },
            }
        },
    }
}

/// The edits with one more, put into its list in ascending order of the
/// places. A move is the taking out of its source and the putting in of
/// the item at its destination.
pub open spec fn add_edit(acc: ArrayEdits, e: ArrayEdit) -> ArrayEdits {
    match e {
        ArrayEdit::Nothing => acc,
        ArrayEdit::Delete(idx) => ArrayEdits { deletes: insert_by_key(acc.deletes, idx, ()), ..acc },
        ArrayEdit::Move(to, from, item) => ArrayEdits {
            deletes: insert_by_key(acc.deletes, from, ()),
            inserts: insert_by_key(acc.inserts, to, item),
            ..acc
        },
        ArrayEdit::Change(idx, v) => ArrayEdits { changes: insert_by_key(acc.changes, idx, v), ..acc },
        ArrayEdit::Insert(idx, v) => ArrayEdits { inserts: insert_by_key(acc.inserts, idx, v), ..acc },
    }
}

/// The edits with those of the entries of an array delta from position `i`
/// on, in order.
pub open spec fn collect_edits(existing: Seq<Json>, d: Entries, i: int, acc: ArrayEdits) -> ArrayEdits
    decreases d, (if i < d.len() { d.len() - i } else { 0 }),
{
    if i < 0 || i >= d.len() {
        acc
    } else {
        collect_edits(existing, d, i + 1, add_edit(acc, classify_edit(existing, d[i].0, d[i].1)))
    }
}

/// The array after the first `n` deletions of the list, the last of them
/// first; a place outside the array is passed over.
pub open spec fn apply_deletes(items: Seq<Json>, deletes: Seq<(usize, ())>, n: int) -> Seq<Json>
    decreases n,
{
    if n <= 0 || n > deletes.len() {
        items
    } else {
        let idx = deletes[n - 1].0;
        apply_deletes(
            if idx < items.len() {
                items.remove(idx as int)
            } else {
                items
            },
            deletes,
            n - 1,
        )
    }
}

/// The array after the changes of the list from position `i` on, in order;
/// a place outside the array is passed over.
pub open spec fn apply_changes(items: Seq<Json>, changes: Seq<(usize, Json)>, i: int) -> Seq<Json>
    decreases changes.len() - i,
{
    if i < 0 || i >= changes.len() {
        items
    } else {
        apply_changes(
            if changes[i].0 < items.len() {
                items.update(changes[i].0 as int, changes[i].1)
            } else {
                items
            },
            changes,
            i + 1,
        )
    }
}

/// The array after the insertions of the list from position `i` on, in
/// order; a place beyond the end inserts at the end.
pub open spec fn apply_inserts(items: Seq<Json>, inserts: Seq<(usize, Json)>, i: int) -> Seq<Json>
    decreases inserts.len() - i,
{
    if i < 0 || i >= inserts.len() {
        items
    } else {
        apply_inserts(
            items.insert(
                if inserts[i].0 <= items.len() {
                    inserts[i].0 as int
                } else {
                    items.len() as int
                },
                inserts[i].1,
            ),
            inserts,
            i + 1,
        )
    }
}

/// The array after edits: first the changes, at the places of the old
/// array; then the items to delete or to move are taken out, from the
/// highest place down; then the items to insert and the moved ones are put
/// in, in ascending order of their places. So a moved item is the one that
/// stood at the source of the move in the old array, and it comes to stand
/// at the destination where the places below that are filled.
pub open spec fn apply_edits(items: Seq<Json>, e: ArrayEdits) -> Seq<Json> {
    apply_inserts(
        apply_deletes(apply_changes(items, e.changes, 0), e.deletes, e.deletes.len() as int),
        e.inserts,
        0,
    )
}

/// The array after an array delta.
pub open spec fn edited_array(existing: Seq<Json>, d: Entries) -> Seq<Json>
    decreases d, d.len() + 1,
{
    apply_edits(existing, collect_edits(existing, d, 0, no_edits()))
}

/// The part of a text between two positions counted in scalar values; a
/// position beyond the end counts as the end.
pub open spec fn char_slice(s: Seq<char>, start: nat, end: nat) -> Seq<char> {
    if start >= end {
        Seq::empty()
    } else {
        s.subrange(
            if start <= s.len() {
                start as int
            } else {
                s.len() as int
            },
            if end <= s.len() {
                end as int
            } else {
                s.len() as int
            },
        )
    }
}

/// The number at place `i` of a range, or 0.
pub open spec fn range_bound(range: Seq<Json>, i: int) -> nat {
    match range[i] {
        Json::Number(NumberModel::PosInt(n)) => n as nat,
        _ => 0,
    }
}

/// The text of a string document, or the empty text.
pub open spec fn text_or_empty(v: Option<Json>) -> Seq<char> {
    match v {
        Some(Json::Str(s)) => s,
        _ => Seq::empty(),
    }
}

/// What has been written of the new text, and the position in the old text
/// up to which it has been read.
pub struct Replay {
    pub written: Seq<char>,
    pub pos: nat,
}

/// Where an insertion entry of a character diff puts its text in the new
/// text: the first number of its range, or 0.
pub open spec fn insert_start(op: Json) -> nat {
    match json_get(op, "range"@) {
        Some(Json::Array(range)) => if range.len() == 2 {
            range_bound(range, 0)
        } else {
            0
        },
        _ => 0,
    }
}

/// How much of the old text an insertion copies before it writes: what the
/// new text written so far lacks up to the place of the insertion, as far
/// as the old text goes.
pub open spec fn copied_before_insert(old_len: nat, pos: nat, written: nat, start: nat) -> nat {
    let gap = if start > written {
        (start - written) as nat
    } else {
        0
    };
    let left = if pos < old_len {
        (old_len - pos) as nat
    } else {
        0
    };
    if gap <= left {
        gap
    } else {
        left
    }
}

/// The replay after one entry of a character diff. A deletion copies the
/// old text up to its range and skips the range; a replacement does the
/// same and writes its new text; an insertion copies the old text until
/// what is written reaches the start of its range, and then writes its
/// text. Any other entry changes nothing.
pub open spec fn replay_step(old: Seq<char>, op: Json, r: Replay) -> Replay {
    let kind = text_or_empty(json_get(op, "op"@));
    if kind == "delete"@ {
        match json_get(op, "range"@) {
            Some(Json::Array(range)) => if range.len() == 2 {
                Replay {
                    written: r.written + char_slice(old, r.pos, range_bound(range, 0)),
                    pos: range_bound(range, 1),
                }
            } else {
                r
            },
            _ => r,
        }
    } else if kind == "replace"@ {
        match json_get(op, "old_range"@) {
            Some(Json::Array(range)) => if range.len() == 2 {
                Replay {
                    written: r.written + char_slice(old, r.pos, range_bound(range, 0))
                        + text_or_empty(json_get(op, "new_text"@)),
                    pos: range_bound(range, 1),
                }
            } else {
                r
            },
            _ => r,
        }
    } else if kind == "insert"@ {
        match json_get(op, "text"@) {
            Some(Json::Str(t)) => {
                let n = copied_before_insert(old.len(), r.pos, r.written.len(), insert_start(op));
                Replay { written: r.written + char_slice(old, r.pos, r.pos + n) + t, pos: r.pos + n }
            },
            _ => r,
        }
    } else {
        r
    }
}

/// The replay after the entries of a character diff from position `i` on.
pub open spec fn replay_from(old: Seq<char>, ops: Seq<Json>, i: int, r: Replay) -> Replay
    decreases ops.len() - i,
{
    if i < 0 || i >= ops.len() {
        r
    } else {
        replay_from(old, ops, i + 1, replay_step(old, ops[i], r))
    }
}

/// The text after a character diff: what its entries write, then the rest
/// of the old text.
pub open spec fn replay_text(old: Seq<char>, ops: Seq<Json>) -> Seq<char> {
    let r = replay_from(old, ops, 0, Replay { written: Seq::empty(), pos: 0 });
    r.written + char_slice(old, r.pos, old.len())
}

/// The document after a leaf of a delta: a character diff is replayed on a
/// string, an addition and a change give their new value, a deletion gives
/// null, and anything else leaves the document as it is.
pub open spec fn patched_by_leaf(doc: Json, p: Seq<Json>) -> Json {
    if is_text_diff(p) {
        match (doc, json_get(p[0], "text_diff"@)) {
            (Json::Str(old), Some(Json::Array(ops))) => Json::Str(replay_text(old, ops)),
            _ => doc,
        }
    } else if p.len() == 1 {
        p[0]
    } else if is_deletion(p) {
        Json::Null
    } else if p.len() == 2 {
        p[1]
    } else {
        doc
    }
}

/// A copy of the entries of an object.
pub fn clone_entries(entries: &Vec<(String, Value)>) -> (r: Vec<(String, Value)>)
    ensures
        entries_model(r@) == entries_model(entries@),
{
    let mut out: Vec<(String, Value)> = Vec::new();
    let mut i: usize = 0;
    while i < entries.len()
        invariant
            i <= entries.len(),
            out.len() == i,
            forall|j: int| 0 <= j < i ==> out[j].0@ == entries[j].0@ && out[j].1@ == entries[j].1@,
        decreases entries.len() - i,
    {
        out.push((entries[i].0.clone(), entries[i].1.deep_clone()));
        i += 1;
    }
    assert(entries_model(out@) =~= entries_model(entries@));
    out
}

/// A copy of the items of an array.
pub fn clone_items(items: &Vec<Value>) -> (r: Vec<Value>)
    ensures
        array_model(r@) == array_model(items@),
{
    let mut out: Vec<Value> = Vec::new();
    let mut i: usize = 0;
    while i < items.len()
        invariant
            i <= items.len(),
            out.len() == i,
            forall|j: int| 0 <= j < i ==> out[j]@ == items[j]@,
        decreases items.len() - i,
    {
        out.push(items[i].deep_clone());
        i += 1;
    }
    assert(array_model(out@) =~= array_model(items@));
    out
}

/// Whether a text begins with `_`.
pub fn key_is_old_place(key: &Vec<char>) -> (r: bool)
    ensures
        r == is_old_place(key@),
{
    key.len() > 0 && key[0] == '_'
}

/// Whether the items have the shape of a deletion.
pub fn items_are_deletion(p: &Vec<Value>) -> (r: bool)
    ensures
        r == is_deletion(array_model(p@)),
{
    p.len() == 3 && p[1].is_uint(0) && p[2].is_uint(0)
}

/// Whether the items have the shape of a move marker.
pub fn items_are_move(p: &Vec<Value>) -> (r: bool)
    ensures
        r == is_move(array_model(p@)),
{
    if p.len() != 3 {
        return false;
    }
    let first_empty = match &p[0] {
        Value::Str(s) => {
            let e = s.as_str().is_empty();
            proof {
                if e {
                    assert(s@ =~= Seq::<char>::empty());
                }
            }
            e
        },
        _ => false,
    };
    first_empty && p[2].is_uint(3)
}

/// Whether the items have the shape of a character diff.
pub fn items_are_text_diff(p: &Vec<Value>) -> (r: bool)
    ensures
        r == is_text_diff(array_model(p@)),
{
    p.len() == 3 && p[1].is_uint(0) && p[2].is_uint(2)
}

/// Applies a structural delta to a document; the result is in canonical
/// form where the document and the delta are.
pub fn apply_structural_patch(document: &Value, patch: &Value) -> (r: Value)
    ensures
        r@ == patched(document@, patch@),
        crate::value::wf_json(document@) && crate::value::wf_json(patch@) ==> crate::value::wf_json(
            r@,
        ),
    decreases patch, 2nat,
{
    proof {
        if crate::value::wf_json(document@) && crate::value::wf_json(patch@) {
            crate::canonical_laws::lemma_patched_wf(document@, patch@);
        }
    }
    match patch {
        Value::Object(patch_obj) => apply_object_patch(document, patch_obj),
        Value::Array(patch_arr) => apply_array_patch(document, patch_arr),
        _ => patch.deep_clone(),
    }
}

/// Applies an object delta to a document.
#[verifier::loop_isolation(false)]
pub fn apply_object_patch(document: &Value, patch_obj: &Vec<(String, Value)>) -> (r: Value)
    ensures
        r@ == patched_by_object(document@, entries_model(patch_obj@)),
    decreases patch_obj, patch_obj.len() + 2,
{
    let ghost p = entries_model(patch_obj@);
    match document {
        Value::Object(entries) => {
            let mut result = clone_entries(entries);
            let ghost start = entries_model(entries@);
            let mut i: usize = 0;
            while i < patch_obj.len()
                invariant
                    i <= patch_obj.len(),
                    patch_entries(entries_model(result@), p, i as int) == patch_entries(start, p, 0),
                decreases patch_obj.len() - i,
            {
                let key = &patch_obj[i].0;
                let patch_val = &patch_obj[i].1;
                let ghost state = entries_model(result@);
                let edited: Option<Value> = match (obj_get(&result, key.as_str()), patch_val) {
                    (Some(Value::Array(items)), Value::Object(pe)) => Some(
                        apply_array_delta(items, pe),
                    ),
                    _ => None,
                };
                match edited {
                    Some(new_array) => {
                        obj_insert(&mut result, key.clone(), new_array);
                    },
                    None => {
                        {
                            let kept: Option<Value> = match patch_val {
                                Value::Array(arr) => {
                                    if items_are_deletion(arr) {
                                        obj_remove(&mut result, key.as_str());
                                        None
                                    } else if arr.len() == 1 {
                                        Some(arr[0].deep_clone())
                                    } else if arr.len() == 2 {
                                        Some(arr[1].deep_clone())
                                    } else {
                                        match obj_get(&result, key.as_str()) {
                                            Some(existing) => Some(
                                                apply_structural_patch(existing, patch_val),
                                            ),
                                            None => Some(patch_val.deep_clone()),
                                        }
                                    }
                                },
                                _ => match obj_get(&result, key.as_str()) {
                                    Some(existing) => Some(
                                        apply_structural_patch(existing, patch_val),
                                    ),
                                    None => Some(patch_val.deep_clone()),
                                },
                            };
                            match kept {
                                Some(v) => {
                                    obj_insert(&mut result, key.clone(), v);
                                },
                                None => {},
                            }
                        }
                    },
                }
                assert(entries_model(result@) == patch_entry(state, p[i as int].0, p[i as int].1));
                i += 1;
            }
            Value::Object(result)
        },
        Value::Array(items) => apply_array_delta(items, patch_obj),
        _ => document.deep_clone(),
    }
}

/// Applies an array delta, given as the entries of an object, to the items
/// of an array.
#[verifier::loop_isolation(false)]
pub fn apply_array_delta(existing: &Vec<Value>, delta_obj: &Vec<(String, Value)>) -> (r: Value)
    ensures
        r@ == Json::Array(edited_array(array_model(existing@), entries_model(delta_obj@))),
    decreases delta_obj, delta_obj.len() + 1,
{
    let ghost items = array_model(existing@);
    let ghost d = entries_model(delta_obj@);
    let mut deletes: Vec<(usize, ())> = Vec::new();
    let mut inserts: Vec<(usize, Value)> = Vec::new();
    let mut changes: Vec<(usize, Value)> = Vec::new();
    assert(indexed_model(inserts@) =~= Seq::empty());
    assert(indexed_model(changes@) =~= Seq::empty());
    let mut i: usize = 0;
    while i < delta_obj.len()
        invariant
            i <= delta_obj.len(),
            collect_edits(
                items,
                d,
                i as int,
                ArrayEdits {
                    deletes: deletes@,
                    changes: indexed_model(changes@),
                    inserts: indexed_model(inserts@),
                },
            ) == collect_edits(items, d, 0, no_edits()),
        decreases delta_obj.len() - i,
    {
        let key = chars_of(delta_obj[i].0.as_str());
        let sub = &delta_obj[i].1;
        let ghost acc = ArrayEdits {
            deletes: deletes@,
            changes: indexed_model(changes@),
            inserts: indexed_model(inserts@),
        };
        let ghost want = add_edit(acc, classify_edit(items, d[i as int].0, d[i as int].1));
        assert(sub@ == d[i as int].1);
        assert(key@ == d[i as int].0);
        if !key_is_old_place(&key) {
            assert(edit_index(key@) == parse_index_model(key@));
            match parse_index(&key) {
                Some(idx) => match sub {
                    Value::Array(arr) => {
                        if arr.len() == 1 {
                            let v = arr[0].deep_clone();
                            proof {
                                lemma_insert_by_key_model(inserts@, idx, v);
                            }
                            insert_sorted(&mut inserts, idx, v);
                            assert(classify_edit(items, key@, sub@) == ArrayEdit::Insert(idx, v@));
                        } else {
                            assert(edit_index(key@) == Some(idx));
                            assert(sub@ == Json::Array(array_model(arr@)));
                            assert(array_model(arr@).len() != 1);
                            assert(!is_old_place(key@));
                            assert(classify_edit(items, key@, sub@) == ArrayEdit::Nothing);
                        }
                    },
                    _ => {
                        assert(!(sub@ is Array));
                        assert(classify_edit(items, key@, sub@) == ArrayEdit::Nothing);
                    },
                },
                None => {
                    assert(classify_edit(items, key@, sub@) == ArrayEdit::Nothing);
                },
            }
            assert(ArrayEdits {
                deletes: deletes@,
                changes: indexed_model(changes@),
                inserts: indexed_model(inserts@),
            } =~= want);
        } else {
            let rest = slice_chars(&key, 1, key.len());
            assert(rest@ =~= key@.skip(1));
            assert(edit_index(key@) == parse_index_model(rest@));
            match parse_index(&rest) {
                None => {},
                Some(idx) => {
                    let nested = match sub {
                        Value::Array(arr) => {
                            if items_are_deletion(arr) {
                                insert_sorted(&mut deletes, idx, ());
                                false
                            } else if items_are_move(arr) {
                                match arr[1].as_u64() {
                                    Some(from) => {
                                        if from < existing.len() as u64 {
                                            let v = existing[from as usize].deep_clone();
                                            proof {
                                                lemma_insert_by_key_model(inserts@, idx, v);
                                            }
                                            insert_sorted(&mut deletes, from as usize, ());
                                            insert_sorted(&mut inserts, idx, v);
                                        }
                                    },
                                    None => {},
                                }
                                false
                            } else if arr.len() == 1 {
                                let v = arr[0].deep_clone();
                                proof {
                                    lemma_insert_by_key_model(inserts@, idx, v);
                                }
                                insert_sorted(&mut inserts, idx, v);
                                false
                            } else if arr.len() == 2 {
                                let v = arr[1].deep_clone();
                                proof {
                                    lemma_insert_by_key_model(changes@, idx, v);
                                }
                                insert_sorted(&mut changes, idx, v);
                                false
                            } else {
                                true
                            }
                        },
                        _ => true,
                    };
                    if nested && idx < existing.len() {
                        let v = apply_structural_patch(&existing[idx], sub);
                        proof {
                            lemma_insert_by_key_model(changes@, idx, v);
                        }
                        insert_sorted(&mut changes, idx, v);
                    }
                },
            }
            assert(ArrayEdits {
                deletes: deletes@,
                changes: indexed_model(changes@),
                inserts: indexed_model(inserts@),
            } =~= want);
        }
        i += 1;
    }
    let ghost edits = collect_edits(items, d, 0, no_edits());
    let mut result = clone_items(existing);
    let mut c: usize = 0;
    while c < changes.len()
        invariant
            c <= changes.len(),
            indexed_model(changes@) == edits.changes,
            apply_changes(array_model(result@), edits.changes, c as int) == apply_changes(
                items,
                edits.changes,
                0,
            ),
        decreases changes.len() - c,
    {
        let idx = changes[c].0;
        if idx < result.len() {
            let ghost before = array_model(result@);
            result[idx] = changes[c].1.deep_clone();
            assert(array_model(result@) =~= before.update(idx as int, edits.changes[c as int].1));
        }
        c += 1;
    }
    let ghost after_changes = array_model(result@);
    let mut n: usize = deletes.len();
    while n > 0
        invariant
            n <= deletes.len(),
            deletes@ == edits.deletes,
            apply_deletes(array_model(result@), edits.deletes, n as int) == apply_deletes(
                after_changes,
                edits.deletes,
                edits.deletes.len() as int,
            ),
        decreases n,
    {
        let idx = deletes[n - 1].0;
        if idx < result.len() {
            let ghost before = array_model(result@);
            result.remove(idx);
            assert(array_model(result@) =~= before.remove(idx as int));
        }
        n -= 1;
    }
    let ghost after_deletes = array_model(result@);
    let mut k: usize = 0;
    while k < inserts.len()
        invariant
            k <= inserts.len(),
            indexed_model(inserts@) == edits.inserts,
            apply_inserts(array_model(result@), edits.inserts, k as int) == apply_inserts(
                after_deletes,
                edits.inserts,
                0,
            ),
        decreases inserts.len() - k,
    {
        let idx = inserts[k].0;
        let at = if idx <= result.len() {
            idx
        } else {
            result.len()
        };
        let ghost before = array_model(result@);
        result.insert(at, inserts[k].1.deep_clone());
        assert(array_model(result@) =~= before.insert(at as int, edits.inserts[k as int].1));
        k += 1;
    }
    Value::Array(result)
}

/// The number at place `i` of a range, or 0.
pub fn bound_of(range: &Vec<Value>, i: usize) -> (r: u64)
    requires
        i < range.len(),
    ensures
        r == range_bound(array_model(range@), i as int),
{
    match range[i].as_u64() {
        Some(n) => n,
        None => 0,
    }
}

/// Appends to `out` the part of `s` between two positions counted in
/// scalar values.
pub fn push_char_slice(out: &mut Vec<char>, s: &Vec<char>, start: u64, end: u64)
    ensures
        final(out)@ == old(out)@ + char_slice(s@, start as nat, end as nat),
{
    if start < end {
        let from: usize = if start <= s.len() as u64 {
            start as usize
        } else {
            s.len()
        };
        let to: usize = if end <= s.len() as u64 {
            end as usize
        } else {
            s.len()
        };
        let part = slice_chars(s, from, to);
        push_chars(out, &part);
    } else {
        assert(old(out)@ + Seq::<char>::empty() =~= old(out)@);
    }
}

/// Where an insertion entry of a character diff puts its text.
pub fn insert_start_of(op: &Value) -> (r: u64)
    ensures
        r == insert_start(op@),
{
    match op.get("range") {
        Some(Value::Array(range)) => {
            assert(json_get(op@, "range"@) == Some(Json::Array(array_model(range@))));
            if range.len() == 2 {
                bound_of(range, 0)
            } else {
                0
            }
        },
        Some(other) => {
            assert(json_get(op@, "range"@) == Some(other@));
            assert(!(other@ is Array));
            0
        },
        None => 0,
    }
}

/// Replays the entries of a character diff on the old text.
pub fn apply_text_diff_ops(old_text: &str, ops: &Vec<Value>) -> (r: String)
    ensures
        r@ == replay_text(old_text@, array_model(ops@)),
{
    let old = chars_of(old_text);
    let ghost list = array_model(ops@);
    let mut builder: Vec<char> = Vec::new();
    let mut pos: u64 = 0;
    let mut i: usize = 0;
    while i < ops.len()
        invariant
            i <= ops.len(),
            old@ == old_text@,
            list == array_model(ops@),
            replay_from(old@, list, i as int, Replay { written: builder@, pos: pos as nat })
                == replay_from(old@, list, 0, Replay { written: Seq::empty(), pos: 0 }),
        decreases ops.len() - i,
    {
        let op = &ops[i];
        assert(op@ == list[i as int]);
        let ghost before = Replay { written: builder@, pos: pos as nat };
        let kind = op.get("op");
        let is_delete = match kind {
            Some(Value::Str(k)) => same_text(k.as_str(), "delete"),
            _ => same_text("", "delete"),
        };
        let is_replace = match kind {
            Some(Value::Str(k)) => same_text(k.as_str(), "replace"),
            _ => same_text("", "replace"),
        };
        let is_insert = match kind {
            Some(Value::Str(k)) => same_text(k.as_str(), "insert"),
            _ => same_text("", "insert"),
        };
        proof {
            assert(""@ =~= Seq::<char>::empty()) by {
                reveal_strlit("");
            }
            let k = text_or_empty(json_get(op@, "op"@));
            assert(is_delete == (k == "delete"@));
            assert(is_replace == (k == "replace"@));
            assert(is_insert == (k == "insert"@));
        }
        let ghost step = replay_step(old@, list[i as int], before);
        if is_delete {
            match op.get("range") {
                Some(Value::Array(range)) => {
                    assert(json_get(op@, "range"@) == Some(Json::Array(array_model(range@))));
                    if range.len() == 2 {
                        push_char_slice(&mut builder, &old, pos, bound_of(range, 0));
                        pos = bound_of(range, 1);
                    }
                    assert(Replay { written: builder@, pos: pos as nat } =~= step);
                },
                Some(other) => {
                    assert(json_get(op@, "range"@) == Some(other@));
                    assert(!(other@ is Array));
                    assert(Replay { written: builder@, pos: pos as nat } =~= step);
                },
                None => {
                    assert(Replay { written: builder@, pos: pos as nat } =~= step);
                },
            }
        } else if is_replace {
            match op.get("old_range") {
                Some(Value::Array(range)) => {
                    assert(json_get(op@, "old_range"@) == Some(Json::Array(array_model(range@))));
                    if range.len() == 2 {
                        push_char_slice(&mut builder, &old, pos, bound_of(range, 0));
                        match op.get("new_text") {
                            Some(Value::Str(t)) => {
                                assert(json_get(op@, "new_text"@) == Some(Json::Str(t@)));
                                crate::text::push_str(&mut builder, t.as_str());
                            },
                            Some(other) => {
                                assert(json_get(op@, "new_text"@) == Some(other@));
                                assert(!(other@ is Str));
                                assert(builder@ + Seq::<char>::empty() =~= builder@);
                            },
                            None => {
                                assert(builder@ + Seq::<char>::empty() =~= builder@);
                            },
                        }
                        pos = bound_of(range, 1);
                    }
                    assert(Replay { written: builder@, pos: pos as nat } =~= step);
                },
                Some(other) => {
                    assert(json_get(op@, "old_range"@) == Some(other@));
                    assert(!(other@ is Array));
                    assert(Replay { written: builder@, pos: pos as nat } =~= step);
                },
                None => {
                    assert(Replay { written: builder@, pos: pos as nat } =~= step);
                },
            }
        } else if is_insert {
            match op.get("text") {
                Some(Value::Str(t)) => {
                    assert(json_get(op@, "text"@) == Some(Json::Str(t@)));
                    let start = insert_start_of(op);
                    let gap: u64 = if start > builder.len() as u64 {
                        start - builder.len() as u64
                    } else {
                        0
                    };
                    let left: u64 = if pos < old.len() as u64 {
                        old.len() as u64 - pos
                    } else {
                        0
                    };
                    let n: u64 = if gap <= left {
                        gap
                    } else {
                        left
                    };
                    push_char_slice(&mut builder, &old, pos, pos + n);
                    pos = pos + n;
                    crate::text::push_str(&mut builder, t.as_str());
                    assert(Replay { written: builder@, pos: pos as nat } =~= step);
                },
                Some(other) => {
                    assert(json_get(op@, "text"@) == Some(other@));
                    assert(!(other@ is Str));
                    assert(Replay { written: builder@, pos: pos as nat } =~= step);
                },
                None => {
                    assert(Replay { written: builder@, pos: pos as nat } =~= step);
                },
            }
        } else {
            assert(Replay { written: builder@, pos: pos as nat } =~= step);
        }
        i += 1;
    }
    push_char_slice(&mut builder, &old, pos, old.len() as u64);
    string_of(&builder)
}

/// Applies a leaf of a delta to a document.
pub fn apply_array_patch(document: &Value, patch_arr: &Vec<Value>) -> (r: Value)
    ensures
        r@ == patched_by_leaf(document@, array_model(patch_arr@)),
{
    if items_are_text_diff(patch_arr) {
        match (document, patch_arr[0].get("text_diff")) {
            (Value::Str(old_text), Some(Value::Array(ops))) => {
                return Value::Str(apply_text_diff_ops(old_text.as_str(), ops));
            },
            _ => {
                return document.deep_clone();
            },
        }
    }
    if patch_arr.len() == 1 {
        patch_arr[0].deep_clone()
    } else if items_are_deletion(patch_arr) {
        Value::Null
    } else if patch_arr.len() == 2 {
        patch_arr[1].deep_clone()
    } else {
        document.deep_clone()
    }
}

} // verus!
