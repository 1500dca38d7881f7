//! The shapes of a structural delta, and the delta of two strings.
//!
//! A delta is itself a document. A leaf of it is an addition `[new]`, a
//! deletion `[old, 0, 0]`, a change `[old, new]`, a move `["", from, 3]`
//! or the character diff of two strings, `[{"text_diff": [..]}, 0, 2]`.
//! In the delta of two arrays a key `_` and a numeral speaks of a place of
//! the old array, and a numeral alone of a place of the new array at
//! which an item is added.

use crate::text::{chars_of, decimal, decimal_chars, slice_chars, string_of};
use crate::value::{array_model, entries_model, Json, NumberModel, Value};
use vstd::prelude::*;

verus! {

/// The model of a non-negative integer.
pub open spec fn uint_json(n: u64) -> Json {
    Json::Number(NumberModel::PosInt(n))
}

/// The delta that adds `v`.
pub open spec fn addition(v: Json) -> Json {
    Json::Array(seq![v])
}

/// The delta that deletes `v`.
pub open spec fn deletion(v: Json) -> Json {
    Json::Array(seq![v, uint_json(0), uint_json(0)])
}

/// The delta that replaces `old` by `new`.
pub open spec fn change(old: Json, new: Json) -> Json {
    Json::Array(seq![old, new])
}

/// The delta that moves the item at `from` to the place its key names.
pub open spec fn move_marker(from: u64) -> Json {
    Json::Array(seq![Json::Str(Seq::empty()), uint_json(from), uint_json(3)])
}

/// The key of the delta of the item at place `i` of the old array: `_`
/// and the numeral.
pub open spec fn index_key(i: nat) -> Seq<char> {
    seq!['_'] + decimal(i)
}

/// The key of the addition of an item at place `i` of the new array: the
/// numeral.
pub open spec fn insertion_key(i: nat) -> Seq<char> {
    decimal(i)
}

/// The delta that adds `v`.
pub fn make_addition(v: Value) -> (r: Value)
    ensures
        r@ == addition(v@),
{
    let items = vec![v];
    assert(array_model(items@) =~= seq![v@]);
    Value::Array(items)
}

/// The delta that deletes `v`.
pub fn make_deletion(v: Value) -> (r: Value)
    ensures
        r@ == deletion(v@),
{
    let items = vec![v, Value::uint(0), Value::uint(0)];
    assert(array_model(items@) =~= seq![v@, uint_json(0), uint_json(0)]);
    Value::Array(items)
}

/// The delta that replaces `old` by `new`.
pub fn make_change(old: Value, new: Value) -> (r: Value)
    ensures
        r@ == change(old@, new@),
{
    let items = vec![old, new];
    assert(array_model(items@) =~= seq![old@, new@]);
    Value::Array(items)
}

/// The delta that moves the item at `from`.
pub fn make_move(from: usize) -> (r: Value)
    ensures
        r@ == move_marker(from as u64),
{
    let items = vec![Value::Str(String::new()), Value::uint(from as u64), Value::uint(3)];
    assert(array_model(items@) =~= seq![
        Json::Str(Seq::empty()),
        uint_json(from as u64),
        uint_json(3),
    ]);
    Value::Array(items)
}

/// The key of the delta of the array item at `i`.
pub fn make_index_key(i: usize) -> (r: String)
    ensures
        r@ == index_key(i as nat),
{
    let mut out: Vec<char> = Vec::new();
    out.push('_');
    let digits = decimal_chars(i as u64);
    crate::text::push_chars(&mut out, &digits);
    assert(out@ =~= index_key(i as nat));
    string_of(&out)
}

/// The key of the addition of an item at place `i` of the new array.
pub fn make_insertion_key(i: usize) -> (r: String)
    ensures
        r@ == insertion_key(i as nat),
{
    let digits = decimal_chars(i as u64);
    string_of(&digits)
}

/// One step of an edit script between two sequences: a run that is equal
/// in both, a run deleted from the old one, a run inserted from the new
/// one, or a run of the old one replaced by a run of the new one.
#[derive(Debug, Clone, Copy, PartialEq, Eq, Structural)]
pub enum EditOp {
    Equal { old_index: usize, new_index: usize, len: usize },
    Delete { old_index: usize, old_len: usize, new_index: usize },
    Insert { old_index: usize, new_index: usize, new_len: usize },
    Replace { old_index: usize, old_len: usize, new_index: usize, new_len: usize },
}

/// Whether the runs of an edit step lie inside sequences of the given
/// lengths.
pub open spec fn op_in_bounds(op: EditOp, old_len: nat, new_len: nat) -> bool {
    match op {
        EditOp::Equal { old_index, new_index, len } => old_index + len <= old_len && new_index
            + len <= new_len,
        EditOp::Delete { old_index, old_len: n, new_index } => old_index + n <= old_len
            && new_index <= new_len,
        EditOp::Insert { old_index, new_index, new_len: n } => old_index <= old_len && new_index
            + n <= new_len,
        EditOp::Replace { old_index, old_len: n, new_index, new_len: m } => old_index + n
            <= old_len && new_index + m <= new_len,
    }
}

/// Whether every step of an edit script lies inside the two sequences.
pub open spec fn ops_in_bounds(ops: Seq<EditOp>, old_len: nat, new_len: nat) -> bool {
    forall|i: int| 0 <= i < ops.len() ==> op_in_bounds(#[trigger] ops[i], old_len, new_len)
}

/// Where the run of an edit step begins in the old sequence.
pub open spec fn old_start(op: EditOp) -> int {
    match op {
        EditOp::Equal { old_index, .. } => old_index as int,
        EditOp::Delete { old_index, .. } => old_index as int,
        EditOp::Insert { old_index, .. } => old_index as int,
        EditOp::Replace { old_index, .. } => old_index as int,
    }
}

/// Where the run of an edit step ends in the old sequence.
pub open spec fn old_end(op: EditOp) -> int {
    match op {
        EditOp::Equal { old_index, len, .. } => old_index + len,
        EditOp::Delete { old_index, old_len, .. } => old_index + old_len,
        EditOp::Insert { old_index, .. } => old_index as int,
        EditOp::Replace { old_index, old_len, .. } => old_index + old_len,
    }
}

/// Where the run of an edit step begins in the new sequence.
pub open spec fn new_start(op: EditOp) -> int {
    match op {
        EditOp::Equal { new_index, .. } => new_index as int,
        EditOp::Delete { new_index, .. } => new_index as int,
        EditOp::Insert { new_index, .. } => new_index as int,
        EditOp::Replace { new_index, .. } => new_index as int,
    }
}

/// Where the run of an edit step ends in the new sequence.
pub open spec fn new_end(op: EditOp) -> int {
    match op {
        EditOp::Equal { new_index, len, .. } => new_index + len,
        EditOp::Delete { new_index, .. } => new_index as int,
        EditOp::Insert { new_index, new_len, .. } => new_index + new_len,
        EditOp::Replace { new_index, new_len, .. } => new_index + new_len,
    }
}

/// Whether an edit script leads from the old text to the new one: its
/// steps lie inside the two texts, follow one another from the beginning
/// of both texts to their ends, and name equal runs only where the runs
/// are equal.
pub open spec fn replayable_script(ops: Seq<EditOp>, old: Seq<char>, new: Seq<char>) -> bool {
    &&& old.len() <= usize::MAX
    &&& new.len() <= usize::MAX
    &&& ops_in_bounds(ops, old.len(), new.len())
    &&& if ops.len() == 0 {
        old.len() == 0 && new.len() == 0
    } else {
        old_start(ops[0]) == 0 && new_start(ops[0]) == 0 && old_end(ops.last()) == old.len()
            && new_end(ops.last()) == new.len()
    }
    &&& forall|k: int|
        0 <= k < ops.len() - 1 ==> old_end(#[trigger] ops[k]) == old_start(ops[k + 1]) && new_end(
            ops[k],
        ) == new_start(ops[k + 1])
    &&& forall|k: int|
        0 <= k < ops.len() && (#[trigger] ops[k]) is Equal ==> old.subrange(
            old_start(ops[k]),
            old_end(ops[k]),
        ) == new.subrange(new_start(ops[k]), new_end(ops[k]))
}

/// The model of a half-open range `[start, end]`.
pub open spec fn range_json(start: u64, end: u64) -> Json {
    Json::Array(seq![uint_json(start), uint_json(end)])
}

/// The entry of a character diff for one edit step; an equal run has none.
/// Ranges count scalar values.
pub open spec fn text_op_json(old: Seq<char>, new: Seq<char>, op: EditOp) -> Option<Json> {
    match op {
        EditOp::Equal { .. } => None,
        EditOp::Delete { old_index, old_len, new_index } => Some(
            Json::Object(
                seq![
                    ("op"@, Json::Str("delete"@)),
                    ("range"@, range_json(old_index as u64, (old_index + old_len) as u64)),
                    ("text"@, Json::Str(old.subrange(old_index as int, old_index + old_len))),
                ],
            ),
        ),
        EditOp::Insert { old_index, new_index, new_len } => Some(
            Json::Object(
                seq![
                    ("op"@, Json::Str("insert"@)),
                    ("range"@, range_json(new_index as u64, (new_index + new_len) as u64)),
                    ("text"@, Json::Str(new.subrange(new_index as int, new_index + new_len))),
                ],
            ),
        ),
        EditOp::Replace { old_index, old_len, new_index, new_len } => Some(
            Json::Object(
                seq![
                    ("new_range"@, range_json(new_index as u64, (new_index + new_len) as u64)),
                    ("new_text"@, Json::Str(new.subrange(new_index as int, new_index + new_len))),
                    ("old_range"@, range_json(old_index as u64, (old_index + old_len) as u64)),
                    ("old_text"@, Json::Str(old.subrange(old_index as int, old_index + old_len))),
                    ("op"@, Json::Str("replace"@)),
                ],
            ),
        ),
    }
}

/// The entries of a character diff for the steps of a script from position
/// `i`, in order.
pub open spec fn text_ops_json(old: Seq<char>, new: Seq<char>, ops: Seq<EditOp>, i: int) -> Seq<
    Json,
>
    decreases ops.len() - i,
{
    if i < 0 || i >= ops.len() {
        Seq::empty()
    } else {
        match text_op_json(old, new, ops[i]) {
            Some(j) => seq![j] + text_ops_json(old, new, ops, i + 1),
            None => text_ops_json(old, new, ops, i + 1),
        }
    }
}

/// The delta of two strings for a given edit script:
/// `[{"text_diff": [..]}, 0, 2]`.
pub open spec fn text_delta(old: Seq<char>, new: Seq<char>, ops: Seq<EditOp>) -> Json {
    Json::Array(
        seq![
            Json::Object(seq![("text_diff"@, Json::Array(text_ops_json(old, new, ops, 0)))]),
            uint_json(0),
            uint_json(2),
        ],
    )
}

/// The delta of two strings for a given edit script: the character diff
/// where the script leads from the old string to the new one, else the
/// change of the whole value.
pub open spec fn text_delta_or_change(old: Seq<char>, new: Seq<char>, ops: Seq<EditOp>) -> Json {
    if replayable_script(ops, old, new) {
        text_delta(old, new, ops)
    } else {
        change(Json::Str(old), Json::Str(new))
    }
}

/// The edit script that the Myers algorithm of the crate `similar` gives
/// for two strings taken as sequences of scalar values.
pub uninterp spec fn myers_edit_script(old: Seq<char>, new: Seq<char>) -> Seq<EditOp>;

/// `TextDiff::configure().algorithm(Algorithm::Myers).diff_chars(old, new)`
/// of the crate `similar`, and `ops()` of what it returns: the edit script
/// between the scalar values of the two strings, each step copied field by
/// field. No deadline is set, so the script depends on the two strings
/// alone; the contract gives it its name and claims nothing else of it.
#[verifier::external_body]
pub(crate) fn myers_char_ops(old: &str, new: &str) -> (ops: Vec<EditOp>)
    ensures
        ops@ == myers_edit_script(old@, new@),
{
    let diff = similar::TextDiff::configure().algorithm(similar::Algorithm::Myers).diff_chars(old, new);
    diff.ops().iter().map(|op| match *op {
        similar::DiffOp::Equal { old_index, new_index, len } => EditOp::Equal { old_index, new_index, len },
        similar::DiffOp::Delete { old_index, old_len, new_index } => EditOp::Delete { old_index, old_len, new_index },
        similar::DiffOp::Insert { old_index, new_index, new_len } => EditOp::Insert { old_index, new_index, new_len },
        similar::DiffOp::Replace { old_index, old_len, new_index, new_len } => EditOp::Replace { old_index, old_len, new_index, new_len },
    }).collect()
}

/// Whether one step of an edit script lies inside sequences of the given
/// lengths.
pub fn check_op_in_bounds(op: EditOp, old_len: usize, new_len: usize) -> (r: bool)
    ensures
        r == op_in_bounds(op, old_len as nat, new_len as nat),
{
    match op {
        EditOp::Equal { old_index, new_index, len } => old_index <= old_len && len <= old_len
            - old_index && new_index <= new_len && len <= new_len - new_index,
        EditOp::Delete { old_index, old_len: n, new_index } => old_index <= old_len && n
            <= old_len - old_index && new_index <= new_len,
        EditOp::Insert { old_index, new_index, new_len: n } => old_index <= old_len && new_index
            <= new_len && n <= new_len - new_index,
        EditOp::Replace { old_index, old_len: n, new_index, new_len: m } => old_index <= old_len
            && n <= old_len - old_index && new_index <= new_len && m <= new_len - new_index,
    }
}

/// Whether two runs of the same length, one in each text, are equal.
pub fn runs_equal(old: &Vec<char>, new: &Vec<char>, old_index: usize, new_index: usize, len: usize) -> (r: bool)
    requires
        old_index + len <= old.len(),
        new_index + len <= new.len(),
    ensures
        r == (old@.subrange(old_index as int, old_index + len) == new@.subrange(
            new_index as int,
            new_index + len,
        )),
{
    let ghost a = old@.subrange(old_index as int, old_index + len);
    let ghost b = new@.subrange(new_index as int, new_index + len);
    let mut t: usize = 0;
    while t < len
        invariant
            t <= len,
            old_index + len <= old.len(),
            new_index + len <= new.len(),
            a == old@.subrange(old_index as int, old_index + len),
            b == new@.subrange(new_index as int, new_index + len),
            forall|j: int| 0 <= j < t ==> a[j] == b[j],
        decreases len - t,
    {
        if old[old_index + t] != new[new_index + t] {
            assert(a[t as int] != b[t as int]);
            return false;
        }
        t += 1;
    }
    assert(a =~= b);
    true
}

/// Where the run of an edit step begins and ends in the two sequences.
pub fn op_runs(op: EditOp) -> (r: (usize, usize, usize, usize))
    requires
        old_end(op) <= usize::MAX,
        new_end(op) <= usize::MAX,
    ensures
        r.0 == old_start(op),
        r.1 == old_end(op),
        r.2 == new_start(op),
        r.3 == new_end(op),
{
    match op {
        EditOp::Equal { old_index, new_index, len } => (
            old_index,
            old_index + len,
            new_index,
            new_index + len,
        ),
        EditOp::Delete { old_index, old_len, new_index } => (
            old_index,
            old_index + old_len,
            new_index,
            new_index,
        ),
        EditOp::Insert { old_index, new_index, new_len } => (
            old_index,
            old_index,
            new_index,
            new_index + new_len,
        ),
        EditOp::Replace { old_index, old_len, new_index, new_len } => (
            old_index,
            old_index + old_len,
            new_index,
            new_index + new_len,
        ),
    }
}

/// Whether an edit script leads from the old text to the new one.
pub fn check_replayable(ops: &Vec<EditOp>, old: &Vec<char>, new: &Vec<char>) -> (r: bool)
    ensures
        r == replayable_script(ops@, old@, new@),
{
    let mut old_at: usize = 0;
    let mut new_at: usize = 0;
    let mut i: usize = 0;
    while i < ops.len()
        invariant
            i <= ops.len(),
            forall|j: int| 0 <= j < i ==> op_in_bounds(#[trigger] ops[j], old.len() as nat, new.len() as nat),
            i > 0 ==> old_start(ops[0]) == 0 && new_start(ops[0]) == 0,
            forall|k: int|
                0 <= k < i - 1 ==> old_end(#[trigger] ops[k]) == old_start(ops[k + 1]) && new_end(
                    ops[k],
                ) == new_start(ops[k + 1]),
            forall|k: int|
                0 <= k < i && (#[trigger] ops[k]) is Equal ==> old@.subrange(
                    old_start(ops[k]),
                    old_end(ops[k]),
                ) == new@.subrange(new_start(ops[k]), new_end(ops[k])),
            old_at == (if i == 0 {
                0
            } else {
                old_end(ops[i - 1])
            }),
            new_at == (if i == 0 {
                0
            } else {
                new_end(ops[i - 1])
            }),
        decreases ops.len() - i,
    {
        let op = ops[i];
        if !check_op_in_bounds(op, old.len(), new.len()) {
            return false;
        }
        let (from_old, to_old, from_new, to_new) = op_runs(op);
        if from_old != old_at || from_new != new_at {
            proof {
                if i > 0 {
                    assert(old_end(ops[i - 1]) == old_at && new_end(ops[i - 1]) == new_at);
                }
            }
            return false;
        }
        match op {
            EditOp::Equal { old_index, new_index, len } => {
                if !runs_equal(old, new, old_index, new_index, len) {
                    return false;
                }
            },
            _ => {},
        }
        old_at = to_old;
        new_at = to_new;
        i += 1;
    }
    proof {
        if ops.len() > 0 {
            assert(ops@.last() == ops[ops.len() - 1]);
        }
    }
    old_at == old.len() && new_at == new.len()
}

/// A range `[start, end]` as a document.
pub fn make_range(start: usize, end: usize) -> (r: Value)
    ensures
        r@ == range_json(start as u64, end as u64),
{
    let items = vec![Value::uint(start as u64), Value::uint(end as u64)];
    assert(array_model(items@) =~= seq![uint_json(start as u64), uint_json(end as u64)]);
    Value::Array(items)
}

/// The part of a text between two positions, as a string document.
pub fn make_text_part(s: &Vec<char>, from: usize, to: usize) -> (r: Value)
    requires
        from <= to <= s.len(),
    ensures
        r@ == Json::Str(s@.subrange(from as int, to as int)),
{
    let part = slice_chars(s, from, to);
    Value::Str(string_of(&part))
}

/// The entry of a character diff for one edit step.
pub fn make_text_op(old: &Vec<char>, new: &Vec<char>, op: EditOp) -> (r: Option<Value>)
    requires
        op_in_bounds(op, old.len() as nat, new.len() as nat),
    ensures
        match r {
            Some(v) => text_op_json(old@, new@, op) == Some(v@),
            None => text_op_json(old@, new@, op) is None,
        },
{
    match op {
        EditOp::Equal { .. } => None,
        EditOp::Delete { old_index, old_len, new_index } => {
            let entries = vec![
                ("op".to_string(), Value::text("delete")),
                ("range".to_string(), make_range(old_index, old_index + old_len)),
                ("text".to_string(), make_text_part(old, old_index, old_index + old_len)),
            ];
            assert(entries_model(entries@) =~= seq![
                ("op"@, Json::Str("delete"@)),
                ("range"@, range_json(old_index as u64, (old_index + old_len) as u64)),
                ("text"@, Json::Str(old@.subrange(old_index as int, old_index + old_len))),
            ]);
            Some(Value::Object(entries))
        },
        EditOp::Insert { old_index, new_index, new_len } => {
            let entries = vec![
                ("op".to_string(), Value::text("insert")),
                ("range".to_string(), make_range(new_index, new_index + new_len)),
                ("text".to_string(), make_text_part(new, new_index, new_index + new_len)),
            ];
            assert(entries_model(entries@) =~= seq![
                ("op"@, Json::Str("insert"@)),
                ("range"@, range_json(new_index as u64, (new_index + new_len) as u64)),
                ("text"@, Json::Str(new@.subrange(new_index as int, new_index + new_len))),
            ]);
            Some(Value::Object(entries))
        },
        EditOp::Replace { old_index, old_len, new_index, new_len } => {
            let entries = vec![
                ("new_range".to_string(), make_range(new_index, new_index + new_len)),
                ("new_text".to_string(), make_text_part(new, new_index, new_index + new_len)),
                ("old_range".to_string(), make_range(old_index, old_index + old_len)),
                ("old_text".to_string(), make_text_part(old, old_index, old_index + old_len)),
                ("op".to_string(), Value::text("replace")),
            ];
            assert(entries_model(entries@) =~= seq![
                ("new_range"@, range_json(new_index as u64, (new_index + new_len) as u64)),
                ("new_text"@, Json::Str(new@.subrange(new_index as int, new_index + new_len))),
                ("old_range"@, range_json(old_index as u64, (old_index + old_len) as u64)),
                ("old_text"@, Json::Str(old@.subrange(old_index as int, old_index + old_len))),
                ("op"@, Json::Str("replace"@)),
            ]);
            Some(Value::Object(entries))
        },
    }
}

/// The character diff of two strings for an edit script that lies inside
/// them.
pub fn text_delta_from_ops(old: &Vec<char>, new: &Vec<char>, ops: &Vec<EditOp>) -> (r: Value)
    requires
        ops_in_bounds(ops@, old.len() as nat, new.len() as nat),
    ensures
        r@ == text_delta(old@, new@, ops@),
{
    let mut list: Vec<Value> = Vec::new();
    let mut i: usize = 0;
    while i < ops.len()
        invariant
            i <= ops.len(),
            ops_in_bounds(ops@, old.len() as nat, new.len() as nat),
            array_model(list@) + text_ops_json(old@, new@, ops@, i as int) == text_ops_json(
                old@,
                new@,
                ops@,
                0,
            ),
        decreases ops.len() - i,
    {
        let ghost before = array_model(list@);
        match make_text_op(old, new, ops[i]) {
            Some(v) => {
                list.push(v);
                assert(array_model(list@) =~= before + seq![v@]);
                assert(before + (seq![v@] + text_ops_json(old@, new@, ops@, i + 1)) =~= (before
                    + seq![v@]) + text_ops_json(old@, new@, ops@, i + 1));
            },
            None => {},
        }
        i += 1;
    }
    assert(array_model(list@) =~= text_ops_json(old@, new@, ops@, 0));
    let entries = vec![("text_diff".to_string(), Value::Array(list))];
    assert(entries_model(entries@) =~= seq![
        ("text_diff"@, Json::Array(text_ops_json(old@, new@, ops@, 0))),
    ]);
    let items = vec![Value::Object(entries), Value::uint(0), Value::uint(2)];
    assert(array_model(items@) =~= seq![
        Json::Object(seq![("text_diff"@, Json::Array(text_ops_json(old@, new@, ops@, 0)))]),
        uint_json(0),
        uint_json(2),
    ]);
    Value::Array(items)
}

/// The delta of two strings for a given edit script: the character diff
/// where the script leads from the old string to the new one, else the
/// change of the whole value.
pub fn text_delta_checked(old: &str, new: &str, ops: &Vec<EditOp>) -> (r: Value)
    ensures
        r@ == text_delta_or_change(old@, new@, ops@),
{
    let oc = chars_of(old);
    let nc = chars_of(new);
    if check_replayable(ops, &oc, &nc) {
        text_delta_from_ops(&oc, &nc, ops)
    } else {
        make_change(Value::text(old), Value::text(new))
    }
}

/// The delta of two strings that are compared character by character, by
/// the Myers algorithm.
pub fn diff_text_simd(old: &str, new: &str) -> (r: Value)
    ensures
        r@ == text_delta_or_change(old@, new@, myers_edit_script(old@, new@)),
{
    let ops = myers_char_ops(old, new);
    text_delta_checked(old, new, &ops)
}

} // verus!
