//! What replaying the character diff of two strings gives.

use crate::delta::{
    change, new_end, new_start, old_end, old_start, range_json, replayable_script, text_delta,
    text_delta_or_change, text_op_json, text_ops_json, uint_json, EditOp,
};
use crate::delta_laws::lemma_lookup_cons;
use crate::patch::{
    char_slice, copied_before_insert, insert_start, is_deletion, is_move, is_text_diff, patched,
    patched_by_leaf, range_bound, replay_from, replay_step, replay_text, Replay,
};
use crate::value::{json_get, lookup, Json};
use vstd::prelude::*;

verus! {

/// Replaying a diff that begins with one entry is replaying that entry and
/// then the rest.
pub proof fn lemma_replay_shift(old: Seq<char>, head: Json, rest: Seq<Json>, k: int, r: Replay)
    requires
        0 <= k,
    ensures
        replay_from(old, seq![head] + rest, k + 1, r) == replay_from(old, rest, k, r),
    decreases rest.len() - k,
{
    let all = seq![head] + rest;
    if k < rest.len() {
        assert(all[k + 1] == rest[k]);
        lemma_replay_shift(old, head, rest, k + 1, replay_step(old, rest[k], r));
    }
}

pub proof fn lemma_replay_cons(old: Seq<char>, head: Json, rest: Seq<Json>, r: Replay)
    ensures
        replay_from(old, seq![head] + rest, 0, r) == replay_from(
            old,
            rest,
            0,
            replay_step(old, head, r),
        ),
{
    let all = seq![head] + rest;
    assert(all[0] == head);
    lemma_replay_shift(old, head, rest, 0, replay_step(old, head, r));
}

/// The keys and the kinds of the entries of a character diff are different
/// texts.
pub proof fn lemma_text_diff_literals()
    ensures
        "op"@ != "range"@,
        "op"@ != "text"@,
        "range"@ != "text"@,
        "op"@ != "new_range"@,
        "op"@ != "new_text"@,
        "op"@ != "old_range"@,
        "op"@ != "old_text"@,
        "new_range"@ != "new_text"@,
        "new_range"@ != "old_range"@,
        "new_text"@ != "old_range"@,
        "new_text"@ != "old_text"@,
        "old_range"@ != "old_text"@,
        "new_range"@ != "old_text"@,
        "delete"@ != "replace"@,
        "delete"@ != "insert"@,
        "replace"@ != "insert"@,
{
    reveal_strlit("op");
    reveal_strlit("range");
    reveal_strlit("text");
    reveal_strlit("new_range");
    reveal_strlit("new_text");
    reveal_strlit("old_range");
    reveal_strlit("old_text");
    reveal_strlit("delete");
    reveal_strlit("replace");
    reveal_strlit("insert");
    assert("op"@.len() == 2 && "range"@.len() == 5 && "text"@.len() == 4);
    assert("new_range"@.len() == 9 && "new_text"@.len() == 8);
    assert("old_range"@.len() == 9 && "old_text"@.len() == 8);
    assert("delete"@.len() == 6 && "replace"@.len() == 7 && "insert"@.len() == 6);
    assert("new_range"@[0] == 'n' && "old_range"@[0] == 'o');
    assert("new_text"@[0] == 'n' && "old_text"@[0] == 'o');
    assert("delete"@[0] == 'd' && "insert"@[0] == 'i');
}

/// The numbers of a range are its bounds.
pub proof fn lemma_range_bounds(start: u64, end: u64)
    ensures
        range_json(start, end)->Array_0.len() == 2,
        range_bound(range_json(start, end)->Array_0, 0) == start,
        range_bound(range_json(start, end)->Array_0, 1) == end,
{
}

/// What a deletion entry of a character diff does in a replay: it copies
/// the old text up to its range and skips the range.
pub proof fn lemma_replay_delete(old: Seq<char>, start: u64, end: u64, text: Seq<char>, r: Replay)
    ensures
        replay_step(
            old,
            Json::Object(
                seq![
                    ("op"@, Json::Str("delete"@)),
                    ("range"@, range_json(start, end)),
                    ("text"@, Json::Str(text)),
                ],
            ),
            r,
        ) == (Replay {
            written: r.written + char_slice(old, r.pos, start as nat),
            pos: end as nat,
        }),
{
    lemma_text_diff_literals();
    let rest = seq![("range"@, range_json(start, end)), ("text"@, Json::Str(text))];
    let tail = seq![("text"@, Json::Str(text))];
    let e = seq![("op"@, Json::Str("delete"@))] + rest;
    assert(e =~= seq![
        ("op"@, Json::Str("delete"@)),
        ("range"@, range_json(start, end)),
        ("text"@, Json::Str(text)),
    ]);
    assert(rest =~= seq![("range"@, range_json(start, end))] + tail);
    lemma_lookup_cons(("op"@, Json::Str("delete"@)), rest, "op"@);
    lemma_lookup_cons(("op"@, Json::Str("delete"@)), rest, "range"@);
    lemma_lookup_cons(("range"@, range_json(start, end)), tail, "range"@);
    assert(lookup(e, "op"@) == Some(Json::Str("delete"@)));
    assert(lookup(e, "range"@) == Some(range_json(start, end)));
    lemma_range_bounds(start, end);
}

/// What an insertion entry of a character diff does in a replay: it copies
/// the old text until what is written reaches the start of its range, and
/// writes its text.
pub proof fn lemma_replay_insert(old: Seq<char>, start: u64, end: u64, text: Seq<char>, r: Replay)
    ensures
        replay_step(
            old,
            Json::Object(
                seq![
                    ("op"@, Json::Str("insert"@)),
                    ("range"@, range_json(start, end)),
                    ("text"@, Json::Str(text)),
                ],
            ),
            r,
        ) == ({
            let n = copied_before_insert(old.len(), r.pos, r.written.len(), start as nat);
            Replay { written: r.written + char_slice(old, r.pos, r.pos + n) + text, pos: r.pos + n }
        }),
{
    lemma_text_diff_literals();
    let rest = seq![("range"@, range_json(start, end)), ("text"@, Json::Str(text))];
    let tail = seq![("text"@, Json::Str(text))];
    let none = Seq::<(Seq<char>, Json)>::empty();
    let e = seq![("op"@, Json::Str("insert"@))] + rest;
    assert(e =~= seq![
        ("op"@, Json::Str("insert"@)),
        ("range"@, range_json(start, end)),
        ("text"@, Json::Str(text)),
    ]);
    assert(rest =~= seq![("range"@, range_json(start, end))] + tail);
    assert(tail =~= seq![("text"@, Json::Str(text))] + none);
    lemma_lookup_cons(("op"@, Json::Str("insert"@)), rest, "op"@);
    lemma_lookup_cons(("op"@, Json::Str("insert"@)), rest, "range"@);
    lemma_lookup_cons(("range"@, range_json(start, end)), tail, "range"@);
    lemma_lookup_cons(("op"@, Json::Str("insert"@)), rest, "text"@);
    lemma_lookup_cons(("range"@, range_json(start, end)), tail, "text"@);
    lemma_lookup_cons(("text"@, Json::Str(text)), none, "text"@);
    assert(lookup(e, "op"@) == Some(Json::Str("insert"@)));
    assert(lookup(e, "range"@) == Some(range_json(start, end)));
    assert(lookup(e, "text"@) == Some(Json::Str(text)));
    lemma_range_bounds(start, end);
    assert(insert_start(Json::Object(e)) == start);
}

/// What a replacement entry of a character diff does in a replay: it copies
/// the old text up to its old range, writes its new text, and skips the
/// old range.
pub proof fn lemma_replay_replace(
    old: Seq<char>,
    old_from: u64,
    old_to: u64,
    new_range: Json,
    old_text: Seq<char>,
    new_text: Seq<char>,
    r: Replay,
)
    ensures
        replay_step(
            old,
            Json::Object(
                seq![
                    ("new_range"@, new_range),
                    ("new_text"@, Json::Str(new_text)),
                    ("old_range"@, range_json(old_from, old_to)),
                    ("old_text"@, Json::Str(old_text)),
                    ("op"@, Json::Str("replace"@)),
                ],
            ),
            r,
        ) == (Replay {
            written: r.written + char_slice(old, r.pos, old_from as nat) + new_text,
            pos: old_to as nat,
        }),
{
    lemma_text_diff_literals();
    let e4 = seq![("op"@, Json::Str("replace"@))];
    let e3 = seq![("old_text"@, Json::Str(old_text))] + e4;
    let e2 = seq![("old_range"@, range_json(old_from, old_to))] + e3;
    let e1 = seq![("new_text"@, Json::Str(new_text))] + e2;
    let e0 = seq![("new_range"@, new_range)] + e1;
    assert(e0 =~= seq![
        ("new_range"@, new_range),
        ("new_text"@, Json::Str(new_text)),
        ("old_range"@, range_json(old_from, old_to)),
        ("old_text"@, Json::Str(old_text)),
        ("op"@, Json::Str("replace"@)),
    ]);
    let none = Seq::<(Seq<char>, Json)>::empty();
    assert(e4 =~= seq![("op"@, Json::Str("replace"@))] + none);
    // the kind
    lemma_lookup_cons(("new_range"@, new_range), e1, "op"@);
    lemma_lookup_cons(("new_text"@, Json::Str(new_text)), e2, "op"@);
    lemma_lookup_cons(("old_range"@, range_json(old_from, old_to)), e3, "op"@);
    lemma_lookup_cons(("old_text"@, Json::Str(old_text)), e4, "op"@);
    lemma_lookup_cons(("op"@, Json::Str("replace"@)), none, "op"@);
    assert(lookup(e0, "op"@) == Some(Json::Str("replace"@)));
    // the old range
    lemma_lookup_cons(("new_range"@, new_range), e1, "old_range"@);
    lemma_lookup_cons(("new_text"@, Json::Str(new_text)), e2, "old_range"@);
    lemma_lookup_cons(("old_range"@, range_json(old_from, old_to)), e3, "old_range"@);
    assert(lookup(e0, "old_range"@) == Some(range_json(old_from, old_to)));
    // the new text
    lemma_lookup_cons(("new_range"@, new_range), e1, "new_text"@);
    lemma_lookup_cons(("new_text"@, Json::Str(new_text)), e2, "new_text"@);
    assert(lookup(e0, "new_text"@) == Some(Json::Str(new_text)));
    lemma_range_bounds(old_from, old_to);
}

/// The position in the old text at which step `k` of a script begins, or
/// the length of the old text after the last step.
pub open spec fn old_at(ops: Seq<EditOp>, old: Seq<char>, k: int) -> int {
    if 0 <= k < ops.len() {
        old_start(ops[k])
    } else {
        old.len() as int
    }
}

/// The position in the new text at which step `k` of a script begins, or
/// the length of the new text after the last step.
pub open spec fn new_at(ops: Seq<EditOp>, new: Seq<char>, k: int) -> int {
    if 0 <= k < ops.len() {
        new_start(ops[k])
    } else {
        new.len() as int
    }
}

/// Whether a replay has written the new text up to step `k`, but for what
/// it has yet to copy from the old text.
pub open spec fn replay_on_track(
    old: Seq<char>,
    new: Seq<char>,
    ops: Seq<EditOp>,
    k: int,
    r: Replay,
) -> bool {
    &&& r.pos <= old_at(ops, old, k)
    &&& r.written + old.subrange(r.pos as int, old_at(ops, old, k)) == new.take(new_at(ops, new, k))
}

/// Every step of a replayable script ends where the next one begins, and
/// the last one at the ends of the two texts.
pub proof fn lemma_script_step(old: Seq<char>, new: Seq<char>, ops: Seq<EditOp>, k: int)
    requires
        replayable_script(ops, old, new),
        0 <= k < ops.len(),
    ensures
        old_at(ops, old, k + 1) == old_end(ops[k]),
        new_at(ops, new, k + 1) == new_end(ops[k]),
        0 <= old_start(ops[k]) <= old_end(ops[k]) <= old.len(),
        0 <= new_start(ops[k]) <= new_end(ops[k]) <= new.len(),
{
    assert(crate::delta::op_in_bounds(ops[k], old.len(), new.len()));
    if k + 1 >= ops.len() {
        assert(ops.last() == ops[k]);
    }
}

/// A replay stays on track over an equal run, which has no entry.
pub proof fn lemma_track_equal(old: Seq<char>, new: Seq<char>, ops: Seq<EditOp>, k: int, r: Replay)
    requires
        replayable_script(ops, old, new),
        0 <= k < ops.len(),
        ops[k] is Equal,
        replay_on_track(old, new, ops, k, r),
    ensures
        replay_on_track(old, new, ops, k + 1, r),
        text_op_json(old, new, ops[k]) is None,
{
    lemma_script_step(old, new, ops, k);
    let os = old_start(ops[k]);
    let oe = old_end(ops[k]);
    let ns = new_start(ops[k]);
    let ne = new_end(ops[k]);
    assert(old.subrange(r.pos as int, oe) =~= old.subrange(r.pos as int, os) + old.subrange(
        os,
        oe,
    ));
    assert(new.take(ne) =~= new.take(ns) + new.subrange(ns, ne));
    assert(r.written + (old.subrange(r.pos as int, os) + old.subrange(os, oe)) =~= (r.written
        + old.subrange(r.pos as int, os)) + old.subrange(os, oe));
}

/// A replay stays on track over the entry of a deleted, an inserted or a
/// replaced run.
pub proof fn lemma_track_change(old: Seq<char>, new: Seq<char>, ops: Seq<EditOp>, k: int, r: Replay)
    requires
        replayable_script(ops, old, new),
        0 <= k < ops.len(),
        !(ops[k] is Equal),
        replay_on_track(old, new, ops, k, r),
    ensures
        text_op_json(old, new, ops[k]) is Some,
        replay_on_track(
            old,
            new,
            ops,
            k + 1,
            replay_step(old, text_op_json(old, new, ops[k])->Some_0, r),
        ),
{
    lemma_script_step(old, new, ops, k);
    let op = ops[k];
    let os = old_start(op);
    let oe = old_end(op);
    let ns = new_start(op);
    let ne = new_end(op);
    let entry = text_op_json(old, new, op)->Some_0;
    let after = replay_step(old, entry, r);
    assert(char_slice(old, r.pos, os as nat) =~= old.subrange(r.pos as int, os));
    assert(old.subrange(oe, oe) =~= Seq::<char>::empty());
    match op {
        EditOp::Delete { old_index, old_len, new_index } => {
            lemma_replay_delete(
                old,
                old_index as u64,
                (old_index + old_len) as u64,
                old.subrange(old_index as int, old_index + old_len),
                r,
            );
            assert(after.pos == oe);
            assert(after.written == new.take(ns));
            assert(after.written + old.subrange(after.pos as int, oe) =~= new.take(ne));
        },
        EditOp::Replace { old_index, old_len, new_index, new_len } => {
            lemma_replay_replace(
                old,
                old_index as u64,
                (old_index + old_len) as u64,
                range_json(new_index as u64, (new_index + new_len) as u64),
                old.subrange(old_index as int, old_index + old_len),
                new.subrange(new_index as int, new_index + new_len),
                r,
            );
            assert(after.pos == oe);
            assert(new.take(ne) =~= new.take(ns) + new.subrange(ns, ne));
            assert(after.written == new.take(ne));
            assert(after.written + old.subrange(after.pos as int, oe) =~= new.take(ne));
        },
        EditOp::Insert { old_index, new_index, new_len } => {
            lemma_replay_insert(
                old,
                new_index as u64,
                (new_index + new_len) as u64,
                new.subrange(new_index as int, new_index + new_len),
                r,
            );
            let gap = old.subrange(r.pos as int, os);
            assert((r.written + gap).len() == new.take(ns).len());
            let n = copied_before_insert(old.len(), r.pos, r.written.len(), new_index as nat);
            assert(n == os - r.pos);
            assert(char_slice(old, r.pos, r.pos + n) =~= gap);
            assert(after.pos == oe);
            assert(new.take(ne) =~= new.take(ns) + new.subrange(ns, ne));
            assert(after.written == new.take(ne));
            assert(after.written + old.subrange(after.pos as int, oe) =~= new.take(ne));
        },
        _ => {},
    }
}

/// Replaying the entries of a replayable script from step `k` on, after
/// what came before was written, gives the new text.
pub proof fn lemma_replay_script(
    old: Seq<char>,
    new: Seq<char>,
    ops: Seq<EditOp>,
    k: int,
    r: Replay,
)
    requires
        replayable_script(ops, old, new),
        0 <= k <= ops.len(),
        replay_on_track(old, new, ops, k, r),
    ensures
        ({
            let end = replay_from(old, text_ops_json(old, new, ops, k), 0, r);
            end.written + char_slice(old, end.pos, old.len()) == new
        }),
    decreases ops.len() - k,
{
    if k >= ops.len() {
        assert(text_ops_json(old, new, ops, k) =~= Seq::<Json>::empty());
        assert(new.take(new.len() as int) =~= new);
        if r.pos >= old.len() {
            assert(old.subrange(r.pos as int, old.len() as int) =~= Seq::<char>::empty());
        }
    } else {
        let rest = text_ops_json(old, new, ops, k + 1);
        if ops[k] is Equal {
            lemma_track_equal(old, new, ops, k, r);
            lemma_replay_script(old, new, ops, k + 1, r);
        } else {
            lemma_track_change(old, new, ops, k, r);
            let entry = text_op_json(old, new, ops[k])->Some_0;
            lemma_replay_cons(old, entry, rest, r);
            lemma_replay_script(old, new, ops, k + 1, replay_step(old, entry, r));
        }
    }
}

/// Replaying the character diff of two texts for a replayable script on
/// the old text gives the new text.
pub proof fn lemma_text_round_trip(old: Seq<char>, new: Seq<char>, ops: Seq<EditOp>)
    requires
        replayable_script(ops, old, new),
    ensures
        replay_text(old, text_ops_json(old, new, ops, 0)) == new,
        patched_by_leaf(Json::Str(old), text_delta(old, new, ops)->Array_0) == Json::Str(new),
        !is_deletion(text_delta(old, new, ops)->Array_0),
        !is_move(text_delta(old, new, ops)->Array_0),
        text_delta(old, new, ops)->Array_0.len() == 3,
{
    let start = Replay { written: Seq::empty(), pos: 0 };
    assert(old.subrange(0, 0) =~= Seq::<char>::empty());
    assert(new.take(0) =~= Seq::<char>::empty());
    assert(start.written + Seq::<char>::empty() =~= Seq::<char>::empty());
    if ops.len() == 0 {
        assert(old.subrange(0, old.len() as int) =~= Seq::<char>::empty());
    }
    assert(replay_on_track(old, new, ops, 0, start));
    lemma_replay_script(old, new, ops, 0, start);
    let list = text_ops_json(old, new, ops, 0);
    let items = text_delta(old, new, ops)->Array_0;
    reveal_strlit("text_diff");
    let none = Seq::<(Seq<char>, Json)>::empty();
    let e = seq![("text_diff"@, Json::Array(list))] + none;
    assert(e =~= seq![("text_diff"@, Json::Array(list))]);
    lemma_lookup_cons(("text_diff"@, Json::Array(list)), none, "text_diff"@);
    assert(json_get(items[0], "text_diff"@) == Some(Json::Array(list)));
    assert(is_text_diff(items));
    assert(uint_json(2) != uint_json(0));
}

/// Applying the delta of two strings to the old string gives the new one,
/// whatever edit script the delta was made for: a script that does not
/// lead from the old string to the new one gives the change of the whole
/// value.
pub proof fn lemma_text_delta_round_trip(old: Seq<char>, new: Seq<char>, ops: Seq<EditOp>)
    ensures
        patched(Json::Str(old), text_delta_or_change(old, new, ops)) == Json::Str(new),
{
    if replayable_script(ops, old, new) {
        lemma_text_round_trip(old, new, ops);
    } else {
        let p = change(Json::Str(old), Json::Str(new))->Array_0;
        assert(p.len() == 2);
        assert(p[1] == Json::Str(new));
    }
}

} // verus!
