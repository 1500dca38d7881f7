//! What the move markers in the delta of two arrays say.

use crate::delta::{addition, deletion, index_key, insertion_key, move_marker, uint_json};
use crate::diff::{
    array_delta_moves, delta, first_free_match, longer, move_step, moves_phase, no_moves,
    rest_phase, MovePlan,
};
use crate::move_round_trip::lemma_first_free_match;
use crate::options::DiffOptions;
use crate::value::{
    insert_entry, insert_position_from, key_index, lemma_insert_position_from,
    lemma_key_index_from, Entries, Json, NumberModel,
};
use vstd::prelude::*;

verus! {

/// Whether a delta has the shape of a move marker that names a source:
/// `["", from, 3]`.
pub open spec fn is_marker(v: Json) -> bool {
    match v {
        Json::Array(p) => p.len() == 3 && p[0] == Json::Str(Seq::empty()) && p[2] == uint_json(3)
            && (p[1] matches Json::Number(NumberModel::PosInt(_))),
        _ => false,
    }
}

/// The place of the old array that a move marker names.
pub open spec fn source_of(v: Json) -> nat {
    match v {
        Json::Array(p) => match p[1] {
            Json::Number(NumberModel::PosInt(f)) => f as nat,
            _ => 0,
        },
        _ => 0,
    }
}

/// Whether an entry that is a move marker stands under the key of a place
/// of the new array and names another place, one of the old array, that
/// holds an item equal to the one at its own place.
pub open spec fn marker_names_equal_item(a: Seq<Json>, b: Seq<Json>, entry: (Seq<char>, Json)) -> bool {
    is_marker(entry.1) ==> exists|t: nat|
        entry.0 == #[trigger] index_key(t) && t < b.len() && source_of(entry.1) < a.len()
            && source_of(entry.1) != t && a[source_of(entry.1) as int] == b[t as int]
}

/// Whether every move marker among the entries names an equal item at a
/// taken place of the old array, and no two of them name one place.
pub open spec fn marks_sound(a: Seq<Json>, b: Seq<Json>, uo: Seq<bool>, d: Entries) -> bool {
    &&& forall|x: int|
        0 <= x < d.len() ==> marker_names_equal_item(a, b, #[trigger] d[x]) && (is_marker(d[x].1)
            ==> source_of(d[x].1) < uo.len() && uo[source_of(d[x].1) as int])
    &&& forall|x: int, y: int|
        0 <= x < y < d.len() && is_marker((#[trigger] d[x]).1) && is_marker((#[trigger] d[y]).1)
            ==> source_of(d[x].1) != source_of(d[y].1)
}

/// Putting in an entry that is no move marker, or one that names an equal
/// item at a place that no other marker names, keeps the markers sound.
pub proof fn lemma_insert_entry_marks(
    a: Seq<Json>,
    b: Seq<Json>,
    uo: Seq<bool>,
    d: Entries,
    key: Seq<char>,
    v: Json,
)
    requires
        marks_sound(a, b, uo, d),
        marker_names_equal_item(a, b, (key, v)),
        is_marker(v) ==> source_of(v) < uo.len() && uo[source_of(v) as int],
        is_marker(v) ==> forall|x: int|
            0 <= x < d.len() && is_marker((#[trigger] d[x]).1) ==> source_of(d[x].1) != source_of(v),
    ensures
        marks_sound(a, b, uo, insert_entry(d, key, v)),
{
    let next = insert_entry(d, key, v);
    lemma_key_index_from(d, key, 0);
    lemma_insert_position_from(d, key, 0);
    match key_index(d, key) {
        Some(i) => {
            assert(next == d.update(i, (key, v)));
            assert forall|x: int| 0 <= x < next.len() implies marker_names_equal_item(
                a,
                b,
                #[trigger] next[x],
            ) && (is_marker(next[x].1) ==> source_of(next[x].1) < uo.len() && uo[source_of(
                next[x].1,
            ) as int]) by {
                if x != i {
                    assert(next[x] == d[x]);
                }
            }
            assert forall|x: int, y: int|
                0 <= x < y < next.len() && is_marker((#[trigger] next[x]).1) && is_marker(
                    (#[trigger] next[y]).1,
                ) implies source_of(next[x].1) != source_of(next[y].1) by {
                if x != i {
                    assert(next[x] == d[x]);
                }
                if y != i {
                    assert(next[y] == d[y]);
                }
            }
        },
        None => {
            let p = insert_position_from(d, key, 0);
            assert(next == d.insert(p, (key, v)));
            assert forall|x: int| 0 <= x < next.len() implies marker_names_equal_item(
                a,
                b,
                #[trigger] next[x],
            ) && (is_marker(next[x].1) ==> source_of(next[x].1) < uo.len() && uo[source_of(
                next[x].1,
            ) as int]) by {
                if x < p {
                    assert(next[x] == d[x]);
                } else if x > p {
                    assert(next[x] == d[x - 1]);
                }
            }
            assert forall|x: int, y: int|
                0 <= x < y < next.len() && is_marker((#[trigger] next[x]).1) && is_marker(
                    (#[trigger] next[y]).1,
                ) implies source_of(next[x].1) != source_of(next[y].1) by {
                if x < p {
                    assert(next[x] == d[x]);
                } else if x > p {
                    assert(next[x] == d[x - 1]);
                }
                if y < p {
                    assert(next[y] == d[y]);
                } else if y > p {
                    assert(next[y] == d[y - 1]);
                }
            }
        },
    }
}

/// The delta of two documents is no move marker.
pub proof fn lemma_delta_is_no_marker(old: Json, new: Json, o: DiffOptions)
    ensures
        !is_marker(delta(old, new, o)),
{
    assert(uint_json(2) != uint_json(3));
}

/// The search keeps the markers sound.
pub proof fn lemma_moves_phase_marks(a: Seq<Json>, b: Seq<Json>, j: int, plan: MovePlan)
    requires
        a.len() <= usize::MAX,
        0 <= j,
        plan.used_old.len() == a.len(),
        marks_sound(a, b, plan.used_old, plan.marks),
    ensures
        moves_phase(a, b, j, plan).used_old.len() == a.len(),
        marks_sound(a, b, moves_phase(a, b, j, plan).used_old, moves_phase(a, b, j, plan).marks),
    decreases b.len() - j,
{
    if j < b.len() {
        let uo = plan.used_old;
        let k = first_free_match(a, uo, b[j], 0);
        lemma_first_free_match(a, uo, b[j], 0);
        let next = move_step(a, b, j, plan);
        if k < a.len() {
            let uo2 = uo.update(k, true);
            assert forall|x: int| 0 <= x < plan.marks.len() implies marker_names_equal_item(
                a,
                b,
                #[trigger] plan.marks[x],
            ) && (is_marker(plan.marks[x].1) ==> source_of(plan.marks[x].1) < uo2.len()
                && uo2[source_of(plan.marks[x].1) as int]) by {
            }
            assert(marks_sound(a, b, uo2, plan.marks));
            if k != j {
                let v = move_marker(k as u64);
                assert(is_marker(v) && source_of(v) == k);
                assert(index_key(j as nat) == index_key(j as nat) && (j as nat) < b.len());
                assert(marker_names_equal_item(a, b, (index_key(j as nat), v)));
                lemma_insert_entry_marks(a, b, uo2, plan.marks, index_key(j as nat), v);
            }
        }
        lemma_moves_phase_marks(a, b, j + 1, next);
    }
}

/// Comparing the places that the search left free keeps the markers
/// sound.
pub proof fn lemma_rest_phase_marks(
    a: Seq<Json>,
    b: Seq<Json>,
    i: int,
    uo: Seq<bool>,
    un: Seq<bool>,
    o: DiffOptions,
    acc: Entries,
)
    requires
        0 <= i,
        marks_sound(a, b, uo, acc),
    ensures
        marks_sound(a, b, uo, rest_phase(a, b, i, uo, un, o, acc)),
    decreases longer(a.len(), b.len()) - i,
{
    if i < longer(a.len(), b.len()) {
        if i < a.len() && i < b.len() && !uo[i] && !un[i] {
            if a[i] == b[i] {
                lemma_rest_phase_marks(a, b, i + 1, uo, un, o, acc);
            } else {
                let d = delta(a[i], b[i], o);
                lemma_delta_is_no_marker(a[i], b[i], o);
                lemma_insert_entry_marks(a, b, uo, acc, index_key(i as nat), d);
                lemma_rest_phase_marks(
                    a,
                    b,
                    i + 1,
                    uo,
                    un,
                    o,
                    insert_entry(acc, index_key(i as nat), d),
                );
            }
        } else if i < a.len() && !uo[i] {
            let d = deletion(a[i]);
            assert(uint_json(0) != uint_json(3));
            assert(!is_marker(d));
            lemma_insert_entry_marks(a, b, uo, acc, index_key(i as nat), d);
            lemma_rest_phase_marks(a, b, i + 1, uo, un, o, insert_entry(acc, index_key(i as nat), d));
        } else if i < b.len() && !un[i] {
            let d = addition(b[i]);
            assert(!is_marker(d));
            lemma_insert_entry_marks(a, b, uo, acc, insertion_key(i as nat), d);
            lemma_rest_phase_marks(
                a,
                b,
                i + 1,
                uo,
                un,
                o,
                insert_entry(acc, insertion_key(i as nat), d),
            );
        } else {
            lemma_rest_phase_marks(a, b, i + 1, uo, un, o, acc);
        }
    }
}

/// In the delta of two arrays that were searched for moves, every move
/// marker stands under the key of a place of the new array and names
/// another place, one of the old array, that holds an item equal to the
/// item at its own place; and no two markers name one place of the old
/// array.
pub proof fn lemma_move_markers(a: Seq<Json>, b: Seq<Json>, o: DiffOptions)
    requires
        a.len() <= usize::MAX,
    ensures
        forall|x: int|
            0 <= x < array_delta_moves(a, b, o).len() ==> marker_names_equal_item(
                a,
                b,
                #[trigger] array_delta_moves(a, b, o)[x],
            ),
        forall|x: int, y: int|
            0 <= x < y < array_delta_moves(a, b, o).len() && is_marker(
                (#[trigger] array_delta_moves(a, b, o)[x]).1,
            ) && is_marker((#[trigger] array_delta_moves(a, b, o)[y]).1) ==> source_of(
                array_delta_moves(a, b, o)[x].1,
            ) != source_of(array_delta_moves(a, b, o)[y].1),
{
    let start = no_moves(a.len(), b.len());
    assert(marks_sound(a, b, start.used_old, start.marks));
    lemma_moves_phase_marks(a, b, 0, start);
    let plan = moves_phase(a, b, 0, start);
    lemma_rest_phase_marks(a, b, 0, plan.used_old, plan.used_new, o, plan.marks);
}

} // verus!
