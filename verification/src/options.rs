//! The options of a structural diff, and how they are read from pairs of
//! texts.

use crate::text::{chars_of, parse_index, parse_index_model};
use crate::value::same_text;
use vstd::prelude::*;

verus! {

/// The strategy for arrays that a caller asks for.
#[derive(Debug, Clone, Copy, PartialEq, Eq, Structural)]
pub enum ArrayDiffAlgorithm {
    Lcs,
    Simple,
    Myers,
}

/// The options of a structural diff.
#[derive(Debug, Clone, Copy, PartialEq, Eq, Structural)]
pub struct DiffOptions {
    /// Whether an array item that only changed its place is marked as a
    /// move.
    pub include_moves: bool,
    /// The strategy for arrays.
    pub array_diff_algorithm: ArrayDiffAlgorithm,
    /// Whether long strings are compared character by character.
    pub text_diff: bool,
    /// The length, in scalar values, above which both strings must be for a
    /// character diff.
    pub text_diff_threshold: usize,
    /// The depth to which objects are hashed.
    pub object_hash_depth: usize,
}

/// The options of a diff for which none were given.
pub open spec fn default_diff_options() -> DiffOptions {
    DiffOptions {
        include_moves: true,
        array_diff_algorithm: ArrayDiffAlgorithm::Lcs,
        text_diff: true,
        text_diff_threshold: 60,
        object_hash_depth: 3,
    }
}

impl Default for DiffOptions {
    fn default() -> (r: DiffOptions)
        ensures
            r == default_diff_options(),
    {
        DiffOptions {
            include_moves: true,
            array_diff_algorithm: ArrayDiffAlgorithm::Lcs,
            text_diff: true,
            text_diff_threshold: 60,
            object_hash_depth: 3,
        }
    }
}

/// The models of a list of pairs of texts.
pub open spec fn pairs_model(opts: Seq<(String, String)>) -> Seq<(Seq<char>, Seq<char>)> {
    Seq::new(opts.len(), |i: int| (opts[i].0@, opts[i].1@))
}

/// What a text says of a switch: `true`, `false`, or else the default.
pub open spec fn flag_from(value: Seq<char>, default: bool) -> bool {
    if value == "true"@ {
        true
    } else if value == "false"@ {
        false
    } else {
        default
    }
}

/// What a text says of the array strategy; `lcs` for a text that names none.
pub open spec fn algorithm_from(value: Seq<char>) -> ArrayDiffAlgorithm {
    if value == "simple"@ {
        ArrayDiffAlgorithm::Simple
    } else if value == "myers"@ {
        ArrayDiffAlgorithm::Myers
    } else {
        ArrayDiffAlgorithm::Lcs
    }
}

/// The options after one more pair: a known key sets its option, to the
/// default where the value is malformed; an unknown key changes nothing.
pub open spec fn diff_option_step(o: DiffOptions, key: Seq<char>, value: Seq<char>) -> DiffOptions {
    if key == "include_moves"@ {
        DiffOptions { include_moves: flag_from(value, true), ..o }
    } else if key == "array_diff"@ {
        DiffOptions { array_diff_algorithm: algorithm_from(value), ..o }
    } else if key == "text_diff"@ {
        DiffOptions { text_diff: flag_from(value, true), ..o }
    } else if key == "text_diff_threshold"@ {
        DiffOptions {
            text_diff_threshold: match parse_index_model(value) {
                Some(n) => n,
                None => 60,
            },
            ..o
        }
    } else {
        o
    }
}

/// The options after the pairs from position `i`, taken in order.
pub open spec fn diff_options_from(
    opts: Seq<(Seq<char>, Seq<char>)>,
    i: int,
    o: DiffOptions,
) -> DiffOptions
    decreases opts.len() - i,
{
    if i < 0 || i >= opts.len() {
        o
    } else {
        diff_options_from(opts, i + 1, diff_option_step(o, opts[i].0, opts[i].1))
    }
}

/// Reads a switch.
pub fn parse_flag(value: &str, default: bool) -> (r: bool)
    ensures
        r == flag_from(value@, default),
{
    if same_text(value, "true") {
        true
    } else if same_text(value, "false") {
        false
    } else {
        default
    }
}

/// Reads the options of a structural diff from pairs of key and value,
/// starting from the defaults.
pub fn parse_diff_options(opts: &Vec<(String, String)>) -> (r: DiffOptions)
    ensures
        r == diff_options_from(pairs_model(opts@), 0, default_diff_options()),
{
    let mut options = DiffOptions::default();
    let ghost model = pairs_model(opts@);
    let mut i: usize = 0;
    while i < opts.len()
        invariant
            i <= opts.len(),
            model == pairs_model(opts@),
            diff_options_from(model, i as int, options) == diff_options_from(
                model,
                0,
                default_diff_options(),
            ),
        decreases opts.len() - i,
    {
        let key = opts[i].0.as_str();
        let value = opts[i].1.as_str();
        if same_text(key, "include_moves") {
            options.include_moves = parse_flag(value, true);
        } else if same_text(key, "array_diff") {
            options.array_diff_algorithm = if same_text(value, "simple") {
                ArrayDiffAlgorithm::Simple
            } else if same_text(value, "myers") {
                ArrayDiffAlgorithm::Myers
            } else {
                ArrayDiffAlgorithm::Lcs
            };
        } else if same_text(key, "text_diff") {
            options.text_diff = parse_flag(value, true);
        } else if same_text(key, "text_diff_threshold") {
            options.text_diff_threshold = match parse_index(&chars_of(value)) {
                Some(n) => n,
                None => 60,
            };
        }
        i += 1;
    }
    options
}

} // verus!
