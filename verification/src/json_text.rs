//! The JSON text of a document, as the crate `serde_json` writes it, and
//! the text of a number.

use crate::text::{decimal, push_decimal, push_str, string_of};
use crate::value::{Json, Number, NumberModel, Value};
use vstd::prelude::*;

verus! {

/// A document as the crate `serde_json` holds it: a `Value` of that crate.
#[verifier::external_body]
pub struct Tree {
    root: serde_json::Value,
}

/// The magnitude of a negative integer.
pub open spec fn magnitude(n: i64) -> nat {
    (-(n as int)) as nat
}

/// The text of a number: the decimal numeral of an integer, with `-` before
/// a negative one, and the stored text of any other number.
pub open spec fn number_text(n: NumberModel) -> Seq<char> {
    match n {
        NumberModel::PosInt(v) => decimal(v as nat),
        NumberModel::NegInt(v) => if v < 0 {
            seq!['-'] + decimal(magnitude(v))
        } else {
            decimal(v as nat)
        },
        NumberModel::Float(t) => t,
    }
}

/// Appends the text of a number.
pub fn push_number_text(out: &mut Vec<char>, n: &Number)
    ensures
        final(out)@ == old(out)@ + number_text(n@),
{
    match n {
        Number::PosInt(v) => {
            push_decimal(out, *v);
        },
        Number::NegInt(v) => {
            if *v < 0 {
                out.push('-');
                let m: u64 = ((-(*v + 1)) as u64) + 1;
                assert(m as nat == magnitude(*v));
                push_decimal(out, m);
                assert(out@ =~= old(out)@ + (seq!['-'] + decimal(magnitude(*v))));
            } else {
                push_decimal(out, *v as u64);
            }
        },
        Number::Float(t) => {
            push_str(out, t.as_str());
        },
    }
}

/// The text of a number.
pub fn number_to_text(n: &Number) -> (r: String)
    ensures
        r@ == number_text(n@),
{
    let mut out: Vec<char> = Vec::new();
    push_number_text(&mut out, n);
    assert(out@ =~= number_text(n@));
    string_of(&out)
}

/// The compact JSON text that the crate `serde_json` writes for a
/// document.
pub uninterp spec fn json_text(v: Json) -> Seq<char>;

/// The JSON text on several lines that the crate `serde_json` writes for a
/// document.
pub uninterp spec fn pretty_text(v: Json) -> Seq<char>;

/// A number as a `Value` of the crate `serde_json`: an integer by `From`,
/// any other number by `Number::from_f64` of what its text reads as, or
/// null where that is no finite number. Nothing is claimed of the result.
#[verifier::external_body]
fn number_tree(n: &Number) -> Tree {
    Tree { root: match n {
        Number::PosInt(n) => (*n).into(),
        Number::NegInt(n) => (*n).into(),
        Number::Float(t) => t.parse().ok().and_then(serde_json::Number::from_f64).into(),
    } }
}

/// The document as a `Value` of the crate `serde_json`, part for part, the
/// entries of an object collected into a `Map` of that crate. Nothing is
/// claimed of the result.
#[verifier::external_body]
fn to_tree(v: &Value) -> Tree {
    Tree { root: match v {
        Value::Null => serde_json::Value::Null,
        Value::Bool(b) => (*b).into(),
        Value::Number(n) => number_tree(n).root,
        Value::Str(s) => s.as_str().into(),
        Value::Array(items) => items.iter().map(|x| to_tree(x).root).collect(),
        Value::Object(entries) => entries.iter().map(|e| (e.0.clone(), to_tree(&e.1).root)).collect(),
    } }
}

/// `serde_json::to_string` of the crate `serde_json`, on the document as a
/// value of that crate: the text depends on the document alone, and the
/// contract gives it its name and claims nothing else of it. Writing a
/// value of that crate does not fail.
#[verifier::external_body]
pub(crate) fn write_compact(v: &Value) -> (r: String)
    ensures
        r@ == json_text(v@),
{
    serde_json::to_string(&to_tree(v).root).unwrap_or_default()
}

/// `serde_json::to_string_pretty` of the crate `serde_json`, on the
/// document as a value of that crate: the text depends on the document
/// alone, and the contract gives it its name and claims nothing else of
/// it. Writing a value of that crate does not fail.
#[verifier::external_body]
pub(crate) fn write_pretty(v: &Value) -> (r: String)
    ensures
        r@ == pretty_text(v@),
{
    serde_json::to_string_pretty(&to_tree(v).root).unwrap_or_default()
}

/// The compact JSON text of a document.
pub fn to_json_text(v: &Value) -> (r: String)
    ensures
        r@ == json_text(v@),
{
    write_compact(v)
}

/// Appends the compact JSON text of a document.
pub fn push_json_text(out: &mut Vec<char>, v: &Value)
    ensures
        final(out)@ == old(out)@ + json_text(v@),
{
    let t = write_compact(v);
    push_str(out, t.as_str());
}

/// The JSON text of a document on several lines.
pub fn to_pretty_text(v: &Value) -> (r: String)
    ensures
        r@ == pretty_text(v@),
{
    write_pretty(v)
}

/// Appends the JSON text of a document on several lines.
pub fn push_pretty_text(out: &mut Vec<char>, v: &Value)
    ensures
        final(out)@ == old(out)@ + pretty_text(v@),
{
    let t = write_pretty(v);
    push_str(out, t.as_str());
}

} // verus!
