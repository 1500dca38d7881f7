//! Searches in byte strings.

use crate::expand::{
    turbo_expand_iri, Context, fast_expanded_iri, make_plain_value_object, plain_value_object,
};
use crate::value::{Json, Value};
use vstd::prelude::*;

verus! {

/// The position of the first byte at or after `from` that is `needle`.
pub open spec fn first_byte_from(haystack: Seq<u8>, needle: u8, from: int) -> Option<int>
    decreases haystack.len() - from,
{
    if from < 0 || from >= haystack.len() {
        None
    } else if haystack[from] == needle {
        Some(from)
    } else {
        first_byte_from(haystack, needle, from + 1)
    }
}

/// The position of the first byte that is `needle`.
pub open spec fn first_byte(haystack: Seq<u8>, needle: u8) -> Option<int> {
    first_byte_from(haystack, needle, 0)
}

/// The model of a position that may be missing.
pub open spec fn position_model(p: Option<usize>) -> Option<int> {
    match p {
        Some(i) => Some(i as int),
        None => None,
    }
}

/// `memchr::memchr` of the crate `memchr`: the index of the first
/// occurrence of the byte in the slice, or nothing where it does not
/// occur.
#[verifier::external_body]
pub(crate) fn memchr_first(needle: u8, haystack: &[u8]) -> (r: Option<usize>)
    ensures
        position_model(r) == first_byte(haystack@, needle),
{
    memchr::memchr(needle, haystack)
}

/// Whether `needle` stands in `haystack` at position `at`.
pub open spec fn occurs_at(haystack: Seq<u8>, needle: Seq<u8>, at: int) -> bool {
    0 <= at && at + needle.len() <= haystack.len() && haystack.subrange(
        at,
        at + needle.len(),
    ) == needle
}

/// The first position at or after `from` at which `needle` stands.
pub open spec fn first_occurrence_from(haystack: Seq<u8>, needle: Seq<u8>, from: int) -> Option<int>
    decreases haystack.len() - from,
{
    if from < 0 || from + needle.len() > haystack.len() {
        None
    } else if occurs_at(haystack, needle, from) {
        Some(from)
    } else if from >= haystack.len() {
        None
    } else {
        first_occurrence_from(haystack, needle, from + 1)
    }
}

/// The first position at which `needle` stands.
pub open spec fn first_occurrence(haystack: Seq<u8>, needle: Seq<u8>) -> Option<int> {
    first_occurrence_from(haystack, needle, 0)
}

/// `memchr::memmem::find` of the crate `memchr`: the index of the first
/// occurrence of the needle in the haystack, or nothing where it does not
/// occur.
#[verifier::external_body]
pub(crate) fn memmem_find(haystack: &[u8], needle: &[u8]) -> (r: Option<usize>)
    ensures
        position_model(r) == first_occurrence(haystack@, needle@),
{
    memchr::memmem::find(haystack, needle)
}

/// The position of the first colon in a byte string.
pub fn find_colon_simd(bytes: &[u8]) -> (r: Option<usize>)
    ensures
        position_model(r) == first_byte(bytes@, 58u8),
{
    memchr_first(58u8, bytes)
}

/// The bytes of `://`.
pub open spec fn scheme_separator() -> Seq<u8> {
    seq![58u8, 47u8, 47u8]
}

/// Whether a byte string looks like an IRI: it has at least four bytes and
/// `://` stands in it.
pub fn is_likely_iri_simd(bytes: &[u8]) -> (r: bool)
    ensures
        r == (bytes@.len() >= 4 && first_occurrence(bytes@, scheme_separator()) is Some),
{
    if bytes.len() < 4 {
        return false;
    }
    let needle: [u8; 3] = [58u8, 47u8, 47u8];
    assert(needle@ =~= scheme_separator());
    match memmem_find(bytes, needle.as_slice()) {
        Some(_) => true,
        None => false,
    }
}

/// Whether two byte strings are equal.
pub fn strings_equal_simd(a: &[u8], b: &[u8]) -> (r: bool)
    ensures
        r == (a@ == b@),
{
    if a.len() != b.len() {
        assert(a@.len() != b@.len());
        return false;
    }
    let mut i: usize = 0;
    while i < a.len()
        invariant
            i <= a.len(),
            a.len() == b.len(),
            forall|j: int| 0 <= j < i ==> a@[j] == b@[j],
        decreases a.len() - i,
    {
        if a[i] != b[i] {
            assert(a@[i as int] != b@[i as int]);
            return false;
        }
        i += 1;
    }
    assert(a@ =~= b@);
    true
}

/// The expanded form of a string that stands alone: its fast expanded IRI
/// where it looks like an IRI, else a value object.
pub open spec fn processed_string(s: Seq<char>, bytes: Seq<u8>, ctx: crate::expand::ContextModel) -> Json {
    if bytes.len() >= 4 && first_occurrence(bytes, scheme_separator()) is Some {
        Json::Str(fast_expanded_iri(s, ctx))
    } else {
        plain_value_object(s)
    }
}

/// The expanded form of a string that stands alone.
pub fn turbo_process_json_string(s: &str, active_context: &Context) -> (r: Value)
    ensures
        r@ == processed_string(s@, vstd::utf8::encode_utf8(s@), active_context@),
{
    if is_likely_iri_simd(s.as_bytes()) {
        turbo_expand_iri(s, active_context)
    } else {
        make_plain_value_object(s)
    }
}

} // verus!
