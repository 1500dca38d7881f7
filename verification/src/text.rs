//! Strings as sequences of Unicode scalar values: ordering, prefixes, and
//! decimal numerals.

use vstd::prelude::*;

verus! {

/// Lexicographic order of two strings by the code points of their scalar
/// values; a proper prefix comes first.
pub open spec fn text_lt(a: Seq<char>, b: Seq<char>) -> bool
    decreases a.len(),
{
    if b.len() == 0 {
        false
    } else if a.len() == 0 {
        true
    } else if a[0] != b[0] {
        a[0] < b[0]
    } else {
        text_lt(a.skip(1), b.skip(1))
    }
}

/// `text_lt` is irreflexive.
pub proof fn lemma_text_lt_irreflexive(a: Seq<char>)
    ensures
        !text_lt(a, a),
    decreases a.len(),
{
    if a.len() > 0 {
        lemma_text_lt_irreflexive(a.skip(1));
    }
}

/// `text_lt` is transitive.
pub proof fn lemma_text_lt_transitive(a: Seq<char>, b: Seq<char>, c: Seq<char>)
    requires
        text_lt(a, b),
        text_lt(b, c),
    ensures
        text_lt(a, c),
    decreases a.len(),
{
    if a.len() > 0 && b.len() > 0 && c.len() > 0 {
        if a[0] == b[0] && b[0] == c[0] {
            lemma_text_lt_transitive(a.skip(1), b.skip(1), c.skip(1));
        }
    }
}

/// Two different strings are ordered one way or the other.
pub proof fn lemma_text_lt_total(a: Seq<char>, b: Seq<char>)
    ensures
        a == b || text_lt(a, b) || text_lt(b, a),
    decreases a.len(),
{
    if a.len() == 0 || b.len() == 0 {
        if a.len() == 0 && b.len() == 0 {
            assert(a =~= b);
        }
    } else if a[0] == b[0] {
        lemma_text_lt_total(a.skip(1), b.skip(1));
        if a.skip(1) == b.skip(1) {
            assert(a =~= seq![a[0]] + a.skip(1));
            assert(b =~= seq![b[0]] + b.skip(1));
        }
    }
}

/// No two strings are each before the other.
pub proof fn lemma_text_lt_asymmetric(a: Seq<char>, b: Seq<char>)
    requires
        text_lt(a, b),
    ensures
        !text_lt(b, a),
    decreases a.len(),
{
    if a.len() > 0 && b.len() > 0 && a[0] == b[0] {
        lemma_text_lt_asymmetric(a.skip(1), b.skip(1));
    }
}

/// The order of `str` in the standard library: `a < b`. Its documentation
/// says that strings are ordered lexicographically by their byte values,
/// and that this orders them by the code points of their scalar values;
/// the contract states that order.
#[verifier::external_body]
pub(crate) fn str_lt(a: &str, b: &str) -> (r: bool)
    ensures
        r == text_lt(a@, b@),
{
    a < b
}

/// The scalar values of a string, in order.
pub fn chars_of(s: &str) -> (r: Vec<char>)
    ensures
        r@ == s@,
{
    let mut out: Vec<char> = Vec::new();
    for c in it: s.chars()
        invariant
            out@ == it.seq().take(it.index@),
    {
        out.push(c);
    }
    out
}

/// `String::from_iter` of the standard library on the scalar values of a
/// vector: the string that holds exactly those values, in order.
#[verifier::external_body]
pub(crate) fn string_of(chars: &Vec<char>) -> (r: String)
    ensures
        r@ == chars@,
{
    String::from_iter(chars.iter())
}

/// Whether `p` is a prefix of `s`.
pub open spec fn has_prefix(s: Seq<char>, p: Seq<char>) -> bool {
    p.len() <= s.len() && s.subrange(0, p.len() as int) == p
}

/// Whether a string begins with the given text.
pub fn starts_with(s: &Vec<char>, p: &str) -> (r: bool)
    ensures
        r == has_prefix(s@, p@),
{
    let pc = chars_of(p);
    if pc.len() > s.len() {
        return false;
    }
    let mut i: usize = 0;
    while i < pc.len()
        invariant
            i <= pc.len() <= s.len(),
            pc@ == p@,
            forall|j: int| 0 <= j < i ==> s[j] == pc[j],
        decreases pc.len() - i,
    {
        if s[i] != pc[i] {
            assert(s@.subrange(0, p@.len() as int)[i as int] != p@[i as int]);
            return false;
        }
        i += 1;
    }
    assert(s@.subrange(0, p@.len() as int) =~= p@);
    true
}

/// Whether a string begins with the given text.
pub fn str_starts_with(s: &str, p: &str) -> (r: bool)
    ensures
        r == has_prefix(s@, p@),
{
    let sc = chars_of(s);
    starts_with(&sc, p)
}

/// Whether the string holds the scalar value `c`.
pub fn contains_char(s: &Vec<char>, c: char) -> (r: bool)
    ensures
        r == s@.contains(c),
{
    let mut i: usize = 0;
    while i < s.len()
        invariant
            i <= s.len(),
            forall|j: int| 0 <= j < i ==> s[j] != c,
        decreases s.len() - i,
    {
        if s[i] == c {
            return true;
        }
        i += 1;
    }
    false
}

/// The position of the first `c` in `s`, or the length of `s`.
pub open spec fn first_index_of(s: Seq<char>, c: char) -> int
    decreases s.len(),
{
    if s.len() == 0 {
        0
    } else if s[0] == c {
        0
    } else {
        1 + first_index_of(s.skip(1), c)
    }
}

pub proof fn lemma_first_index_of(s: Seq<char>, c: char)
    ensures
        0 <= first_index_of(s, c) <= s.len(),
        first_index_of(s, c) < s.len() ==> s[first_index_of(s, c)] == c,
        forall|j: int| 0 <= j < first_index_of(s, c) ==> s[j] != c,
    decreases s.len(),
{
    if s.len() > 0 && s[0] != c {
        lemma_first_index_of(s.skip(1), c);
        assert forall|j: int| 0 <= j < first_index_of(s, c) implies s[j] != c by {
            if j > 0 {
                assert(s.skip(1)[j - 1] == s[j]);
            }
        }
    }
}

/// The position of the first `c` in `s`, or the length of `s`.
pub fn find_char(s: &Vec<char>, c: char) -> (r: usize)
    ensures
        r == first_index_of(s@, c),
{
    let mut i: usize = 0;
    proof {
        assert(s@.skip(0) =~= s@);
    }
    while i < s.len()
        invariant
            i <= s.len(),
            first_index_of(s@, c) == i + first_index_of(s@.skip(i as int), c),
        decreases s.len() - i,
    {
        if s[i] == c {
            return i;
        }
        proof {
            assert(s@.skip(i as int).skip(1) =~= s@.skip(i + 1));
        }
        i += 1;
    }
    i
}

/// The part of `s` from `from` up to, not including, `to`.
pub fn slice_chars(s: &Vec<char>, from: usize, to: usize) -> (r: Vec<char>)
    requires
        from <= to <= s.len(),
    ensures
        r@ == s@.subrange(from as int, to as int),
{
    let mut out: Vec<char> = Vec::new();
    let mut i: usize = from;
    while i < to
        invariant
            from <= i <= to <= s.len(),
            out@ == s@.subrange(from as int, i as int),
        decreases to - i,
    {
        out.push(s[i]);
        proof {
            assert(s@.subrange(from as int, i as int).push(s@[i as int]) =~= s@.subrange(
                from as int,
                i + 1,
            ));
        }
        i += 1;
    }
    out
}

/// Appends the scalar values of `more` to `out`.
pub fn push_chars(out: &mut Vec<char>, more: &Vec<char>)
    ensures
        final(out)@ == old(out)@ + more@,
{
    let mut i: usize = 0;
    while i < more.len()
        invariant
            i <= more.len(),
            out@ == old(out)@ + more@.take(i as int),
        decreases more.len() - i,
    {
        out.push(more[i]);
        proof {
            assert(more@.take(i as int).push(more@[i as int]) =~= more@.take(i + 1));
        }
        i += 1;
    }
    proof {
        assert(more@.take(more.len() as int) =~= more@);
    }
}

/// Appends the scalar values of a string to `out`.
pub fn push_str(out: &mut Vec<char>, more: &str)
    ensures
        final(out)@ == old(out)@ + more@,
{
    let m = chars_of(more);
    push_chars(out, &m);
}

/// The decimal digit for `d`.
pub open spec fn digit_char(d: nat) -> char
    recommends
        d < 10,
{
    if d == 0 {
        '0'
    } else if d == 1 {
        '1'
    } else if d == 2 {
        '2'
    } else if d == 3 {
        '3'
    } else if d == 4 {
        '4'
    } else if d == 5 {
        '5'
    } else if d == 6 {
        '6'
    } else if d == 7 {
        '7'
    } else if d == 8 {
        '8'
    } else {
        '9'
    }
}

/// Whether `c` is one of the ten decimal digits.
pub open spec fn is_digit(c: char) -> bool {
    '0' <= c <= '9'
}

/// The value of a decimal digit.
pub open spec fn digit_value(c: char) -> nat
    recommends
        is_digit(c),
{
    (c as u32 - '0' as u32) as nat
}

/// The decimal numeral of `n`, without sign or leading zeros.
pub open spec fn decimal(n: nat) -> Seq<char>
    decreases n,
{
    if n < 10 {
        seq![digit_char(n)]
    } else {
        decimal(n / 10).push(digit_char(n % 10))
    }
}

/// Whether every scalar value of `s` is a decimal digit.
pub open spec fn all_digits(s: Seq<char>) -> bool {
    forall|i: int| 0 <= i < s.len() ==> is_digit(#[trigger] s[i])
}

/// The number that a string of decimal digits denotes.
pub open spec fn digits_value(s: Seq<char>) -> nat
    decreases s.len(),
{
    if s.len() == 0 {
        0
    } else {
        digits_value(s.drop_last()) * 10 + digit_value(s.last())
    }
}

/// The number that a numeral denotes: an optional `+`, then one or more
/// decimal digits. Anything else denotes nothing.
pub open spec fn parse_decimal(s: Seq<char>) -> Option<nat> {
    let body = if s.len() > 0 && s[0] == '+' {
        s.skip(1)
    } else {
        s
    };
    if body.len() > 0 && all_digits(body) {
        Some(digits_value(body))
    } else {
        None
    }
}

/// The unsigned 64-bit number that a numeral denotes, if it fits.
pub open spec fn parse_u64_model(s: Seq<char>) -> Option<u64> {
    match parse_decimal(s) {
        Some(n) => if n <= u64::MAX {
            Some(n as u64)
        } else {
            None
        },
        None => None,
    }
}

/// The index that a numeral denotes, if it fits.
pub open spec fn parse_index_model(s: Seq<char>) -> Option<usize> {
    match parse_decimal(s) {
        Some(n) => if n <= usize::MAX {
            Some(n as usize)
        } else {
            None
        },
        None => None,
    }
}

pub proof fn lemma_digit_char(d: nat)
    requires
        d < 10,
    ensures
        is_digit(digit_char(d)),
        digit_value(digit_char(d)) == d,
        digit_char(d) != '+',
        digit_char(d) != '_',
        digit_char(d) != '-',
{
}

/// A decimal numeral is made of digits and denotes its number.
pub proof fn lemma_decimal_digits(n: nat)
    ensures
        decimal(n).len() > 0,
        all_digits(decimal(n)),
        digits_value(decimal(n)) == n,
        decimal(n)[0] != '+',
    decreases n,
{
    if n < 10 {
        lemma_digit_char(n);
        assert(decimal(n).drop_last() =~= Seq::<char>::empty());
        assert(digits_value(Seq::<char>::empty()) == 0);
    } else {
        lemma_decimal_digits(n / 10);
        lemma_digit_char(n % 10);
        assert(decimal(n).drop_last() =~= decimal(n / 10));
    }
}

/// Reading back the numeral of a number gives the number.
pub proof fn lemma_parse_decimal_of_decimal(n: nat)
    ensures
        parse_decimal(decimal(n)) == Some(n),
{
    lemma_decimal_digits(n);
}

/// The digits read so far never denote more than the whole numeral.
pub proof fn lemma_digits_value_prefix(s: Seq<char>, i: int)
    requires
        0 <= i <= s.len(),
    ensures
        digits_value(s.take(i)) <= digits_value(s),
    decreases s.len() - i,
{
    if i < s.len() {
        lemma_digits_value_prefix(s, i + 1);
        assert(s.take(i + 1).drop_last() =~= s.take(i));
    } else {
        assert(s.take(i) =~= s);
    }
}

/// The decimal digit for `d`.
pub fn digit_of(d: u8) -> (c: char)
    requires
        d < 10,
    ensures
        c == digit_char(d as nat),
{
    if d == 0 {
        '0'
    } else if d == 1 {
        '1'
    } else if d == 2 {
        '2'
    } else if d == 3 {
        '3'
    } else if d == 4 {
        '4'
    } else if d == 5 {
        '5'
    } else if d == 6 {
        '6'
    } else if d == 7 {
        '7'
    } else if d == 8 {
        '8'
    } else {
        '9'
    }
}

/// Appends the decimal numeral of `n` to `out`.
pub fn push_decimal(out: &mut Vec<char>, n: u64)
    ensures
        final(out)@ == old(out)@ + decimal(n as nat),
    decreases n,
{
    if n >= 10 {
        push_decimal(out, n / 10);
    }
    out.push(digit_of((n % 10) as u8));
    proof {
        if n >= 10 {
            assert(final(out)@ =~= old(out)@ + decimal(n as nat));
        } else {
            assert(final(out)@ =~= old(out)@ + decimal(n as nat));
        }
    }
}

/// The decimal numeral of `n`.
pub fn decimal_chars(n: u64) -> (r: Vec<char>)
    ensures
        r@ == decimal(n as nat),
{
    let mut out: Vec<char> = Vec::new();
    push_decimal(&mut out, n);
    assert(out@ =~= decimal(n as nat));
    out
}

/// Reads a numeral: an optional `+`, then one or more decimal digits.
/// Returns the number it denotes if that fits in 64 bits.
pub fn parse_u64(s: &Vec<char>) -> (r: Option<u64>)
    ensures
        r == parse_u64_model(s@),
{
    let start: usize = if s.len() > 0 && s[0] == '+' {
        1
    } else {
        0
    };
    let ghost body = s@.skip(start as int);
    proof {
        assert(s@.skip(0) =~= s@);
    }
    if start >= s.len() {
        return None;
    }
    let mut acc: u64 = 0;
    let mut i: usize = start;
    while i < s.len()
        invariant
            start <= i <= s.len(),
            body == s@.skip(start as int),
            body.len() > 0,
            parse_decimal(s@) == if all_digits(body) {
                Some(digits_value(body))
            } else {
                None
            },
            all_digits(body.take(i - start)),
            acc == digits_value(body.take(i - start)),
        decreases s.len() - i,
    {
        let c = s[i];
        if !('0' <= c && c <= '9') {
            assert(!is_digit(body[i - start]));
            return None;
        }
        let d: u64 = (c as u32 - '0' as u32) as u64;
        proof {
            assert(body.take(i - start + 1).drop_last() =~= body.take(i - start));
            assert(body.take(i - start + 1).last() == c);
            assert(digits_value(body.take(i - start + 1)) == acc * 10 + d);
            lemma_digits_value_prefix(body, i - start + 1);
        }
        if acc > (u64::MAX - d) / 10 {
            proof {
                assert(acc * 10 + d > u64::MAX);
                if all_digits(body) {
                    assert(digits_value(body) > u64::MAX);
                }
            }
            return None;
        }
        acc = acc * 10 + d;
        i += 1;
    }
    proof {
        assert(body.take(i - start) =~= body);
    }
    Some(acc)
}

/// Reads a numeral as an index.
pub fn parse_index(s: &Vec<char>) -> (r: Option<usize>)
    ensures
        r == parse_index_model(s@),
{
    match parse_u64(s) {
        Some(n) => {
            if n <= usize::MAX as u64 {
                Some(n as usize)
            } else {
                None
            }
        },
        None => None,
    }
}

/// The signed 64-bit number that a numeral denotes: an optional sign, then
/// one or more decimal digits. Anything else, and a number that does not
/// fit, denotes nothing.
pub open spec fn parse_i64_model(s: Seq<char>) -> Option<i64> {
    if s.len() > 0 && s[0] == '-' {
        let body = s.skip(1);
        if body.len() > 0 && all_digits(body) && digits_value(body) <= 0x8000_0000_0000_0000 {
            Some((-(digits_value(body) as int)) as i64)
        } else {
            None
        }
    } else {
        match parse_decimal(s) {
            Some(n) => if n <= i64::MAX {
                Some(n as i64)
            } else {
                None
            },
            None => None,
        }
    }
}

/// Reads a numeral with an optional sign as a signed 64-bit number.
pub fn parse_i64(s: &Vec<char>) -> (r: Option<i64>)
    ensures
        r == parse_i64_model(s@),
{
    if s.len() > 0 && s[0] == '-' {
        let body = slice_chars(s, 1, s.len());
        assert(body@ =~= s@.skip(1));
        if body.len() > 0 && body[0] == '+' {
            assert(!is_digit(body@[0]));
            return None;
        }
        match parse_u64(&body) {
            Some(n) => {
                if n <= 0x8000_0000_0000_0000 {
                    if n == 0x8000_0000_0000_0000 {
                        Some(i64::MIN)
                    } else {
                        Some(-(n as i64))
                    }
                } else {
                    None
                }
            },
            None => None,
        }
    } else {
        match parse_u64(s) {
            Some(n) => {
                if n <= i64::MAX as u64 {
                    Some(n as i64)
                } else {
                    None
                }
            },
            None => None,
        }
    }
}

/// A numeral with zeros before it up to the given width.
pub open spec fn zero_padded(digits: Seq<char>, width: nat) -> Seq<char> {
    if digits.len() < width {
        Seq::new((width - digits.len()) as nat, |i: int| '0') + digits
    } else {
        digits
    }
}

/// Appends the decimal numeral of `n`, with zeros before it up to the given
/// width.
pub fn push_padded_decimal(out: &mut Vec<char>, n: u64, width: usize)
    ensures
        final(out)@ == old(out)@ + zero_padded(decimal(n as nat), width as nat),
{
    let digits = decimal_chars(n);
    let pad: usize = if digits.len() < width {
        width - digits.len()
    } else {
        0
    };
    let mut k: usize = 0;
    assert(out@ =~= old(out)@ + Seq::new(0nat, |i: int| '0'));
    while k < pad
        invariant
            k <= pad,
            out@ == old(out)@ + Seq::new(k as nat, |i: int| '0'),
        decreases pad - k,
    {
        out.push('0');
        assert(out@ =~= old(out)@ + Seq::new((k + 1) as nat, |i: int| '0'));
        k += 1;
    }
    let ghost zeros = out@;
    push_chars(out, &digits);
    proof {
        if digits.len() < width {
            assert(out@ =~= old(out)@ + zero_padded(decimal(n as nat), width as nat));
        } else {
            assert(zeros =~= old(out)@);
        }
    }
}

/// The position after the last `/` or `#` before position `n`, or 0 where
/// there is none.
pub open spec fn local_start(s: Seq<char>, n: int) -> int
    decreases n,
{
    if n <= 0 || n > s.len() {
        0
    } else if s[n - 1] == '/' || s[n - 1] == '#' {
        n
    } else {
        local_start(s, n - 1)
    }
}

/// The local name of an IRI: what follows its last `/` or `#`, or the whole
/// of it where it has neither.
pub open spec fn local_name(iri: Seq<char>) -> Seq<char> {
    iri.subrange(local_start(iri, iri.len() as int), iri.len() as int)
}

/// The local name of an IRI.
pub fn iri_local_name(iri: &str) -> (r: String)
    ensures
        r@ == local_name(iri@),
{
    let s = chars_of(iri);
    let mut n: usize = s.len();
    let mut found = false;
    while !found && n > 0
        invariant
            n <= s.len(),
            found ==> n > 0 && (s[n - 1] == '/' || s[n - 1] == '#'),
            local_start(s@, n as int) == local_start(s@, s.len() as int),
        decreases n + if found { 0int } else { 1int },
    {
        if s[n - 1] == '/' || s[n - 1] == '#' {
            found = true;
        } else {
            n -= 1;
        }
    }
    let part = slice_chars(&s, n, s.len());
    string_of(&part)
}

/// The first position at or after `from` that holds a text not before `t`,
/// or the length of the list.
pub open spec fn text_position(set: Seq<Seq<char>>, t: Seq<char>, from: int) -> int
    decreases set.len() - from,
{
    if from < 0 || from >= set.len() {
        set.len() as int
    } else if !text_lt(set[from], t) {
        from
    } else {
        text_position(set, t, from + 1)
    }
}

/// The list of texts with `t` in it: a list in ascending order without
/// repetitions stays so, and a text that is in it is not added again.
pub open spec fn with_text(set: Seq<Seq<char>>, t: Seq<char>) -> Seq<Seq<char>> {
    let at = text_position(set, t, 0);
    if at < set.len() && set[at] == t {
        set
    } else {
        set.insert(at, t)
    }
}

/// Whether the texts of a list ascend, so that none stands twice.
pub open spec fn texts_ascending(set: Seq<Seq<char>>) -> bool {
    forall|i: int, j: int|
        0 <= i < j < set.len() ==> text_lt(#[trigger] set[i], #[trigger] set[j])
}

/// The texts before the position of a text come before it, and the text
/// at its position does not.
pub proof fn lemma_text_position(set: Seq<Seq<char>>, t: Seq<char>, from: int)
    requires
        0 <= from <= set.len(),
    ensures
        from <= text_position(set, t, from) <= set.len(),
        forall|i: int| from <= i < text_position(set, t, from) ==> text_lt(#[trigger] set[i], t),
        text_position(set, t, from) < set.len() ==> !text_lt(set[text_position(set, t, from)], t),
    decreases set.len() - from,
{
    if from < set.len() && text_lt(set[from], t) {
        lemma_text_position(set, t, from + 1);
    }
}

/// An ascending list of texts with one more text ascends; it holds that
/// text and those it held; and it is the list itself where the list held
/// the text.
pub proof fn lemma_with_text(set: Seq<Seq<char>>, t: Seq<char>)
    requires
        texts_ascending(set),
    ensures
        texts_ascending(with_text(set, t)),
        forall|k: Seq<char>| with_text(set, t).contains(k) <==> set.contains(k) || k == t,
        set.contains(t) ==> with_text(set, t) == set,
{
    lemma_text_position(set, t, 0);
    let at = text_position(set, t, 0);
    let next = with_text(set, t);
    lemma_text_lt_irreflexive(t);
    if set.contains(t) {
        let p = choose|p: int| 0 <= p < set.len() && set[p] == t;
        if p < at {
            assert(text_lt(set[p], t));
        }
        if p > at {
            assert(text_lt(set[at], set[p]));
        }
        assert(p == at);
    }
    if at < set.len() && set[at] == t {
        assert forall|k: Seq<char>| next.contains(k) <==> set.contains(k) || k == t by {
            if k == t {
                assert(set[at] == k);
            }
        }
    } else {
        assert(next == set.insert(at, t));
        assert forall|i: int, j: int| 0 <= i < j < next.len() implies text_lt(
            #[trigger] next[i],
            #[trigger] next[j],
        ) by {
            if j < at {
                assert(next[i] == set[i] && next[j] == set[j]);
            } else if j == at {
                assert(next[i] == set[i]);
            } else if i == at {
                assert(next[j] == set[j - 1]);
                lemma_text_lt_total(set[at], t);
                if j - 1 > at {
                    assert(text_lt(set[at], set[j - 1]));
                    lemma_text_lt_transitive(t, set[at], set[j - 1]);
                }
            } else if i < at {
                assert(next[i] == set[i] && next[j] == set[j - 1]);
                assert(text_lt(set[i], t));
                lemma_text_lt_total(set[at], t);
                if j - 1 > at {
                    assert(text_lt(set[at], set[j - 1]));
                }
                if i < j - 1 {
                    assert(text_lt(set[i], set[j - 1]));
                }
            } else {
                assert(next[i] == set[i - 1] && next[j] == set[j - 1]);
            }
        }
        assert(next[at] == t);
        assert forall|k: Seq<char>| next.contains(k) <==> set.contains(k) || k == t by {
            if next.contains(k) {
                let x = choose|x: int| 0 <= x < next.len() && next[x] == k;
                if x < at {
                    assert(set[x] == k);
                } else if x > at {
                    assert(set[x - 1] == k);
                }
            }
            if set.contains(k) {
                let x = choose|x: int| 0 <= x < set.len() && set[x] == k;
                if x < at {
                    assert(next[x] == k);
                } else {
                    assert(next[x + 1] == k);
                }
            }
        }
    }
}

/// The position of the first text at or after `from` that is `t`.
pub open spec fn text_index_from(set: Seq<Seq<char>>, t: Seq<char>, from: int) -> Option<int>
    decreases set.len() - from,
{
    if from < 0 || from >= set.len() {
        None
    } else if set[from] == t {
        Some(from)
    } else {
        text_index_from(set, t, from + 1)
    }
}

/// The position of the first text that is `t`.
pub open spec fn text_index(set: Seq<Seq<char>>, t: Seq<char>) -> Option<int> {
    text_index_from(set, t, 0)
}

/// The texts of a list of strings.
pub open spec fn texts_model(v: Seq<String>) -> Seq<Seq<char>> {
    Seq::new(v.len(), |i: int| v[i]@)
}

/// Puts a text into a list kept in ascending order without repetitions.
pub fn insert_text(set: &mut Vec<String>, t: &str)
    ensures
        texts_model(final(set)@) == with_text(texts_model(old(set)@), t@),
{
    let ghost model = texts_model(set@);
    let mut i: usize = 0;
    let mut found = false;
    while !found && i < set.len()
        invariant
            i <= set.len(),
            set@ == old(set)@,
            model == texts_model(set@),
            found ==> i < set.len() && !text_lt(model[i as int], t@),
            text_position(model, t@, 0) == text_position(model, t@, i as int),
        decreases set.len() - i + if found { 0int } else { 1int },
    {
        if str_lt(set[i].as_str(), t) {
            i += 1;
        } else {
            found = true;
        }
    }
    if i < set.len() {
        let one = set[i].clone();
        let same = one == t.to_owned();
        if same {
            return;
        }
    }
    set.insert(i, t.to_owned());
    assert(texts_model(set@) =~= model.insert(i as int, t@));
}

/// The position of a text in a list.
pub fn find_text(set: &Vec<String>, t: &str) -> (r: Option<usize>)
    ensures
        match r {
            Some(i) => i < set.len() && text_index(texts_model(set@), t@) == Some(i as int),
            None => text_index(texts_model(set@), t@) is None,
        },
{
    let ghost model = texts_model(set@);
    let owned = t.to_owned();
    let mut i: usize = 0;
    while i < set.len()
        invariant
            i <= set.len(),
            owned@ == t@,
            model == texts_model(set@),
            text_index(model, t@) == text_index_from(model, t@, i as int),
        decreases set.len() - i,
    {
        if set[i] == owned {
            return Some(i);
        }
        i += 1;
    }
    None
}

} // verus!
