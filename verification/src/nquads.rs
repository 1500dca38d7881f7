//! A canonical order for the lines of an N-Quads document.

use crate::text::{chars_of, push_chars, slice_chars, string_of, text_lt};
use vstd::prelude::*;

verus! {

/// Whether a scalar value has the Unicode property `White_Space`: it is
/// one of the 25 scalar values U+0009 to U+000D, U+0020, U+0085, U+00A0,
/// U+1680, U+2000 to U+200A, U+2028, U+2029, U+202F, U+205F and U+3000.
pub open spec fn is_white_space(c: char) -> bool {
    ||| '\u{9}' <= c <= '\u{D}'
    ||| c == ' '
    ||| c == '\u{85}'
    ||| c == '\u{A0}'
    ||| c == '\u{1680}'
    ||| '\u{2000}' <= c <= '\u{200A}'
    ||| c == '\u{2028}'
    ||| c == '\u{2029}'
    ||| c == '\u{202F}'
    ||| c == '\u{205F}'
    ||| c == '\u{3000}'
}

/// `char::is_whitespace` of the standard library: whether the scalar value
/// has the Unicode property `White_Space`, which the Unicode Character
/// Database lists; the contract states that list.
#[verifier::external_body]
pub(crate) fn char_is_whitespace(c: char) -> (r: bool)
    ensures
        r == is_white_space(c),
{
    c.is_whitespace()
}

/// The length of a line without the white space at its end.
pub open spec fn trimmed_len(line: Seq<char>, n: int) -> int
    decreases n,
{
    if n <= 0 || n > line.len() {
        0
    } else if !is_white_space(line[n - 1]) {
        n
    } else {
        trimmed_len(line, n - 1)
    }
}

/// A line without the white space at its end.
pub open spec fn trimmed(line: Seq<char>) -> Seq<char> {
    line.subrange(0, trimmed_len(line, line.len() as int))
}

/// Whether a line is kept: it is not empty and does not begin with `#`.
pub open spec fn is_kept(line: Seq<char>) -> bool {
    line.len() > 0 && line[0] != '#'
}

/// The first position at or after `from` that holds a line after `t`, or
/// the length of the list.
pub open spec fn line_position(lines: Seq<Seq<char>>, t: Seq<char>, from: int) -> int
    decreases lines.len() - from,
{
    if from < 0 || from >= lines.len() {
        lines.len() as int
    } else if text_lt(t, lines[from]) {
        from
    } else {
        line_position(lines, t, from + 1)
    }
}

/// The list with one more line, put after every line that is not after it.
pub open spec fn with_line(lines: Seq<Seq<char>>, t: Seq<char>) -> Seq<Seq<char>> {
    lines.insert(line_position(lines, t, 0), t)
}

/// The sorted lines `acc` with the line that ends at position `i`, where it
/// is kept.
pub open spec fn with_trimmed(acc: Seq<Seq<char>>, line: Seq<char>) -> Seq<Seq<char>> {
    if is_kept(trimmed(line)) {
        with_line(acc, trimmed(line))
    } else {
        acc
    }
}

/// The kept lines of a text from position `i` on, sorted into `acc`; `cur`
/// is what has been read of the line at `i`. Lines end at a line feed and
/// at the end of the text.
pub open spec fn sorted_lines_from(s: Seq<char>, i: int, cur: Seq<char>, acc: Seq<Seq<char>>) -> Seq<Seq<char>>
    decreases s.len() - i,
{
    if i < 0 || i >= s.len() {
        with_trimmed(acc, cur)
    } else if s[i] == '\n' {
        sorted_lines_from(s, i + 1, Seq::empty(), with_trimmed(acc, cur))
    } else {
        sorted_lines_from(s, i + 1, cur.push(s[i]), acc)
    }
}

/// The lines from position `i` on, each followed by a line feed.
pub open spec fn joined_from(lines: Seq<Seq<char>>, i: int) -> Seq<char>
    decreases lines.len() - i,
{
    if i < 0 || i >= lines.len() {
        Seq::empty()
    } else {
        lines[i] + seq!['\n'] + joined_from(lines, i + 1)
    }
}

/// The canonical form of an N-Quads text: its lines without the white space
/// at their ends, without the empty ones and the comments, in ascending
/// order, each followed by a line feed.
pub open spec fn canonical_nquads(s: Seq<char>) -> Seq<char> {
    joined_from(sorted_lines_from(s, 0, Seq::empty(), Seq::empty()), 0)
}

/// Whether no line of a list comes before an earlier one.
pub open spec fn lines_ordered(lines: Seq<Seq<char>>) -> bool {
    forall|i: int, j: int|
        0 <= i < j < lines.len() ==> !text_lt(#[trigger] lines[j], #[trigger] lines[i])
}

/// Whether a text holds no line feed.
pub open spec fn one_line(t: Seq<char>) -> bool {
    forall|x: int| 0 <= x < t.len() ==> #[trigger] t[x] != '\n'
}

/// Whether every line of a list is one that is kept, holds no line feed
/// and has no white space at its end.
pub open spec fn lines_clean(lines: Seq<Seq<char>>) -> bool {
    forall|i: int|
        0 <= i < lines.len() ==> is_kept(#[trigger] lines[i]) && !is_white_space(lines[i].last())
            && one_line(lines[i])
}

/// No line before the position of a line is after it, and the line at its
/// position is.
pub proof fn lemma_line_position(lines: Seq<Seq<char>>, t: Seq<char>, from: int)
    requires
        0 <= from <= lines.len(),
    ensures
        from <= line_position(lines, t, from) <= lines.len(),
        forall|i: int| from <= i < line_position(lines, t, from) ==> !text_lt(t, #[trigger] lines[i]),
        line_position(lines, t, from) < lines.len() ==> text_lt(
            t,
            lines[line_position(lines, t, from)],
        ),
    decreases lines.len() - from,
{
    if from < lines.len() && !text_lt(t, lines[from]) {
        lemma_line_position(lines, t, from + 1);
    }
}

/// A list of lines in order with one more line is in order.
pub proof fn lemma_with_line_ordered(lines: Seq<Seq<char>>, t: Seq<char>)
    requires
        lines_ordered(lines),
    ensures
        lines_ordered(with_line(lines, t)),
{
    lemma_line_position(lines, t, 0);
    let at = line_position(lines, t, 0);
    let next = with_line(lines, t);
    assert forall|i: int, j: int| 0 <= i < j < next.len() implies !text_lt(
        #[trigger] next[j],
        #[trigger] next[i],
    ) by {
        if j < at {
            assert(next[i] == lines[i] && next[j] == lines[j]);
        } else if j == at {
            assert(next[i] == lines[i]);
        } else if i == at {
            assert(next[j] == lines[j - 1]);
            crate::text::lemma_text_lt_asymmetric(t, lines[at]);
            if j - 1 > at {
                assert(!text_lt(lines[j - 1], lines[at]));
                if text_lt(lines[j - 1], t) {
                    crate::text::lemma_text_lt_transitive(lines[j - 1], t, lines[at]);
                }
            }
        } else if i < at {
            assert(next[i] == lines[i] && next[j] == lines[j - 1]);
        } else {
            assert(next[i] == lines[i - 1] && next[j] == lines[j - 1]);
        }
    }
}

/// The line that is left of a line without the white space at its end
/// does not end in white space.
pub proof fn lemma_trimmed_clean(line: Seq<char>, n: int)
    requires
        0 <= n <= line.len(),
    ensures
        0 <= trimmed_len(line, n) <= n,
        trimmed_len(line, n) > 0 ==> !is_white_space(line[trimmed_len(line, n) - 1]),
    decreases n,
{
    if n > 0 && is_white_space(line[n - 1]) {
        lemma_trimmed_clean(line, n - 1);
    }
}

/// The lines that are sorted out of a text stay in order and clean.
pub proof fn lemma_sorted_lines(s: Seq<char>, i: int, cur: Seq<char>, acc: Seq<Seq<char>>)
    requires
        0 <= i,
        lines_ordered(acc),
        lines_clean(acc),
        one_line(cur),
    ensures
        lines_ordered(sorted_lines_from(s, i, cur, acc)),
        lines_clean(sorted_lines_from(s, i, cur, acc)),
    decreases s.len() - i,
{
    let t = trimmed(cur);
    lemma_trimmed_clean(cur, cur.len() as int);
    if is_kept(t) {
        lemma_with_line_ordered(acc, t);
        lemma_line_position(acc, t, 0);
        let at = line_position(acc, t, 0);
        let next = with_line(acc, t);
        assert forall|x: int| 0 <= x < next.len() implies is_kept(#[trigger] next[x])
            && !is_white_space(next[x].last()) && one_line(next[x]) by {
            if x < at {
                assert(next[x] == acc[x]);
            } else if x > at {
                assert(next[x] == acc[x - 1]);
            } else {
                assert(next[x] == t);
                assert(t.last() == cur[trimmed_len(cur, cur.len() as int) - 1]);
                assert forall|y: int| 0 <= y < t.len() implies #[trigger] t[y] != '\n' by {
                    assert(t[y] == cur[y]);
                }
            }
        }
    }
    if i < s.len() {
        if s[i] == '\n' {
            lemma_sorted_lines(s, i + 1, Seq::empty(), with_trimmed(acc, cur));
        } else {
            let more = cur.push(s[i]);
            assert forall|y: int| 0 <= y < more.len() implies #[trigger] more[y] != '\n' by {
                if y < cur.len() {
                    assert(more[y] == cur[y]);
                }
            }
            lemma_sorted_lines(s, i + 1, more, acc);
        }
    }
}

/// Reading on in a text that begins with a line and a line feed is
/// reading what comes after them, once the line is sorted in.
pub proof fn lemma_read_line(
    line: Seq<char>,
    rest: Seq<char>,
    j: int,
    acc: Seq<Seq<char>>,
)
    requires
        one_line(line),
        0 <= j <= line.len(),
    ensures
        sorted_lines_from(line + seq!['\n'] + rest, j, line.take(j), acc) == sorted_lines_from(
            rest,
            0,
            Seq::empty(),
            with_trimmed(acc, line),
        ),
    decreases line.len() - j,
{
    let all = line + seq!['\n'] + rest;
    if j < line.len() {
        assert(all[j] == line[j]);
        assert(line.take(j).push(line[j]) =~= line.take(j + 1));
        lemma_read_line(line, rest, j + 1, acc);
    } else {
        assert(all[j] == '\n');
        assert(line.take(j) =~= line);
        lemma_read_shift(
            all,
            rest,
            (line.len() + 1) as int,
            0,
            Seq::empty(),
            with_trimmed(acc, line),
        );
    }
}

/// Reading a text from a position on is reading the rest of the text from
/// its beginning.
pub proof fn lemma_read_shift(
    all: Seq<char>,
    rest: Seq<char>,
    off: int,
    m: int,
    cur: Seq<char>,
    acc: Seq<Seq<char>>,
)
    requires
        0 <= off,
        0 <= m,
        all.len() == off + rest.len(),
        forall|x: int| 0 <= x < rest.len() ==> all[off + x] == #[trigger] rest[x],
    ensures
        sorted_lines_from(all, off + m, cur, acc) == sorted_lines_from(rest, m, cur, acc),
    decreases rest.len() - m,
{
    if m < rest.len() {
        assert(all[off + m] == rest[m]);
        if rest[m] == '\n' {
            lemma_read_shift(all, rest, off, m + 1, Seq::empty(), with_trimmed(acc, cur));
        } else {
            lemma_read_shift(all, rest, off, m + 1, cur.push(rest[m]), acc);
        }
    }
}

/// Sorting the lines of a list that is in order and clean, written one
/// after the other from line `k` on, into the lines before `k` gives the
/// list.
pub proof fn lemma_read_joined(lines: Seq<Seq<char>>, k: int)
    requires
        lines_ordered(lines),
        lines_clean(lines),
        0 <= k <= lines.len(),
    ensures
        sorted_lines_from(joined_from(lines, k), 0, Seq::empty(), lines.take(k)) == lines,
    decreases lines.len() - k,
{
    let acc = lines.take(k);
    let none = Seq::<char>::empty();
    if k < lines.len() {
        let line = lines[k];
        let rest = joined_from(lines, k + 1);
        assert(line.take(0) =~= none);
        lemma_read_line(line, rest, 0, acc);
        lemma_trimmed_clean(line, line.len() as int);
        assert(trimmed_len(line, line.len() as int) == line.len());
        assert(trimmed(line) =~= line);
        lemma_line_position(acc, line, 0);
        let at = line_position(acc, line, 0);
        if at < acc.len() {
            assert(acc[at] == lines[at]);
            assert(text_lt(line, lines[at]));
        }
        assert(with_line(acc, line) =~= lines.take(k + 1));
        lemma_read_joined(lines, k + 1);
    } else {
        assert(acc =~= lines);
        assert(trimmed(none) =~= none);
    }
}

/// The canonical form of an N-Quads text in canonical form is the text
/// itself.
pub proof fn lemma_canonical_nquads_idempotent(s: Seq<char>)
    ensures
        canonical_nquads(canonical_nquads(s)) == canonical_nquads(s),
{
    let lines = sorted_lines_from(s, 0, Seq::empty(), Seq::empty());
    lemma_canonical_lines(s);
    assert(lines.take(0) =~= Seq::<Seq<char>>::empty());
    lemma_read_joined(lines, 0);
}

/// The lines of the canonical form of an N-Quads text are in ascending
/// order, and each of them is a line that is kept, without white space at
/// its end.
pub proof fn lemma_canonical_lines(s: Seq<char>)
    ensures
        lines_ordered(sorted_lines_from(s, 0, Seq::empty(), Seq::empty())),
        lines_clean(sorted_lines_from(s, 0, Seq::empty(), Seq::empty())),
{
    lemma_sorted_lines(s, 0, Seq::empty(), Seq::empty());
}

/// Whether one line comes before another.
pub fn line_lt(a: &Vec<char>, b: &Vec<char>) -> (r: bool)
    ensures
        r == text_lt(a@, b@),
{
    let mut i: usize = 0;
    proof {
        assert(a@.skip(0) =~= a@);
        assert(b@.skip(0) =~= b@);
    }
    while i < a.len() && i < b.len()
        invariant
            i <= a.len(),
            i <= b.len(),
            text_lt(a@, b@) == text_lt(a@.skip(i as int), b@.skip(i as int)),
        decreases a.len() - i,
    {
        if a[i] != b[i] {
            return a[i] < b[i];
        }
        proof {
            assert(a@.skip(i as int).skip(1) =~= a@.skip(i + 1));
            assert(b@.skip(i as int).skip(1) =~= b@.skip(i + 1));
        }
        i += 1;
    }
    i < b.len()
}

/// The models of a list of lines.
pub open spec fn lines_model(v: Seq<Vec<char>>) -> Seq<Seq<char>> {
    Seq::new(v.len(), |i: int| v[i]@)
}

/// Sorts one more line into the list, where it is kept once the white
/// space at its end is gone.
pub fn add_line(lines: &mut Vec<Vec<char>>, line: &Vec<char>)
    ensures
        lines_model(final(lines)@) == with_trimmed(lines_model(old(lines)@), line@),
{
    let mut n: usize = line.len();
    let mut found = false;
    while !found && n > 0
        invariant
            n <= line.len(),
            found ==> n > 0 && !is_white_space(line[n - 1]),
            trimmed_len(line@, n as int) == trimmed_len(line@, line.len() as int),
        decreases n + if found { 0int } else { 1int },
    {
        if char_is_whitespace(line[n - 1]) {
            n -= 1;
        } else {
            found = true;
        }
    }
    let t = slice_chars(line, 0, n);
    if t.len() == 0 || t[0] == '#' {
        return;
    }
    let ghost model = lines_model(lines@);
    let mut i: usize = 0;
    let mut stop = false;
    while !stop && i < lines.len()
        invariant
            i <= lines.len(),
            lines@ == old(lines)@,
            model == lines_model(lines@),
            stop ==> i < lines.len() && text_lt(t@, model[i as int]),
            line_position(model, t@, 0) == line_position(model, t@, i as int),
        decreases lines.len() - i + if stop { 0int } else { 1int },
    {
        if line_lt(&t, &lines[i]) {
            stop = true;
        } else {
            i += 1;
        }
    }
    lines.insert(i, t);
    assert(lines_model(lines@) =~= model.insert(i as int, t@));
}

/// The canonical form of an N-Quads text: its lines without trailing white
/// space, without the empty ones and the comments, in ascending order, each
/// followed by a line feed. Every text has one.
pub fn canonicalize_nquads(nquads: &str) -> (r: Result<String, String>)
    ensures
        r is Ok,
        r->Ok_0@ == canonical_nquads(nquads@),
{
    let s = chars_of(nquads);
    let mut lines: Vec<Vec<char>> = Vec::new();
    assert(lines_model(lines@) =~= Seq::empty());
    let mut cur: Vec<char> = Vec::new();
    let ghost goal = sorted_lines_from(s@, 0, Seq::empty(), Seq::empty());
    let mut i: usize = 0;
    while i < s.len()
        invariant
            i <= s.len(),
            sorted_lines_from(s@, i as int, cur@, lines_model(lines@)) == goal,
        decreases s.len() - i,
    {
        if s[i] == '\n' {
            add_line(&mut lines, &cur);
            cur = Vec::new();
        } else {
            cur.push(s[i]);
        }
        i += 1;
    }
    add_line(&mut lines, &cur);
    let ghost sorted = lines_model(lines@);
    let mut out: Vec<char> = Vec::new();
    let mut k: usize = 0;
    while k < lines.len()
        invariant
            k <= lines.len(),
            sorted == lines_model(lines@),
            out@ + joined_from(sorted, k as int) == joined_from(sorted, 0),
        decreases lines.len() - k,
    {
        let ghost before = out@;
        push_chars(&mut out, &lines[k]);
        out.push('\n');
        proof {
            let one = sorted[k as int] + seq!['\n'];
            assert(out@ =~= before + one);
            assert(before + (one + joined_from(sorted, k + 1)) =~= (before + one) + joined_from(
                sorted,
                k + 1,
            ));
        }
        k += 1;
    }
    assert(out@ + Seq::<char>::empty() =~= out@);
    Ok(string_of(&out))
}

} // verus!
