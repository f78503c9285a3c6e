//! Facts about lines, joining and trimming that the laws of the block region
//! rest on.

use crate::text::{
    contains, is_blank, is_whitespace, join_lines, lemma_line_break_at, lemma_line_break_is_first,
    line_break, lines_of, occurs_at, strip_cr, trim_end,
};
use vstd::prelude::*;

verus! {

/// Whether `line` reads back as one line: it holds no line feed and does not
/// end with a carriage return.
pub open spec fn is_line(line: Seq<char>) -> bool {
    &&& forall|i: int| 0 <= i < line.len() ==> #[trigger] line[i] != '\n'
    &&& (line.len() == 0 || line.last() != '\r')
}

/// Whether `s` is empty or ends with a line feed.
pub open spec fn ends_lines(s: Seq<char>) -> bool {
    s.len() == 0 || s.last() == '\n'
}

/// Whether a carriage return stands at index `i` of `s` and a line feed after
/// it.
pub open spec fn is_crlf_at(s: Seq<char>, i: int) -> bool {
    0 <= i < s.len() - 1 && s[i] == '\r' && s[i + 1] == '\n'
}

/// Whether no carriage return in `s` stands directly before a line feed.
pub open spec fn is_crlf_free(s: Seq<char>) -> bool {
    forall|i: int| !is_crlf_at(s, i)
}

/// Whether `a` has a character at index `p` that is not the character of `b`
/// at that index, which is not the last of `b`.
pub open spec fn differs_at(a: Seq<char>, b: Seq<char>, p: int) -> bool {
    0 <= p < a.len() && p + 1 < b.len() && a[p] != b[p]
}

/// What a part of a text contains, the text contains.
pub proof fn lemma_contains_in_part(s: Seq<char>, from: int, to: int, pattern: Seq<char>)
    requires
        0 <= from <= to <= s.len(),
        contains(s.subrange(from, to), pattern),
    ensures
        contains(s, pattern),
{
    let part = s.subrange(from, to);
    let at = choose|at: int| occurs_at(part, pattern, at);
    assert(s.subrange(from + at, from + at + pattern.len()) =~= part.subrange(
        at,
        at + pattern.len(),
    ));
    assert(occurs_at(s, pattern, from + at));
}

/// A pattern whose first character is not in `prefix`, and that `prefix`
/// followed by `rest` contains, is contained in `rest`.
pub proof fn lemma_contains_after_prefix(prefix: Seq<char>, rest: Seq<char>, pattern: Seq<char>)
    requires
        pattern.len() > 0,
        forall|k: int| 0 <= k < prefix.len() ==> #[trigger] prefix[k] != pattern[0],
        contains(prefix + rest, pattern),
    ensures
        contains(rest, pattern),
{
    let whole = prefix + rest;
    let at = choose|at: int| occurs_at(whole, pattern, at);
    let found = whole.subrange(at, at + pattern.len());
    assert(found[0] == whole[at]);
    assert(found[0] == pattern[0]);
    if at < prefix.len() {
        assert(whole[at] == prefix[at]);
    } else {
        let shifted = at - prefix.len();
        assert(rest.subrange(shifted, shifted + pattern.len()) =~= found);
        assert(occurs_at(rest, pattern, shifted));
    }
}

/// A line after a prefix that holds no line feed and does not end with a
/// carriage return reads back as one line.
pub proof fn lemma_prefixed_line(prefix: Seq<char>, line: Seq<char>)
    requires
        is_line(prefix),
        is_line(line),
    ensures
        is_line(prefix + line),
{
    let whole = prefix + line;
    assert forall|k: int| 0 <= k < whole.len() implies #[trigger] whole[k] != '\n' by {
        if k < prefix.len() {
            assert(whole[k] == prefix[k]);
        } else {
            assert(whole[k] == line[k - prefix.len()]);
        }
    }
    if line.len() > 0 {
        assert(whole.last() == line.last());
    } else if prefix.len() > 0 {
        assert(whole.last() == prefix.last());
    }
}

/// No line of a text contains what the text does not contain.
pub proof fn lemma_lines_are_parts(s: Seq<char>, pattern: Seq<char>)
    requires
        !contains(s, pattern),
    ensures
        forall|i: int|
            0 <= i < lines_of(s).len() ==> !contains(#[trigger] lines_of(s)[i], pattern),
    decreases s.len(),
{
    if s.len() > 0 {
        lemma_line_break_is_first(s);
        let n = line_break(s);
        if n < s.len() {
            let line = strip_cr(s.take(n));
            let rest = s.skip(n + 1);
            assert(line =~= s.subrange(0, line.len() as int));
            if contains(line, pattern) {
                lemma_contains_in_part(s, 0, line.len() as int, pattern);
            }
            assert(rest =~= s.subrange(n + 1, s.len() as int));
            if contains(rest, pattern) {
                lemma_contains_in_part(s, n + 1, s.len() as int, pattern);
            }
            lemma_lines_are_parts(rest, pattern);
            assert forall|i: int| 0 <= i < lines_of(s).len() implies !contains(
                #[trigger] lines_of(s)[i],
                pattern,
            ) by {
                if i > 0 {
                    assert(lines_of(s)[i] == lines_of(rest)[i - 1]);
                }
            }
        }
    }
}

/// The lines of a text that ends with a line feed, followed by the lines of a
/// second text, are the lines of the two texts put together.
pub proof fn lemma_lines_of_concat(a: Seq<char>, b: Seq<char>)
    requires
        ends_lines(a),
    ensures
        lines_of(a + b) =~= lines_of(a) + lines_of(b),
    decreases a.len(),
{
    if a.len() == 0 {
        assert(a + b =~= b);
    } else {
        lemma_line_break_is_first(a);
        let n = line_break(a);
        if n >= a.len() {
            assert(a[a.len() - 1] != '\n');
        }
        lemma_line_break_at(a + b, n);
        assert((a + b).take(n) =~= a.take(n));
        assert((a + b).skip(n + 1) =~= a.skip(n + 1) + b);
        lemma_lines_of_concat(a.skip(n + 1), b);
    }
}

/// A text that ends with a line feed, and in which no carriage return stands
/// before a line feed, is its own lines joined.
pub proof fn lemma_join_of_lines(s: Seq<char>)
    requires
        ends_lines(s),
        is_crlf_free(s),
    ensures
        join_lines(lines_of(s)) =~= s,
    decreases s.len(),
{
    if s.len() > 0 {
        lemma_line_break_is_first(s);
        let n = line_break(s);
        if n >= s.len() {
            assert(s[s.len() - 1] != '\n');
        }
        let line = s.take(n);
        let rest = s.skip(n + 1);
        assert(!is_crlf_at(s, n - 1));
        assert(strip_cr(line) == line);
        assert forall|i: int| !is_crlf_at(rest, i) by {
            assert(!is_crlf_at(s, n + 1 + i));
        }
        lemma_join_of_lines(rest);
        assert((seq![line] + lines_of(rest)).skip(1) =~= lines_of(rest));
        assert(line + seq!['\n'] + rest =~= s);
    }
}

/// Lines that each read back as one line are the lines of their joined text.
pub proof fn lemma_lines_of_join(lines: Seq<Seq<char>>)
    requires
        forall|i: int| 0 <= i < lines.len() ==> is_line(#[trigger] lines[i]),
    ensures
        lines_of(join_lines(lines)) =~= lines,
    decreases lines.len(),
{
    if lines.len() > 0 {
        let first = lines[0];
        let rest = lines.skip(1);
        let s = join_lines(lines);
        assert(is_line(first));
        assert(s =~= first + seq!['\n'] + join_lines(rest));
        assert forall|j: int| 0 <= j < first.len() implies s[j] != '\n' by {
            assert(s[j] == first[j]);
        }
        lemma_line_break_at(s, first.len() as int);
        assert(s.take(first.len() as int) =~= first);
        assert(s.skip(first.len() as int + 1) =~= join_lines(rest));
        assert forall|i: int| 0 <= i < rest.len() implies is_line(#[trigger] rest[i]) by {
            assert(rest[i] == lines[i + 1]);
        }
        lemma_lines_of_join(rest);
        assert(seq![first] + rest =~= lines);
    }
}

/// White space at the end of a text does not change what trimming leaves.
pub proof fn lemma_trim_end_ignores_blank_end(s: Seq<char>, blank: Seq<char>)
    requires
        is_blank(blank),
    ensures
        trim_end(s + blank) == trim_end(s),
    decreases blank.len(),
{
    if blank.len() == 0 {
        assert(s + blank =~= s);
    } else {
        assert((s + blank).last() == blank.last());
        assert((s + blank).drop_last() =~= s + blank.drop_last());
        lemma_trim_end_ignores_blank_end(s, blank.drop_last());
    }
}

/// A pattern without a line feed that no line contains is not contained in
/// the joined lines either.
pub proof fn lemma_join_contains(lines: Seq<Seq<char>>, pattern: Seq<char>)
    requires
        pattern.len() > 0,
        forall|i: int| 0 <= i < pattern.len() ==> #[trigger] pattern[i] != '\n',
        forall|j: int| 0 <= j < lines.len() ==> !contains(#[trigger] lines[j], pattern),
    ensures
        !contains(join_lines(lines), pattern),
    decreases lines.len(),
{
    let s = join_lines(lines);
    if contains(s, pattern) {
        let at = choose|at: int| occurs_at(s, pattern, at);
        if lines.len() > 0 {
            let first = lines[0];
            let rest = lines.skip(1);
            let tail = join_lines(rest);
            assert(s =~= first + seq!['\n'] + tail);
            let found = s.subrange(at, at + pattern.len());
            if at + pattern.len() <= first.len() {
                assert(first.subrange(at, at + pattern.len()) =~= found);
                assert(occurs_at(first, pattern, at));
            } else if at > first.len() {
                let shifted = at - first.len() - 1;
                assert(tail.subrange(shifted, shifted + pattern.len()) =~= found);
                assert(occurs_at(tail, pattern, shifted));
                assert forall|j: int| 0 <= j < rest.len() implies !contains(
                    #[trigger] rest[j],
                    pattern,
                ) by {
                    assert(rest[j] == lines[j + 1]);
                }
                lemma_join_contains(rest, pattern);
            } else {
                assert(found[first.len() - at] == s[first.len() as int]);
                assert(pattern[first.len() - at] == '\n');
            }
        }
    }
}

/// Trimming leaves the beginning of a text: what it takes off is white space,
/// and what it leaves has none at its end.
pub proof fn lemma_trim_end_splits(s: Seq<char>)
    ensures
        trim_end(s).len() <= s.len(),
        trim_end(s) =~= s.take(trim_end(s).len() as int),
        is_blank(s.skip(trim_end(s).len() as int)),
        trim_end(trim_end(s)) == trim_end(s),
    decreases s.len(),
{
    if s.len() > 0 && is_whitespace(s.last()) {
        let shorter = s.drop_last();
        lemma_trim_end_splits(shorter);
        let k = trim_end(s).len() as int;
        assert(shorter.take(k) =~= s.take(k));
        assert forall|i: int| 0 <= i < s.skip(k).len() implies is_whitespace(
            #[trigger] s.skip(k)[i],
        ) by {
            if k + i < shorter.len() {
                assert(s.skip(k)[i] == shorter.skip(k)[i]);
            } else {
                assert(s.skip(k)[i] == s.last());
            }
        }
    } else {
        assert(s.take(s.len() as int) =~= s);
    }
}

/// The joined lines of a text that ends with a line feed begin with its
/// first line and a line feed; the joined lines of the rest follow.
pub proof fn lemma_join_of_lines_unfolds(s: Seq<char>)
    requires
        s.len() > 0,
        ends_lines(s),
    ensures
        0 <= line_break(s) < s.len(),
        s[line_break(s)] == '\n',
        forall|j: int| 0 <= j < line_break(s) ==> s[j] != '\n',
        ends_lines(s.skip(line_break(s) + 1)),
        join_lines(lines_of(s)) =~= strip_cr(s.take(line_break(s))) + seq!['\n'] + join_lines(
            lines_of(s.skip(line_break(s) + 1)),
        ),
{
    lemma_line_break_is_first(s);
    let n = line_break(s);
    if n >= s.len() {
        assert(s[s.len() - 1] != '\n');
    }
    let line = strip_cr(s.take(n));
    let rest = lines_of(s.skip(n + 1));
    assert((seq![line] + rest).skip(1) =~= rest);
}

/// A pattern without a line feed that a text followed by a line feed
/// contains is contained in the text.
pub proof fn lemma_contains_before_line_feed(s: Seq<char>, pattern: Seq<char>)
    requires
        pattern.len() > 0,
        forall|i: int| 0 <= i < pattern.len() ==> #[trigger] pattern[i] != '\n',
        contains(s + seq!['\n'], pattern),
    ensures
        contains(s, pattern),
{
    let whole = s + seq!['\n'];
    let at = choose|at: int| occurs_at(whole, pattern, at);
    let found = whole.subrange(at, at + pattern.len());
    if at + pattern.len() <= s.len() {
        assert(s.subrange(at, at + pattern.len()) =~= found);
        assert(occurs_at(s, pattern, at));
    } else {
        assert(found[pattern.len() - 1] == whole[s.len() as int]);
        assert(pattern[pattern.len() - 1] != '\n');
    }
}

/// Where a carriage return stands before a line feed in a text that ends with
/// a line feed, the joined lines of the text differ from the text before its
/// last character.
pub proof fn lemma_join_of_lines_drops_cr(s: Seq<char>)
    requires
        ends_lines(s),
        !is_crlf_free(s),
    ensures
        exists|p: int| differs_at(join_lines(lines_of(s)), s, p),
    decreases s.len(),
{
    let i = choose|i: int| is_crlf_at(s, i);
    lemma_join_of_lines_unfolds(s);
    let n = line_break(s);
    let rest = s.skip(n + 1);
    let tail = join_lines(lines_of(rest));
    let joined = join_lines(lines_of(s));
    if n > 0 && s[n - 1] == '\r' {
        assert(strip_cr(s.take(n)) =~= s.take(n - 1));
        assert(joined[n - 1] == '\n');
        assert(differs_at(joined, s, n - 1));
    } else {
        assert(strip_cr(s.take(n)) == s.take(n));
        if i + 1 < n {
            assert(s[i + 1] != '\n');
        }
        assert(is_crlf_at(rest, i - n - 1));
        lemma_join_of_lines_drops_cr(rest);
        let q = choose|q: int| differs_at(tail, rest, q);
        assert(joined[n + 1 + q] == tail[q]);
        assert(s[n + 1 + q] == rest[q]);
        assert(differs_at(joined, s, n + 1 + q));
    }
}

} // verus!
