//! How the tokens of a text follow from the tokens of its parts: what a
//! scan finds behind a prefix is what it finds in the rest alone, moved, and
//! what it finds in whole lines stays as it is when text is put behind them.

use crate::chars::{all_in, is_space, CharClass};
use crate::lexer::{
    gap_end, header_end, lemma_gap_end_bounds, lemma_line_end_bounds, lemma_run_end_bounds,
    lemma_scan_bounds, lemma_string_end_bounds, lemma_token_at_bounds, lemma_value_at_bounds,
    line_at, line_end, run_end, scan, scans, string_end, table_end, token_at, value_at, Span,
};
use crate::syntax::{lexeme_of, lexemes, Lexeme};
use vstd::prelude::*;

verus! {

/// A position moved right by `n`.
pub open spec fn moved(e: Option<int>, n: int) -> Option<int> {
    match e {
        Some(e) => Some(e + n),
        None => None,
    }
}

/// A token moved right by `n`.
pub open spec fn moved_span(t: Span, n: int) -> Span {
    match t {
        Span::Header { start, end } => Span::Header { start: start + n, end: end + n },
        Span::Line { start, key_end, kind, value_start, end } => Span::Line {
            start: start + n,
            key_end: key_end + n,
            kind,
            value_start: value_start + n,
            end: end + n,
        },
    }
}

/// Tokens moved right by `n`.
pub open spec fn moved_spans(spans: Seq<Span>, n: int) -> Seq<Span> {
    Seq::new(spans.len(), |k: int| moved_span(spans[k], n))
}

/// Behind `a`, a line ends where it ends in `x` alone, moved by the length
/// of `a`.
pub proof fn lemma_line_end_moved(a: Seq<char>, x: Seq<char>, i: int)
    requires
        0 <= i <= x.len(),
    ensures
        line_end(a + x, a.len() + i) == a.len() + line_end(x, i),
    decreases x.len() - i,
{
    if i < x.len() {
        if x[i] != '\n' {
            lemma_line_end_moved(a, x, i + 1);
        }
    }
}

/// Behind `a`, a gap ends where it ends in `x` alone, moved.
pub proof fn lemma_gap_end_moved(a: Seq<char>, x: Seq<char>, i: int)
    requires
        0 <= i <= x.len(),
    ensures
        gap_end(a + x, a.len() + i) == a.len() + gap_end(x, i),
    decreases x.len() - i,
{
    if i < x.len() {
        if is_space(x[i]) {
            lemma_gap_end_moved(a, x, i + 1);
        } else if x[i] == '#' {
            lemma_line_end_moved(a, x, i + 1);
            lemma_line_end_bounds(x, i + 1);
            lemma_gap_end_moved(a, x, line_end(x, i + 1));
        }
    }
}

/// Behind `a`, a run ends where it ends in `x` alone, moved.
pub proof fn lemma_run_end_moved(a: Seq<char>, x: Seq<char>, i: int, class: CharClass)
    requires
        0 <= i <= x.len(),
    ensures
        run_end(a + x, a.len() + i, class) == a.len() + run_end(x, i, class),
    decreases x.len() - i,
{
    if i < x.len() {
        if class.admits(x[i]) {
            lemma_run_end_moved(a, x, i + 1, class);
        }
    }
}

/// Behind `a`, a quoted string ends where it ends in `x` alone, moved.
pub proof fn lemma_string_end_moved(a: Seq<char>, x: Seq<char>, i: int)
    requires
        0 <= i,
    ensures
        string_end(a + x, a.len() + i) == moved(string_end(x, i), a.len() as int),
    decreases x.len() - i,
{
    if i < x.len() {
        if x[i] == '"' {
        } else if x[i] == '\\' {
            if i + 1 < x.len() {
                lemma_string_end_moved(a, x, i + 2);
            }
        } else {
            lemma_string_end_moved(a, x, i + 1);
        }
    }
}

/// Behind `a`, an inline table ends where it ends in `x` alone, moved.
pub proof fn lemma_table_end_moved(a: Seq<char>, x: Seq<char>, i: int, depth: nat)
    requires
        0 <= i,
    ensures
        table_end(a + x, a.len() + i, depth) == moved(table_end(x, i, depth), a.len() as int),
    decreases x.len() - i,
{
    if i < x.len() {
        if x[i] == '}' {
            if depth > 0 {
                lemma_table_end_moved(a, x, i + 1, (depth - 1) as nat);
            }
        } else if x[i] == '{' {
            lemma_table_end_moved(a, x, i + 1, depth + 1);
        } else if x[i] == '"' {
            lemma_string_end_moved(a, x, i + 1);
            lemma_string_end_bounds(x, i + 1);
            match string_end(x, i + 1) {
                Some(j) => lemma_table_end_moved(a, x, j, depth),
                None => {},
            }
        } else {
            lemma_table_end_moved(a, x, i + 1, depth);
        }
    }
}

/// Behind `a`, a header ends where it ends in `x` alone, moved.
pub proof fn lemma_header_end_moved(a: Seq<char>, x: Seq<char>, i: int)
    requires
        0 <= i < x.len(),
    ensures
        header_end(a + x, a.len() + i) == moved(header_end(x, i), a.len() as int),
{
    if i + 2 <= x.len() {
        lemma_run_end_moved(a, x, i + 2, CharClass::Name);
    }
}

/// Behind `a`, a value is the one found in `x` alone, moved.
pub proof fn lemma_value_at_moved(a: Seq<char>, x: Seq<char>, i: int)
    requires
        0 <= i,
    ensures
        value_at(a + x, a.len() + i) == match value_at(x, i) {
            Some((kind, end)) => Some((kind, end + a.len())),
            None => None,
        },
{
    if i < x.len() {
        lemma_string_end_moved(a, x, i + 1);
        lemma_table_end_moved(a, x, i + 1, 0);
        lemma_run_end_moved(a, x, i, CharClass::Word);
    }
}

/// Behind `a`, a line is the one found in `x` alone, moved.
pub proof fn lemma_line_at_moved(a: Seq<char>, x: Seq<char>, i: int)
    requires
        0 <= i < x.len(),
    ensures
        line_at(a + x, a.len() + i) == match line_at(x, i) {
            Some(t) => Some(moved_span(t, a.len() as int)),
            None => None,
        },
{
    lemma_run_end_moved(a, x, i, CharClass::Name);
    lemma_run_end_bounds(x, i, CharClass::Name);
    let k = run_end(x, i, CharClass::Name);
    lemma_run_end_moved(a, x, k, CharClass::Blank);
    lemma_run_end_bounds(x, k, CharClass::Blank);
    let e = run_end(x, k, CharClass::Blank);
    if e < x.len() {
        lemma_run_end_moved(a, x, e + 1, CharClass::Blank);
        lemma_run_end_bounds(x, e + 1, CharClass::Blank);
        lemma_value_at_moved(a, x, run_end(x, e + 1, CharClass::Blank));
    }
}

/// Behind `a`, a token is the one found in `x` alone, moved.
pub proof fn lemma_token_at_moved(a: Seq<char>, x: Seq<char>, i: int)
    requires
        0 <= i < x.len(),
    ensures
        token_at(a + x, a.len() + i) == match token_at(x, i) {
            Some(t) => Some(moved_span(t, a.len() as int)),
            None => None,
        },
{
    lemma_header_end_moved(a, x, i);
    lemma_line_at_moved(a, x, i);
}

/// Behind `a`, a scan finds the tokens that it finds in `x` alone, moved,
/// and stops where it stops there, moved.
pub proof fn lemma_scan_moved(a: Seq<char>, x: Seq<char>, i: int)
    requires
        0 <= i <= x.len(),
    ensures
        scan(a + x, a.len() + i).stop == a.len() + scan(x, i).stop,
        scan(a + x, a.len() + i).spans == moved_spans(scan(x, i).spans, a.len() as int),
    decreases x.len() - i,
{
    lemma_gap_end_moved(a, x, i);
    lemma_gap_end_bounds(x, i);
    let j = gap_end(x, i);
    if j < x.len() {
        lemma_token_at_moved(a, x, j);
        lemma_token_at_bounds(x, j);
        match token_at(x, j) {
            Some(t) => {
                lemma_scan_moved(a, x, t.after());
            },
            None => {},
        }
    }
}

/// `a` is empty or ends with a line feed.
pub open spec fn ends_lines(a: Seq<char>) -> bool {
    a.len() == 0 || a.last() == '\n'
}

/// A line that ends inside `a` ends there in `a + x` too.
pub proof fn lemma_line_end_kept(a: Seq<char>, x: Seq<char>, i: int)
    requires
        0 <= i <= a.len(),
        line_end(a, i) < a.len(),
    ensures
        line_end(a + x, i) == line_end(a, i),
    decreases a.len() - i,
{
    if i < a.len() {
        if a[i] != '\n' {
            lemma_line_end_kept(a, x, i + 1);
        }
    }
}

/// A run that ends inside `a` ends there in `a + x` too.
pub proof fn lemma_run_end_kept(a: Seq<char>, x: Seq<char>, i: int, class: CharClass)
    requires
        0 <= i <= a.len(),
        run_end(a, i, class) < a.len(),
    ensures
        run_end(a + x, i, class) == run_end(a, i, class),
    decreases a.len() - i,
{
    if i < a.len() {
        if class.admits(a[i]) {
            lemma_run_end_kept(a, x, i + 1, class);
        }
    }
}

/// A quoted string that ends in `a` ends there in `a + x` too.
pub proof fn lemma_string_end_kept(a: Seq<char>, x: Seq<char>, i: int)
    requires
        0 <= i,
        string_end(a, i) is Some,
    ensures
        string_end(a + x, i) == string_end(a, i),
    decreases a.len() - i,
{
    if i < a.len() {
        if a[i] == '"' {
        } else if a[i] == '\\' {
            if i + 1 < a.len() {
                lemma_string_end_kept(a, x, i + 2);
            }
        } else {
            lemma_string_end_kept(a, x, i + 1);
        }
    }
}

/// An inline table that ends in `a` ends there in `a + x` too.
pub proof fn lemma_table_end_kept(a: Seq<char>, x: Seq<char>, i: int, depth: nat)
    requires
        0 <= i,
        table_end(a, i, depth) is Some,
    ensures
        table_end(a + x, i, depth) == table_end(a, i, depth),
    decreases a.len() - i,
{
    if i < a.len() {
        if a[i] == '}' {
            if depth > 0 {
                lemma_table_end_kept(a, x, i + 1, (depth - 1) as nat);
            }
        } else if a[i] == '{' {
            lemma_table_end_kept(a, x, i + 1, depth + 1);
        } else if a[i] == '"' {
            lemma_string_end_bounds(a, i + 1);
            match string_end(a, i + 1) {
                Some(j) => {
                    lemma_string_end_kept(a, x, i + 1);
                    lemma_table_end_kept(a, x, j, depth);
                },
                None => {},
            }
        } else {
            lemma_table_end_kept(a, x, i + 1, depth);
        }
    }
}

/// A header found in `a` is found in `a + x` too.
pub proof fn lemma_header_end_kept(a: Seq<char>, x: Seq<char>, i: int)
    requires
        0 <= i < a.len(),
        header_end(a, i) is Some,
    ensures
        header_end(a + x, i) == header_end(a, i),
{
    if i + 1 < a.len() && a[i + 1] == '[' {
        lemma_run_end_kept(a, x, i + 2, CharClass::Name);
    } else {
        lemma_run_end_kept(a, x, i + 1, CharClass::Name);
    }
}

/// A value found in whole lines `a` is found in `a + x` too.
pub proof fn lemma_value_at_kept(a: Seq<char>, x: Seq<char>, i: int)
    requires
        ends_lines(a),
        value_at(a, i) is Some,
    ensures
        value_at(a + x, i) == value_at(a, i),
{
    if a[i] == '"' {
        lemma_string_end_kept(a, x, i + 1);
    } else if a[i] == '{' {
        lemma_table_end_kept(a, x, i + 1, 0);
    } else {
        lemma_run_end_bounds(a, i, CharClass::Word);
        lemma_run_end_kept(a, x, i, CharClass::Word);
    }
}

/// A line found in whole lines `a` is found in `a + x` too.
pub proof fn lemma_line_at_kept(a: Seq<char>, x: Seq<char>, i: int)
    requires
        0 <= i < a.len(),
        ends_lines(a),
        line_at(a, i) is Some,
    ensures
        line_at(a + x, i) == line_at(a, i),
{
    let k = run_end(a, i, CharClass::Name);
    lemma_run_end_bounds(a, k, CharClass::Blank);
    let e = run_end(a, k, CharClass::Blank);
    lemma_run_end_kept(a, x, i, CharClass::Name);
    lemma_run_end_kept(a, x, k, CharClass::Blank);
    lemma_run_end_kept(a, x, e + 1, CharClass::Blank);
    lemma_value_at_kept(a, x, run_end(a, e + 1, CharClass::Blank));
}

/// A token found in whole lines `a` is found in `a + x` too.
pub proof fn lemma_token_at_kept(a: Seq<char>, x: Seq<char>, i: int)
    requires
        0 <= i < a.len(),
        ends_lines(a),
        token_at(a, i) is Some,
    ensures
        token_at(a + x, i) == token_at(a, i),
{
    if a[i] == '[' {
        lemma_header_end_kept(a, x, i);
    } else {
        lemma_line_at_kept(a, x, i);
    }
}

/// A gap of whole lines `a` ends in `a + x` where it ends in `a`, or, where
/// it reaches the end of `a`, where the gap that starts `x` ends.
pub proof fn lemma_gap_end_kept(a: Seq<char>, x: Seq<char>, i: int)
    requires
        0 <= i <= a.len(),
        ends_lines(a),
    ensures
        gap_end(a + x, i) == if gap_end(a, i) < a.len() {
            gap_end(a, i)
        } else {
            gap_end(a + x, a.len() as int)
        },
    decreases a.len() - i,
{
    if i < a.len() {
        if is_space(a[i]) {
            lemma_gap_end_kept(a, x, i + 1);
        } else if a[i] == '#' {
            lemma_line_end_bounds(a, i + 1);
            let e = line_end(a, i + 1);
            lemma_line_end_kept(a, x, i + 1);
            lemma_gap_end_kept(a, x, e);
        }
    }
}

/// A scan that takes in whole lines `a` to their end finds in `a + x` the
/// tokens of `a`, then those found from the end of `a` on.
pub proof fn lemma_scan_kept(a: Seq<char>, x: Seq<char>, i: int)
    requires
        0 <= i <= a.len(),
        ends_lines(a),
        scan(a, i).stop == a.len(),
    ensures
        scan(a + x, i).stop == scan(a + x, a.len() as int).stop,
        scan(a + x, i).spans == scan(a, i).spans + scan(a + x, a.len() as int).spans,
    decreases a.len() - i,
{
    let n = a.len() as int;
    lemma_gap_end_kept(a, x, i);
    lemma_gap_end_bounds(a, i);
    let j = gap_end(a, i);
    if j < n {
        lemma_token_at_bounds(a, j);
        match token_at(a, j) {
            Some(t) => {
                lemma_token_at_kept(a, x, j);
                lemma_scan_kept(a, x, t.after());
            },
            None => {},
        }
    }
}

/// A token of `a` holds in `a + x` what it holds in `a`.
pub proof fn lemma_lexeme_kept(a: Seq<char>, x: Seq<char>, t: Span)
    requires
        0 <= t.first() < t.after() <= a.len(),
        t.inner_ordered(),
    ensures
        lexeme_of(a + x, t) == lexeme_of(a, t),
{
    let s = a + x;
    match t {
        Span::Header { start, end } => {
            assert(s.subrange(start, end) =~= a.subrange(start, end));
        },
        Span::Line { start, key_end, value_start, end, .. } => {
            assert(s.subrange(start, key_end) =~= a.subrange(start, key_end));
            assert(s.subrange(value_start, end) =~= a.subrange(value_start, end));
        },
    }
}

/// A token of `x`, moved behind `a`, holds in `a + x` what it holds in `x`.
pub proof fn lemma_lexeme_moved(a: Seq<char>, x: Seq<char>, t: Span)
    requires
        0 <= t.first() < t.after() <= x.len(),
        t.inner_ordered(),
    ensures
        lexeme_of(a + x, moved_span(t, a.len() as int)) == lexeme_of(x, t),
{
    let s = a + x;
    let n = a.len() as int;
    match t {
        Span::Header { start, end } => {
            assert(s.subrange(start + n, end + n) =~= x.subrange(start, end));
        },
        Span::Line { start, key_end, value_start, end, .. } => {
            assert(s.subrange(start + n, key_end + n) =~= x.subrange(start, key_end));
            assert(s.subrange(value_start + n, end + n) =~= x.subrange(value_start, end));
        },
    }
}

/// The lexemes of a text: what its tokens hold, in order.
pub open spec fn words(s: Seq<char>) -> Seq<Lexeme> {
    lexemes(s, scan(s, 0).spans)
}

/// Where `a` is whole lines that scan, the lexemes of `a + x` are those of
/// `a` followed by those of `x`, and `a + x` scans exactly when `x` does.
pub proof fn lemma_words_concat(a: Seq<char>, x: Seq<char>)
    requires
        ends_lines(a),
        scans(a),
    ensures
        words(a + x) == words(a) + words(x),
        scans(a + x) == scans(x),
{
    let s = a + x;
    lemma_scan_kept(a, x, 0);
    lemma_scan_moved(a, x, 0);
    lemma_scan_bounds(a, 0);
    lemma_scan_bounds(x, 0);
    let first = scan(a, 0).spans;
    let second = scan(x, 0).spans;
    let all = scan(s, 0).spans;
    assert forall|k: int| 0 <= k < all.len() implies words(s)[k] == (words(a) + words(x))[k] by {
        if k < first.len() {
            lemma_lexeme_kept(a, x, first[k]);
        } else {
            let l = k - first.len();
            lemma_lexeme_moved(a, x, second[l]);
        }
    }
}

/// Whitespace before a position belongs to the gap that the position is
/// in.
pub proof fn lemma_indent_is_gap(s: Seq<char>, h: int, i: int)
    requires
        0 <= i <= h <= s.len(),
        forall|k: int| 0 <= k < h ==> is_space(s[k]),
    ensures
        gap_end(s, i) == gap_end(s, h),
    decreases h - i,
{
    if i < h {
        lemma_indent_is_gap(s, h, i + 1);
    }
}

/// A run takes in every character of its class that stands before its end.
pub proof fn lemma_run_through(s: Seq<char>, i: int, j: int, class: CharClass)
    requires
        0 <= i <= j <= s.len(),
        forall|k: int| i <= k < j ==> class.admits(s[k]),
    ensures
        run_end(s, i, class) == run_end(s, j, class),
    decreases j - i,
{
    if i < j {
        lemma_run_through(s, i + 1, j, class);
    }
}

/// The start of a line: its key, blanks, `=` and blanks.
pub open spec fn line_head(key: Seq<char>, b1: Seq<char>, b2: Seq<char>) -> Seq<char> {
    key + b1 + seq!['='] + b2
}

/// The line that starts a text follows from what stands behind its start
/// alone: its value is the one that follows the blanks there.
pub proof fn lemma_line_at_start(key: Seq<char>, b1: Seq<char>, b2: Seq<char>, rest: Seq<char>)
    requires
        key.len() > 0,
        all_in(key, CharClass::Name),
        all_in(b1, CharClass::Blank),
        all_in(b2, CharClass::Blank),
    ensures
        ({
            let head = line_head(key, b1, b2);
            let r = run_end(rest, 0, CharClass::Blank);
            line_at(head + rest, 0) == match value_at(rest, r) {
                Some((kind, end)) => Some(
                    Span::Line {
                        start: 0,
                        key_end: key.len() as int,
                        kind,
                        value_start: head.len() + r,
                        end: head.len() + end,
                    },
                ),
                None => None,
            }
        }),
{
    let head = line_head(key, b1, b2);
    let s = head + rest;
    let k = key.len() as int;
    let e = k + b1.len();
    let h = head.len() as int;
    lemma_run_through(s, 0, k, CharClass::Name);
    lemma_run_through(s, k, e, CharClass::Blank);
    lemma_run_through(s, e + 1, h, CharClass::Blank);
    lemma_run_end_moved(head, rest, 0, CharClass::Blank);
    lemma_run_end_bounds(rest, 0, CharClass::Blank);
    lemma_value_at_moved(head, rest, run_end(rest, 0, CharClass::Blank));
}

/// The lexemes of a text that starts with a line, and where its scan
/// stops, follow from what stands behind the line's start alone.
pub proof fn lemma_words_of_line(key: Seq<char>, b1: Seq<char>, b2: Seq<char>, rest: Seq<char>)
    requires
        key.len() > 0,
        all_in(key, CharClass::Name),
        all_in(b1, CharClass::Blank),
        all_in(b2, CharClass::Blank),
    ensures
        ({
            let head = line_head(key, b1, b2);
            let r = run_end(rest, 0, CharClass::Blank);
            match value_at(rest, r) {
                Some((kind, end)) => {
                    &&& words(head + rest) == seq![
                        Lexeme::Line { key, kind, value: rest.subrange(r, end) },
                    ] + lexemes(rest, scan(rest, end).spans)
                    &&& scans(head + rest) == (scan(rest, end).stop == rest.len())
                },
                None => !scans(head + rest),
            }
        }),
{
    let head = line_head(key, b1, b2);
    let s = head + rest;
    let h = head.len() as int;
    let r = run_end(rest, 0, CharClass::Blank);
    lemma_line_at_start(key, b1, b2, rest);
    lemma_value_at_bounds(rest, r);
    match value_at(rest, r) {
        Some((kind, end)) => {
            lemma_scan_moved(head, rest, end);
            lemma_scan_bounds(rest, end);
            let tail = scan(rest, end).spans;
            assert(s.subrange(0, key.len() as int) =~= key);
            assert(s.subrange(h + r, h + end) =~= rest.subrange(r, end));
            let goal = seq![Lexeme::Line { key, kind, value: rest.subrange(r, end) }] + lexemes(
                rest,
                tail,
            );
            assert forall|k: int| 0 <= k < goal.len() implies words(s)[k] == goal[k] by {
                if k > 0 {
                    lemma_lexeme_moved(head, rest, tail[k - 1]);
                }
            }
        },
        None => {},
    }
}

/// A quoted string without quote or backslash inside ends with its last
/// character.
pub proof fn lemma_plain_string(s: Seq<char>, i: int)
    requires
        1 <= i < s.len(),
        s.last() == '"',
        forall|k: int| 1 <= k < s.len() - 1 ==> s[k] != '"' && s[k] != '\\',
    ensures
        string_end(s, i) == Some(s.len() as int),
    decreases s.len() - i,
{
    if i < s.len() - 1 {
        lemma_plain_string(s, i + 1);
    }
}

} // verus!
