//! The lexical layer: whitespace and comments are skipped, and the text is
//! cut into tokens. A token is a section header or a line, `key = value`.

use crate::chars::{is_space, is_word_char, space, CharClass};
use vstd::prelude::*;

verus! {

/// The kinds of value that a line can give to its key.
#[derive(Clone, Copy, PartialEq, Eq, Debug, Structural)]
pub enum ValueKind {
    /// A double-quoted string, quotes included.
    Quoted,
    /// An inline table, braces included.
    Table,
    /// A bare word: a run of letters, digits, `-`, `_` and `.`.
    Word,
}

/// A token, by the half-open ranges of characters that it covers.
#[derive(Clone, Copy, Debug)]
pub enum Token {
    /// A section header, `[name]` or `[[name]]`.
    Header { start: usize, end: usize },
    /// A line: the key from `start` to `key_end`, the value from
    /// `value_start` to `end`.
    Line { start: usize, key_end: usize, kind: ValueKind, value_start: usize, end: usize },
}

/// The mathematical value of a token.
pub enum Span {
    /// A section header.
    Header { start: int, end: int },
    /// A line, with the ranges of its key and of its value.
    Line { start: int, key_end: int, kind: ValueKind, value_start: int, end: int },
}

impl Span {
    /// The position of the token's first character.
    pub open spec fn first(self) -> int {
        match self {
            Span::Header { start, .. } => start,
            Span::Line { start, .. } => start,
        }
    }

    /// The position after the token's last character.
    pub open spec fn after(self) -> int {
        match self {
            Span::Header { end, .. } => end,
            Span::Line { end, .. } => end,
        }
    }

    /// The positions inside the token lie in order.
    pub open spec fn inner_ordered(self) -> bool {
        match self {
            Span::Header { .. } => true,
            Span::Line { start, key_end, value_start, end, .. } => start < key_end <= value_start
                < end,
        }
    }
}

impl View for Token {
    type V = Span;

    open spec fn view(&self) -> Span {
        match self {
            Token::Header { start, end } => Span::Header { start: *start as int, end: *end as int },
            Token::Line { start, key_end, kind, value_start, end } => Span::Line {
                start: *start as int,
                key_end: *key_end as int,
                kind: *kind,
                value_start: *value_start as int,
                end: *end as int,
            },
        }
    }
}

impl Token {
    /// The position of the token's first character.
    pub fn first(&self) -> (i: usize)
        ensures
            i == self@.first(),
    {
        match self {
            Token::Header { start, .. } => *start,
            Token::Line { start, .. } => *start,
        }
    }

    /// The position after the token's last character.
    pub fn after(&self) -> (i: usize)
        ensures
            i == self@.after(),
    {
        match self {
            Token::Header { end, .. } => *end,
            Token::Line { end, .. } => *end,
        }
    }
}

/// The values of a sequence of tokens.
pub open spec fn spans_of(tokens: Seq<Token>) -> Seq<Span> {
    Seq::new(tokens.len(), |k: int| tokens[k]@)
}

/// The tokens found from some position on, and the position where scanning
/// stopped: the end of the text, or the first character that starts no token.
pub struct Scan {
    pub spans: Seq<Span>,
    pub stop: int,
}

/// The index of the first line feed at or after `i`, or the end of the text.
pub open spec fn line_end(s: Seq<char>, i: int) -> int
    decreases s.len() - i,
{
    if !(0 <= i < s.len()) {
        i
    } else if s[i] == '\n' {
        i
    } else {
        line_end(s, i + 1)
    }
}

/// The first position at or after `i` that lies neither in whitespace nor in
/// a comment. A comment runs from `#` to the end of its line.
pub open spec fn gap_end(s: Seq<char>, i: int) -> int
    decreases s.len() - i,
{
    if !(0 <= i < s.len()) {
        i
    } else if is_space(s[i]) {
        gap_end(s, i + 1)
    } else if s[i] == '#' {
        proof {
            lemma_line_end_bounds(s, i + 1);
        }
        gap_end(s, line_end(s, i + 1))
    } else {
        i
    }
}

/// The end of the longest run of characters of `class` that starts at `i`.
pub open spec fn run_end(s: Seq<char>, i: int, class: CharClass) -> int
    decreases s.len() - i,
{
    if 0 <= i < s.len() && class.admits(s[i]) {
        run_end(s, i + 1, class)
    } else {
        i
    }
}

/// Where a quoted string ends whose body starts at `i`: the position after
/// the first quote that no backslash escapes. A backslash escapes the
/// character that follows it.
pub open spec fn string_end(s: Seq<char>, i: int) -> Option<int>
    decreases s.len() - i,
{
    if !(0 <= i < s.len()) {
        None
    } else if s[i] == '"' {
        Some(i + 1)
    } else if s[i] == '\\' {
        if i + 1 < s.len() {
            string_end(s, i + 2)
        } else {
            None
        }
    } else {
        string_end(s, i + 1)
    }
}

/// Where an inline table ends whose body starts at `i`, with `depth` further
/// braces open: the position after the brace that closes it. Braces nest,
/// and a quoted string inside the table is passed over as a whole.
pub open spec fn table_end(s: Seq<char>, i: int, depth: nat) -> Option<int>
    decreases s.len() - i,
{
    if !(0 <= i < s.len()) {
        None
    } else if s[i] == '}' {
        if depth == 0 {
            Some(i + 1)
        } else {
            table_end(s, i + 1, (depth - 1) as nat)
        }
    } else if s[i] == '{' {
        table_end(s, i + 1, depth + 1)
    } else if s[i] == '"' {
        match string_end(s, i + 1) {
            Some(j) => {
                proof {
                    lemma_string_end_bounds(s, i + 1);
                }
                table_end(s, j, depth)
            },
            None => None,
        }
    } else {
        table_end(s, i + 1, depth)
    }
}

/// Where a section header ends that starts with the bracket at `i`:
/// `[name]` or `[[name]]`, the name a non-empty run of name characters.
pub open spec fn header_end(s: Seq<char>, i: int) -> Option<int> {
    if 0 <= i && i + 1 < s.len() && s[i + 1] == '[' {
        let e = run_end(s, i + 2, CharClass::Name);
        if e > i + 2 && e + 1 < s.len() && s[e] == ']' && s[e + 1] == ']' {
            Some(e + 2)
        } else {
            None
        }
    } else {
        let e = run_end(s, i + 1, CharClass::Name);
        if 0 <= i && e > i + 1 && e < s.len() && s[e] == ']' {
            Some(e + 1)
        } else {
            None
        }
    }
}

/// The value that starts at `i`, if one does: its kind and the position
/// after it. A value is a quoted string, an inline table or a bare word.
pub open spec fn value_at(s: Seq<char>, i: int) -> Option<(ValueKind, int)> {
    if !(0 <= i < s.len()) {
        None
    } else if s[i] == '"' {
        match string_end(s, i + 1) {
            Some(end) => Some((ValueKind::Quoted, end)),
            None => None,
        }
    } else if s[i] == '{' {
        match table_end(s, i + 1, 0) {
            Some(end) => Some((ValueKind::Table, end)),
            None => None,
        }
    } else if is_word_char(s[i]) {
        Some((ValueKind::Word, run_end(s, i, CharClass::Word)))
    } else {
        None
    }
}

/// The line that starts at `i`, if one does: a key, `=` and a value, with
/// nothing but spaces and tabs around the `=`. The key is a non-empty run of
/// name characters.
pub open spec fn line_at(s: Seq<char>, i: int) -> Option<Span> {
    let k = run_end(s, i, CharClass::Name);
    let e = run_end(s, k, CharClass::Blank);
    let v = run_end(s, e + 1, CharClass::Blank);
    if 0 <= i < k && e < s.len() && s[e] == '=' {
        match value_at(s, v) {
            Some((kind, end)) => Some(
                Span::Line { start: i, key_end: k, kind, value_start: v, end },
            ),
            None => None,
        }
    } else {
        None
    }
}

/// The token that starts at `i`, if one does.
pub open spec fn token_at(s: Seq<char>, i: int) -> Option<Span> {
    if !(0 <= i < s.len()) {
        None
    } else if s[i] == '[' {
        match header_end(s, i) {
            Some(end) => Some(Span::Header { start: i, end }),
            None => None,
        }
    } else {
        line_at(s, i)
    }
}

/// The tokens from `i` on, each after the gap that precedes it, up to the
/// end of the text or the first position where no token starts.
pub open spec fn scan(s: Seq<char>, i: int) -> Scan
    decreases s.len() - i,
{
    let j = gap_end(s, i);
    if !(0 <= i && j < s.len()) {
        Scan { spans: Seq::empty(), stop: j }
    } else {
        match token_at(s, j) {
            None => Scan { spans: Seq::empty(), stop: j },
            Some(t) => {
                proof {
                    lemma_gap_end_bounds(s, i);
                    lemma_token_at_bounds(s, j);
                }
                let rest = scan(s, t.after());
                Scan { spans: seq![t] + rest.spans, stop: rest.stop }
            },
        }
    }
}

/// Whether the whole of `s` is gaps and tokens.
pub open spec fn scans(s: Seq<char>) -> bool {
    scan(s, 0).stop == s.len()
}

/// `line_end` finds the first line feed at or after `i`.
pub proof fn lemma_line_end_bounds(s: Seq<char>, i: int)
    requires
        0 <= i <= s.len(),
    ensures
        i <= line_end(s, i) <= s.len(),
        line_end(s, i) < s.len() ==> s[line_end(s, i)] == '\n',
        forall|k: int| i <= k < line_end(s, i) ==> s[k] != '\n',
    decreases s.len() - i,
{
    if i < s.len() && s[i] != '\n' {
        lemma_line_end_bounds(s, i + 1);
    }
}

/// A gap ends inside the text, before a character that is neither
/// whitespace nor the start of a comment.
pub proof fn lemma_gap_end_bounds(s: Seq<char>, i: int)
    requires
        0 <= i <= s.len(),
    ensures
        i <= gap_end(s, i) <= s.len(),
        gap_end(s, i) < s.len() ==> !is_space(s[gap_end(s, i)]) && s[gap_end(s, i)] != '#',
    decreases s.len() - i,
{
    if i < s.len() {
        if is_space(s[i]) {
            lemma_gap_end_bounds(s, i + 1);
        } else if s[i] == '#' {
            lemma_line_end_bounds(s, i + 1);
            lemma_gap_end_bounds(s, line_end(s, i + 1));
        }
    }
}

/// A run holds characters of its class only and ends before one that is
/// not of it.
pub proof fn lemma_run_end_bounds(s: Seq<char>, i: int, class: CharClass)
    requires
        0 <= i <= s.len(),
    ensures
        i <= run_end(s, i, class) <= s.len(),
        forall|k: int| i <= k < run_end(s, i, class) ==> class.admits(s[k]),
        run_end(s, i, class) < s.len() ==> !class.admits(s[run_end(s, i, class)]),
    decreases s.len() - i,
{
    if i < s.len() && class.admits(s[i]) {
        lemma_run_end_bounds(s, i + 1, class);
    }
}

/// A quoted string ends inside the text, behind a quote.
pub proof fn lemma_string_end_bounds(s: Seq<char>, i: int)
    requires
        0 <= i,
    ensures
        match string_end(s, i) {
            Some(e) => i < e <= s.len() && s[e - 1] == '"',
            None => true,
        },
    decreases s.len() - i,
{
    if i < s.len() {
        if s[i] == '"' {
        } else if s[i] == '\\' {
            if i + 1 < s.len() {
                lemma_string_end_bounds(s, i + 2);
            }
        } else {
            lemma_string_end_bounds(s, i + 1);
        }
    }
}

/// An inline table ends inside the text, behind a closing brace.
pub proof fn lemma_table_end_bounds(s: Seq<char>, i: int, depth: nat)
    requires
        0 <= i,
    ensures
        match table_end(s, i, depth) {
            Some(e) => i < e <= s.len() && s[e - 1] == '}',
            None => true,
        },
    decreases s.len() - i,
{
    if i < s.len() {
        if s[i] == '}' {
            if depth > 0 {
                lemma_table_end_bounds(s, i + 1, (depth - 1) as nat);
            }
        } else if s[i] == '{' {
            lemma_table_end_bounds(s, i + 1, depth + 1);
        } else if s[i] == '"' {
            lemma_string_end_bounds(s, i + 1);
            match string_end(s, i + 1) {
                Some(j) => lemma_table_end_bounds(s, j, depth),
                None => {},
            }
        } else {
            lemma_table_end_bounds(s, i + 1, depth);
        }
    }
}

/// A value is not empty and ends inside the text.
pub proof fn lemma_value_at_bounds(s: Seq<char>, i: int)
    ensures
        match value_at(s, i) {
            Some((_, end)) => 0 <= i < end <= s.len(),
            None => true,
        },
{
    if 0 <= i < s.len() {
        lemma_string_end_bounds(s, i + 1);
        lemma_table_end_bounds(s, i + 1, 0);
        lemma_run_end_bounds(s, i + 1, CharClass::Word);
    }
}

/// A line starts at `i`, is not empty and ends inside the text.
pub proof fn lemma_line_at_bounds(s: Seq<char>, i: int)
    requires
        0 <= i < s.len(),
    ensures
        match line_at(s, i) {
            Some(t) => t is Line && t.first() == i && i < t.after() <= s.len() && t.inner_ordered(),
            None => true,
        },
{
    lemma_run_end_bounds(s, i, CharClass::Name);
    let k = run_end(s, i, CharClass::Name);
    lemma_run_end_bounds(s, k, CharClass::Blank);
    let e = run_end(s, k, CharClass::Blank);
    if e < s.len() {
        lemma_run_end_bounds(s, e + 1, CharClass::Blank);
        lemma_value_at_bounds(s, run_end(s, e + 1, CharClass::Blank));
    }
}

/// A token starts at `i`, is not empty and ends inside the text.
pub proof fn lemma_token_at_bounds(s: Seq<char>, i: int)
    requires
        0 <= i < s.len(),
    ensures
        match token_at(s, i) {
            Some(t) => t.first() == i && i < t.after() <= s.len() && t.inner_ordered(),
            None => true,
        },
{
    lemma_line_at_bounds(s, i);
}

/// The tokens of a scan lie in order inside the text, none of them empty.
pub open spec fn ordered(spans: Seq<Span>, from: int, len: int) -> bool {
    &&& forall|k: int|
        0 <= k < spans.len() ==> from <= (#[trigger] spans[k]).first() < spans[k].after() <= len
            && spans[k].inner_ordered()
    &&& forall|k: int, l: int|
        0 <= k < l < spans.len() ==> (#[trigger] spans[k]).after() <= (#[trigger] spans[l]).first()
}

/// A scan stops inside the text, and its tokens lie in order between `i`
/// and the end of the text.
pub proof fn lemma_scan_bounds(s: Seq<char>, i: int)
    requires
        0 <= i <= s.len(),
    ensures
        i <= scan(s, i).stop <= s.len(),
        ordered(scan(s, i).spans, i, s.len() as int),
        scan(s, i).spans.len() <= s.len() - i,
    decreases s.len() - i,
{
    lemma_gap_end_bounds(s, i);
    let j = gap_end(s, i);
    if j < s.len() {
        lemma_token_at_bounds(s, j);
        match token_at(s, j) {
            None => {},
            Some(t) => {
                lemma_scan_bounds(s, t.after());
            },
        }
    }
}

/// The first position at or after `i` outside whitespace and comments.
pub fn skip_gap(chars: &Vec<char>, i: usize) -> (j: usize)
    requires
        i <= chars.len(),
    ensures
        j == gap_end(chars@, i as int),
        i <= j <= chars.len(),
{
    let mut j: usize = i;
    let mut in_comment = false;
    while j < chars.len()
        invariant
            i <= j <= chars.len(),
            !in_comment ==> gap_end(chars@, j as int) == gap_end(chars@, i as int),
            in_comment ==> gap_end(chars@, line_end(chars@, j as int)) == gap_end(
                chars@,
                i as int,
            ),
        decreases chars.len() - j,
    {
        let c = chars[j];
        if in_comment {
            if c == '\n' {
                in_comment = false;
            }
            j += 1;
        } else if space(c) {
            j += 1;
        } else if c == '#' {
            in_comment = true;
            j += 1;
        } else {
            return j;
        }
    }
    j
}

/// The end of the longest run of characters of `class` that starts at `i`.
pub fn skip_run(chars: &Vec<char>, i: usize, class: CharClass) -> (j: usize)
    requires
        i <= chars.len(),
    ensures
        j == run_end(chars@, i as int, class),
        i <= j <= chars.len(),
{
    let mut j: usize = i;
    while j < chars.len() && class.accepts(chars[j])
        invariant
            i <= j <= chars.len(),
            run_end(chars@, j as int, class) == run_end(chars@, i as int, class),
        decreases chars.len() - j,
    {
        j += 1;
    }
    j
}

/// The position after the quote that closes a string whose body starts at
/// `i`, or `None` where the text ends first.
pub fn close_string(chars: &Vec<char>, i: usize) -> (r: Option<usize>)
    requires
        i <= chars.len(),
    ensures
        match r {
            Some(e) => string_end(chars@, i as int) == Some(e as int) && i < e <= chars.len(),
            None => string_end(chars@, i as int) is None,
        },
{
    let mut j: usize = i;
    while j < chars.len()
        invariant
            i <= j,
            string_end(chars@, j as int) == string_end(chars@, i as int),
        decreases chars.len() - j,
    {
        let c = chars[j];
        if c == '"' {
            return Some(j + 1);
        } else if c == '\\' {
            if j + 1 >= chars.len() {
                return None;
            }
            j += 2;
        } else {
            j += 1;
        }
    }
    None
}

/// The position after the brace that closes an inline table whose body
/// starts at `i`, or `None` where the text ends first.
pub fn close_table(chars: &Vec<char>, i: usize) -> (r: Option<usize>)
    requires
        i <= chars.len(),
    ensures
        match r {
            Some(e) => table_end(chars@, i as int, 0) == Some(e as int) && i < e <= chars.len(),
            None => table_end(chars@, i as int, 0) is None,
        },
{
    let mut j: usize = i;
    let mut depth: usize = 0;
    while j < chars.len()
        invariant
            i <= j,
            depth <= j - i,
            table_end(chars@, j as int, depth as nat) == table_end(chars@, i as int, 0),
        decreases chars.len() - j,
    {
        let c = chars[j];
        if c == '}' {
            if depth == 0 {
                return Some(j + 1);
            }
            depth -= 1;
            j += 1;
        } else if c == '{' {
            depth += 1;
            j += 1;
        } else if c == '"' {
            match close_string(chars, j + 1) {
                Some(e) => {
                    j = e;
                },
                None => {
                    return None;
                },
            }
        } else {
            j += 1;
        }
    }
    None
}

/// The position after a section header that starts with the bracket at `i`,
/// or `None` where no header stands there.
pub fn close_header(chars: &Vec<char>, i: usize) -> (r: Option<usize>)
    requires
        i < chars.len(),
    ensures
        match r {
            Some(e) => header_end(chars@, i as int) == Some(e as int) && i < e <= chars.len(),
            None => header_end(chars@, i as int) is None,
        },
{
    let n = chars.len();
    if i + 1 < n && chars[i + 1] == '[' {
        let e = skip_run(chars, i + 2, CharClass::Name);
        if e > i + 2 && e < n - 1 && chars[e] == ']' && chars[e + 1] == ']' {
            Some(e + 2)
        } else {
            None
        }
    } else {
        let e = skip_run(chars, i + 1, CharClass::Name);
        if e > i + 1 && e < n && chars[e] == ']' {
            Some(e + 1)
        } else {
            None
        }
    }
}

/// The value that starts at `i`: its kind and the position after it, or
/// `None` where none does.
pub fn next_value(chars: &Vec<char>, i: usize) -> (r: Option<(ValueKind, usize)>)
    requires
        i <= chars.len(),
    ensures
        match r {
            Some((kind, end)) => value_at(chars@, i as int) == Some((kind, end as int)) && i < end
                <= chars.len(),
            None => value_at(chars@, i as int) is None,
        },
{
    proof {
        lemma_value_at_bounds(chars@, i as int);
    }
    if i >= chars.len() {
        return None;
    }
    let c = chars[i];
    if c == '"' {
        match close_string(chars, i + 1) {
            Some(end) => Some((ValueKind::Quoted, end)),
            None => None,
        }
    } else if c == '{' {
        match close_table(chars, i + 1) {
            Some(end) => Some((ValueKind::Table, end)),
            None => None,
        }
    } else if CharClass::Word.accepts(c) {
        Some((ValueKind::Word, skip_run(chars, i, CharClass::Word)))
    } else {
        None
    }
}

/// The line that starts at `i`, or `None` where none does.
pub fn next_line(chars: &Vec<char>, i: usize) -> (r: Option<Token>)
    requires
        i < chars.len(),
    ensures
        match r {
            Some(t) => line_at(chars@, i as int) == Some(t@),
            None => line_at(chars@, i as int) is None,
        },
{
    let k = skip_run(chars, i, CharClass::Name);
    let e = skip_run(chars, k, CharClass::Blank);
    if k == i || e >= chars.len() || chars[e] != '=' {
        return None;
    }
    let v = skip_run(chars, e + 1, CharClass::Blank);
    match next_value(chars, v) {
        Some((kind, end)) => Some(Token::Line { start: i, key_end: k, kind, value_start: v, end }),
        None => None,
    }
}

/// The token that starts at `i`, or `None` where none does.
pub fn next_token(chars: &Vec<char>, i: usize) -> (r: Option<Token>)
    requires
        i < chars.len(),
    ensures
        match r {
            Some(t) => token_at(chars@, i as int) == Some(t@) && t@.first() == i && i < t@.after()
                <= chars.len(),
            None => token_at(chars@, i as int) is None,
        },
{
    proof {
        lemma_token_at_bounds(chars@, i as int);
    }
    if chars[i] == '[' {
        match close_header(chars, i) {
            Some(end) => Some(Token::Header { start: i, end }),
            None => None,
        }
    } else {
        next_line(chars, i)
    }
}

/// Cuts `chars` into tokens. Returns the tokens found and the position where
/// scanning stopped, which is `chars.len()` when the whole text was scanned.
pub fn tokenize(chars: &Vec<char>) -> (r: (Vec<Token>, usize))
    ensures
        spans_of(r.0@) == scan(chars@, 0).spans,
        r.1 == scan(chars@, 0).stop,
        r.1 <= chars.len(),
        ordered(spans_of(r.0@), 0, chars.len() as int),
{
    let mut tokens: Vec<Token> = Vec::new();
    let mut i: usize = 0;
    let mut stop: usize = 0;
    let mut done = false;
    while !done
        invariant
            i <= chars.len(),
            !done ==> scan(chars@, 0).spans == spans_of(tokens@) + scan(chars@, i as int).spans,
            !done ==> scan(chars@, 0).stop == scan(chars@, i as int).stop,
            done ==> scan(chars@, 0).spans == spans_of(tokens@),
            done ==> scan(chars@, 0).stop == stop,
            done ==> stop <= chars.len(),
        decreases chars.len() - i + (if done { 0int } else { 1int }),
    {
        let j = skip_gap(chars, i);
        if j >= chars.len() {
            stop = j;
            done = true;
        } else {
            match next_token(chars, j) {
                None => {
                    stop = j;
                    done = true;
                },
                Some(t) => {
                    tokens.push(t);
                    i = t.after();
                },
            }
        }
    }
    proof {
        lemma_scan_bounds(chars@, 0);
    }
    (tokens, stop)
}

} // verus!
