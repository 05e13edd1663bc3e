//! The grammar over tokens: generic sections, the package section and
//! dependency sections, and the nodes that they yield.

use crate::chars::{spells, text_of, to_chars};
use crate::lexer::{
    close_string, scan, spans_of, string_end, tokenize, Span, Token, ValueKind,
};
use crate::location::{describe, place_text};
use crate::model::{ErrorView, ManifestError};
use crate::version::{is_semver, semver};
use vstd::prelude::*;

verus! {

/// What a token holds, without its position.
pub enum Lexeme {
    /// A section header, brackets included.
    Header { text: Seq<char> },
    /// A line: its key, and its value as it stands in the text.
    Line { key: Seq<char>, kind: ValueKind, value: Seq<char> },
}

/// The lexeme of the token `t` of the text `s`.
pub open spec fn lexeme_of(s: Seq<char>, t: Span) -> Lexeme {
    match t {
        Span::Header { start, end } => Lexeme::Header { text: s.subrange(start, end) },
        Span::Line { start, key_end, kind, value_start, end } => Lexeme::Line {
            key: s.subrange(start, key_end),
            kind,
            value: s.subrange(value_start, end),
        },
    }
}

/// The lexemes of the tokens `spans` of the text `s`.
pub open spec fn lexemes(s: Seq<char>, spans: Seq<Span>) -> Seq<Lexeme> {
    Seq::new(spans.len(), |k: int| lexeme_of(s, spans[k]))
}

/// A version literal: a quoted string that holds a semantic version.
pub open spec fn is_version_literal(raw: Seq<char>) -> bool {
    raw.len() >= 2 && raw[0] == '"' && raw[raw.len() - 1] == '"' && is_semver(
        raw.subrange(1, raw.len() - 1),
    )
}

/// A line. A dependency line is one whose value is a version literal or an
/// inline table.
pub open spec fn is_line(l: Lexeme, dependency: bool) -> bool {
    match l {
        Lexeme::Line { kind, value, .. } => !dependency || kind == ValueKind::Table || (kind
            == ValueKind::Quoted && is_version_literal(value)),
        Lexeme::Header { .. } => false,
    }
}

/// The line that gives `key` a quoted string.
pub open spec fn is_quoted_line(l: Lexeme, key: Seq<char>) -> bool {
    l is Line && l->key == key && l->kind == ValueKind::Quoted
}

/// The header `text`.
pub open spec fn is_header(l: Lexeme, text: Seq<char>) -> bool {
    l is Header && l->text == text
}

/// The number of lines that follow one another from `k` on.
pub open spec fn lines(ls: Seq<Lexeme>, k: int, dependency: bool) -> nat
    decreases ls.len() - k,
{
    if 0 <= k < ls.len() && is_line(ls[k], dependency) {
        1 + lines(ls, k + 1, dependency)
    } else {
        0
    }
}

/// The keys and raw values of the `n` lines from `k` on.
pub open spec fn pairs(ls: Seq<Lexeme>, k: int, n: nat) -> Seq<(Seq<char>, Seq<char>)> {
    Seq::new(n, |j: int| (ls[k + j]->key, ls[k + j]->value))
}

/// The mathematical value of a [`Node`]. Values are raw: as they stand in
/// the text, quotes and braces included.
pub enum NodeView {
    /// The header of a generic section, brackets included.
    Section { header: Seq<char> },
    /// A line of a generic section.
    KeyValue { key: Seq<char>, value: Seq<char> },
    /// A package section: its name, its version and its further lines.
    Package { name: Seq<char>, version: Seq<char>, fields: Seq<(Seq<char>, Seq<char>)> },
    /// A dependency section and its lines.
    Dependencies { entries: Seq<(Seq<char>, Seq<char>)> },
}

/// The `n` lines from `k` on as key-value nodes.
pub open spec fn key_values(ls: Seq<Lexeme>, k: int, n: nat) -> Seq<NodeView> {
    Seq::new(n, |j: int| NodeView::KeyValue { key: ls[k + j]->key, value: ls[k + j]->value })
}

/// The name in a section header: the header without its brackets.
pub open spec fn header_name(header: Seq<char>) -> Seq<char> {
    let n = header.len() as int;
    if n >= 4 && header[0] == '[' && header[1] == '[' && header[n - 2] == ']' && header[n - 1]
        == ']' {
        header.subrange(2, n - 2)
    } else if n >= 2 && header[0] == '[' && header[n - 1] == ']' {
        header.subrange(1, n - 1)
    } else {
        header
    }
}

/// The header of a generic section: any header but `[package]`, which
/// opens the package section and nothing else.
pub open spec fn is_section_header(l: Lexeme) -> bool {
    l is Header && l->text != "[package]"@
}

/// The header of a dependency section.
pub open spec fn is_dependencies_header(l: Lexeme) -> bool {
    l is Header && (l->text == "[dependencies]"@ || l->text == "[dev-dependencies]"@)
}

/// What a construct at some token yields: the index of the token after it,
/// and its nodes.
pub struct Block {
    pub end: int,
    pub nodes: Seq<NodeView>,
}

/// A generic section at `k`: its header, then its lines.
pub open spec fn section_at(ls: Seq<Lexeme>, k: int) -> Option<Block> {
    if 0 <= k < ls.len() && is_section_header(ls[k]) {
        let n = lines(ls, k + 1, false);
        Some(
            Block {
                end: k + 1 + n,
                nodes: seq![NodeView::Section { header: ls[k]->text }] + key_values(ls, k + 1, n),
            },
        )
    } else {
        None
    }
}

/// A package section at `k`: the header `[package]`, a line that gives
/// `name` a quoted string, a line that gives `version` a version literal,
/// then further lines.
pub open spec fn package_at(ls: Seq<Lexeme>, k: int) -> Option<Block> {
    if 0 <= k && k + 2 < ls.len() && is_header(ls[k], "[package]"@) && is_quoted_line(
        ls[k + 1],
        "name"@,
    ) && is_quoted_line(ls[k + 2], "version"@) && is_version_literal(ls[k + 2]->value) {
        let n = lines(ls, k + 3, false);
        Some(
            Block {
                end: k + 3 + n,
                nodes: seq![
                    NodeView::Package {
                        name: ls[k + 1]->value,
                        version: ls[k + 2]->value,
                        fields: pairs(ls, k + 3, n),
                    },
                ],
            },
        )
    } else {
        None
    }
}

/// A dependency section at `k`: its header, then its dependency lines.
pub open spec fn dependencies_at(ls: Seq<Lexeme>, k: int) -> Option<Block> {
    if 0 <= k < ls.len() && is_dependencies_header(ls[k]) {
        let n = lines(ls, k + 1, true);
        Some(
            Block {
                end: k + 1 + n,
                nodes: seq![NodeView::Dependencies { entries: pairs(ls, k + 1, n) }],
            },
        )
    } else {
        None
    }
}

/// The construct at `k`: a package section, a dependency section or a
/// generic section.
pub open spec fn construct_at(ls: Seq<Lexeme>, k: int) -> Option<Block> {
    if package_at(ls, k) is Some {
        package_at(ls, k)
    } else if dependencies_at(ls, k) is Some {
        dependencies_at(ls, k)
    } else {
        section_at(ls, k)
    }
}

/// The constructs that follow one another from `k` on: the index of the
/// first token that starts none (or the number of tokens), and their nodes.
pub open spec fn constructs(ls: Seq<Lexeme>, k: int) -> Block
    decreases ls.len() - k,
{
    match construct_at(ls, k) {
        Some(b) => {
            proof {
                lemma_construct_bounds(ls, k);
            }
            let rest = constructs(ls, b.end);
            Block { end: rest.end, nodes: b.nodes + rest.nodes }
        },
        None => Block { end: k, nodes: Seq::empty() },
    }
}

/// The lines from `k` on lie inside the tokens.
pub proof fn lemma_lines_bounds(ls: Seq<Lexeme>, k: int, dependency: bool)
    requires
        0 <= k <= ls.len(),
    ensures
        k + lines(ls, k, dependency) <= ls.len(),
        forall|j: int| k <= j < k + lines(ls, k, dependency) ==> is_line(ls[j], dependency),
    decreases ls.len() - k,
{
    if k < ls.len() && is_line(ls[k], dependency) {
        lemma_lines_bounds(ls, k + 1, dependency);
    }
}

/// A construct is not empty and lies inside the tokens.
pub proof fn lemma_construct_bounds(ls: Seq<Lexeme>, k: int)
    ensures
        match construct_at(ls, k) {
            Some(b) => 0 <= k < b.end <= ls.len(),
            None => true,
        },
{
    if 0 <= k < ls.len() {
        lemma_lines_bounds(ls, k + 1, false);
        lemma_lines_bounds(ls, k + 1, true);
        if k + 3 <= ls.len() {
            lemma_lines_bounds(ls, k + 3, false);
        }
    }
}

/// A node of the syntax tree. Values are raw: as they stand in the text,
/// quotes and braces included.
#[derive(Debug)]
pub enum Node {
    /// The header of a generic section, brackets included.
    Section { header: String },
    /// A line of a generic section.
    KeyValue { key: String, value: String },
    /// A package section: its name, its version and its further lines.
    Package { name: String, version: String, fields: Vec<(String, String)> },
    /// A dependency section and its lines.
    Dependencies { entries: Vec<(String, String)> },
}

/// The keys and values of a list of pairs.
pub open spec fn pairs_view(v: Seq<(String, String)>) -> Seq<(Seq<char>, Seq<char>)> {
    Seq::new(v.len(), |i: int| (v[i].0@, v[i].1@))
}

impl View for Node {
    type V = NodeView;

    open spec fn view(&self) -> NodeView {
        match self {
            Node::Section { header } => NodeView::Section { header: header@ },
            Node::KeyValue { key, value } => NodeView::KeyValue { key: key@, value: value@ },
            Node::Package { name, version, fields } => NodeView::Package {
                name: name@,
                version: version@,
                fields: pairs_view(fields@),
            },
            Node::Dependencies { entries } => NodeView::Dependencies {
                entries: pairs_view(entries@),
            },
        }
    }
}

/// The values of a list of nodes.
pub open spec fn nodes_view(v: Seq<Node>) -> Seq<NodeView> {
    Seq::new(v.len(), |i: int| v[i]@)
}

/// Every token lies inside the text, its parts in order.
pub open spec fn fit(chars: Seq<char>, tokens: Seq<Token>) -> bool {
    forall|k: int|
        0 <= k < tokens.len() ==> 0 <= (#[trigger] tokens[k])@.first() < tokens[k]@.after()
            <= chars.len() && tokens[k]@.inner_ordered()
}

/// The lexemes of the tokens `tokens` of the text `chars`.
pub open spec fn lexemes_of(chars: Seq<char>, tokens: Seq<Token>) -> Seq<Lexeme> {
    lexemes(chars, spans_of(tokens))
}

/// Whether the token at `k` is the header `text`.
fn header_here(chars: &Vec<char>, tokens: &Vec<Token>, k: usize, text: &str) -> (b: bool)
    requires
        fit(chars@, tokens@),
        k < tokens.len(),
    ensures
        b == is_header(lexemes_of(chars@, tokens@)[k as int], text@),
{
    match tokens[k] {
        Token::Header { start, end } => spells(chars, start, end, text),
        Token::Line { .. } => false,
    }
}

/// Whether the characters `lo..hi` are a version literal.
fn version_literal_here(chars: &Vec<char>, lo: usize, hi: usize) -> (b: bool)
    requires
        lo <= hi <= chars.len(),
    ensures
        b == is_version_literal(chars@.subrange(lo as int, hi as int)),
{
    if hi - lo >= 2 && chars[lo] == '"' && chars[hi - 1] == '"' {
        proof {
            let raw = chars@.subrange(lo as int, hi as int);
            assert(raw.subrange(1, raw.len() - 1) == chars@.subrange(lo + 1, hi - 1));
        }
        semver(chars, lo + 1, hi - 1)
    } else {
        false
    }
}

/// Whether the token at `k` is the line that gives `key` a quoted string.
fn quoted_line_here(chars: &Vec<char>, tokens: &Vec<Token>, k: usize, key: &str) -> (b: bool)
    requires
        fit(chars@, tokens@),
        k < tokens.len(),
    ensures
        b == is_quoted_line(lexemes_of(chars@, tokens@)[k as int], key@),
{
    match tokens[k] {
        Token::Line { start, key_end, kind, .. } => kind == ValueKind::Quoted && spells(
            chars,
            start,
            key_end,
            key,
        ),
        Token::Header { .. } => false,
    }
}

/// Whether the value of the token at `k`, a line, is a version literal.
fn version_here(chars: &Vec<char>, tokens: &Vec<Token>, k: usize) -> (b: bool)
    requires
        fit(chars@, tokens@),
        k < tokens.len(),
        tokens[k as int] is Line,
    ensures
        b == is_version_literal(lexemes_of(chars@, tokens@)[k as int]->value),
{
    match tokens[k] {
        Token::Line { value_start, end, .. } => version_literal_here(chars, value_start, end),
        Token::Header { .. } => false,
    }
}

/// Whether a line stands at `k`.
fn line_here(chars: &Vec<char>, tokens: &Vec<Token>, k: usize, dependency: bool) -> (b: bool)
    requires
        fit(chars@, tokens@),
    ensures
        b == (k < tokens.len() && is_line(lexemes_of(chars@, tokens@)[k as int], dependency)),
{
    if k >= tokens.len() {
        return false;
    }
    match tokens[k] {
        Token::Line { kind, value_start, end, .. } => !dependency || kind == ValueKind::Table || (
        kind == ValueKind::Quoted && version_literal_here(chars, value_start, end)),
        Token::Header { .. } => false,
    }
}

/// The number of lines that follow one another from `k` on.
fn count_lines(chars: &Vec<char>, tokens: &Vec<Token>, k: usize, dependency: bool) -> (n: usize)
    requires
        fit(chars@, tokens@),
        k <= tokens.len(),
    ensures
        n == lines(lexemes_of(chars@, tokens@), k as int, dependency),
        k + n <= tokens.len(),
        forall|j: int| k <= j < k + n ==> (#[trigger] tokens[j]) is Line,
{
    let mut n: usize = 0;
    while line_here(chars, tokens, k + n, dependency)
        invariant
            fit(chars@, tokens@),
            k + n <= tokens.len(),
            lines(lexemes_of(chars@, tokens@), k as int, dependency) == n + lines(
                lexemes_of(chars@, tokens@),
                k + n,
                dependency,
            ),
            forall|j: int| k <= j < k + n ==> (#[trigger] tokens[j]) is Line,
        decreases tokens.len() - (k + n),
    {
        n += 1;
    }
    n
}

/// The key of the token at `k`, a line.
fn key_text(chars: &Vec<char>, tokens: &Vec<Token>, k: usize) -> (text: String)
    requires
        fit(chars@, tokens@),
        k < tokens.len(),
        tokens[k as int] is Line,
    ensures
        text@ == lexemes_of(chars@, tokens@)[k as int]->key,
{
    match tokens[k] {
        Token::Line { start, key_end, .. } => text_of(chars, start, key_end),
        Token::Header { start, .. } => text_of(chars, start, start),
    }
}

/// The raw value of the token at `k`, a line.
fn value_text(chars: &Vec<char>, tokens: &Vec<Token>, k: usize) -> (text: String)
    requires
        fit(chars@, tokens@),
        k < tokens.len(),
        tokens[k as int] is Line,
    ensures
        text@ == lexemes_of(chars@, tokens@)[k as int]->value,
{
    match tokens[k] {
        Token::Line { value_start, end, .. } => text_of(chars, value_start, end),
        Token::Header { start, .. } => text_of(chars, start, start),
    }
}

/// The text of the token at `k`, a header.
fn header_text(chars: &Vec<char>, tokens: &Vec<Token>, k: usize) -> (text: String)
    requires
        fit(chars@, tokens@),
        k < tokens.len(),
        tokens[k as int] is Header,
    ensures
        text@ == lexemes_of(chars@, tokens@)[k as int]->text,
{
    match tokens[k] {
        Token::Header { start, end } => text_of(chars, start, end),
        Token::Line { start, .. } => text_of(chars, start, start),
    }
}

/// The keys and raw values of the `n` lines from `k` on.
fn read_pairs(chars: &Vec<char>, tokens: &Vec<Token>, k: usize, n: usize) -> (out: Vec<
    (String, String),
>)
    requires
        fit(chars@, tokens@),
        k + n <= tokens.len(),
        forall|j: int| k <= j < k + n ==> (#[trigger] tokens[j]) is Line,
    ensures
        pairs_view(out@) == pairs(lexemes_of(chars@, tokens@), k as int, n as nat),
{
    let mut out: Vec<(String, String)> = Vec::new();
    let mut j: usize = 0;
    while j < n
        invariant
            fit(chars@, tokens@),
            k + n <= tokens.len(),
            forall|j: int| k <= j < k + n ==> (#[trigger] tokens[j]) is Line,
            j <= n,
            out.len() == j,
            pairs_view(out@) == pairs(lexemes_of(chars@, tokens@), k as int, j as nat),
        decreases n - j,
    {
        let key = key_text(chars, tokens, k + j);
        let value = value_text(chars, tokens, k + j);
        proof {
            let ls = lexemes_of(chars@, tokens@);
            let next = out@.push((key, value));
            assert forall|i: int| 0 <= i < j + 1 implies pairs_view(next)[i] == pairs(
                ls,
                k as int,
                (j + 1) as nat,
            )[i] by {
                if i < j {
                    assert(pairs(ls, k as int, j as nat)[i] == pairs(
                        ls,
                        k as int,
                        (j + 1) as nat,
                    )[i]);
                }
            }
        }
        out.push((key, value));
        j += 1;
    }
    out
}

/// Appends the `n` lines from `k` on to `nodes`, as key-value nodes.
fn push_key_values(
    chars: &Vec<char>,
    tokens: &Vec<Token>,
    k: usize,
    n: usize,
    nodes: &mut Vec<Node>,
)
    requires
        fit(chars@, tokens@),
        k + n <= tokens.len(),
        forall|j: int| k <= j < k + n ==> (#[trigger] tokens[j]) is Line,
    ensures
        nodes_view(final(nodes)@) == nodes_view(old(nodes)@) + key_values(
            lexemes_of(chars@, tokens@),
            k as int,
            n as nat,
        ),
{
    let mut j: usize = 0;
    while j < n
        invariant
            fit(chars@, tokens@),
            k + n <= tokens.len(),
            forall|j: int| k <= j < k + n ==> (#[trigger] tokens[j]) is Line,
            j <= n,
            nodes_view(nodes@) == nodes_view(old(nodes)@) + key_values(
                lexemes_of(chars@, tokens@),
                k as int,
                j as nat,
            ),
        decreases n - j,
    {
        let key = key_text(chars, tokens, k + j);
        let value = value_text(chars, tokens, k + j);
        let node = Node::KeyValue { key, value };
        proof {
            let ls = lexemes_of(chars@, tokens@);
            let next = nodes@.push(node);
            let before = nodes_view(old(nodes)@);
            let goal = before + key_values(ls, k as int, (j + 1) as nat);
            assert(nodes_view(nodes@).len() == before.len() + j);
            assert forall|i: int| 0 <= i < next.len() implies nodes_view(next)[i] == goal[i] by {
                if i < nodes@.len() {
                    assert(nodes_view(nodes@)[i] == (before + key_values(
                        ls,
                        k as int,
                        j as nat,
                    ))[i]);
                }
            }
        }
        nodes.push(node);
        j += 1;
    }
}

/// Whether the token at `k` is the header of a generic section.
fn section_header_here(chars: &Vec<char>, tokens: &Vec<Token>, k: usize) -> (b: bool)
    requires
        fit(chars@, tokens@),
        k < tokens.len(),
    ensures
        b == is_section_header(lexemes_of(chars@, tokens@)[k as int]),
{
    match tokens[k] {
        Token::Header { start, end } => !spells(chars, start, end, "[package]"),
        Token::Line { .. } => false,
    }
}

/// The generic section at `k`: the index of the token after it and its
/// nodes.
fn read_section(chars: &Vec<char>, tokens: &Vec<Token>, k: usize) -> (r: Option<
    (usize, Vec<Node>),
>)
    requires
        fit(chars@, tokens@),
        k < tokens.len(),
    ensures
        match r {
            Some((end, nodes)) => section_at(lexemes_of(chars@, tokens@), k as int) == Some(
                Block { end: end as int, nodes: nodes_view(nodes@) },
            ) && k < end <= tokens.len(),
            None => section_at(lexemes_of(chars@, tokens@), k as int) is None,
        },
{
    if !section_header_here(chars, tokens, k) {
        return None;
    }
    let n = count_lines(chars, tokens, k + 1, false);
    let header = header_text(chars, tokens, k);
    let mut nodes: Vec<Node> = Vec::new();
    nodes.push(Node::Section { header });
    proof {
        let ls = lexemes_of(chars@, tokens@);
        assert(nodes_view(nodes@) == seq![NodeView::Section { header: ls[k as int]->text }]);
    }
    push_key_values(chars, tokens, k + 1, n, &mut nodes);
    Some((k + 1 + n, nodes))
}

/// The package section at `k`: the index of the token after it and its
/// node.
fn read_package(chars: &Vec<char>, tokens: &Vec<Token>, k: usize) -> (r: Option<
    (usize, Vec<Node>),
>)
    requires
        fit(chars@, tokens@),
        k < tokens.len(),
    ensures
        match r {
            Some((end, nodes)) => package_at(lexemes_of(chars@, tokens@), k as int) == Some(
                Block { end: end as int, nodes: nodes_view(nodes@) },
            ) && k < end <= tokens.len(),
            None => package_at(lexemes_of(chars@, tokens@), k as int) is None,
        },
{
    if tokens.len() < 3 || k > tokens.len() - 3 {
        return None;
    }
    if !(header_here(chars, tokens, k, "[package]") && quoted_line_here(
        chars,
        tokens,
        k + 1,
        "name",
    ) && quoted_line_here(chars, tokens, k + 2, "version")) {
        return None;
    }
    if !version_here(chars, tokens, k + 2) {
        return None;
    }
    let n = count_lines(chars, tokens, k + 3, false);
    let name = value_text(chars, tokens, k + 1);
    let version = value_text(chars, tokens, k + 2);
    let fields = read_pairs(chars, tokens, k + 3, n);
    let mut nodes: Vec<Node> = Vec::new();
    nodes.push(Node::Package { name, version, fields });
    proof {
        let ls = lexemes_of(chars@, tokens@);
        assert(nodes_view(nodes@) == seq![
            NodeView::Package {
                name: ls[k + 1]->value,
                version: ls[k + 2]->value,
                fields: pairs(ls, k + 3, n as nat),
            },
        ]);
    }
    Some((k + 3 + n, nodes))
}

/// The dependency section at `k`: the index of the token after it and its
/// node.
fn read_dependencies(chars: &Vec<char>, tokens: &Vec<Token>, k: usize) -> (r: Option<
    (usize, Vec<Node>),
>)
    requires
        fit(chars@, tokens@),
        k < tokens.len(),
    ensures
        match r {
            Some((end, nodes)) => dependencies_at(lexemes_of(chars@, tokens@), k as int) == Some(
                Block { end: end as int, nodes: nodes_view(nodes@) },
            ) && k < end <= tokens.len(),
            None => dependencies_at(lexemes_of(chars@, tokens@), k as int) is None,
        },
{
    if !(header_here(chars, tokens, k, "[dependencies]") || header_here(
        chars,
        tokens,
        k,
        "[dev-dependencies]",
    )) {
        return None;
    }
    let n = count_lines(chars, tokens, k + 1, true);
    let entries = read_pairs(chars, tokens, k + 1, n);
    let mut nodes: Vec<Node> = Vec::new();
    nodes.push(Node::Dependencies { entries });
    proof {
        let ls = lexemes_of(chars@, tokens@);
        assert(nodes_view(nodes@) == seq![
            NodeView::Dependencies { entries: pairs(ls, k + 1, n as nat) },
        ]);
    }
    Some((k + 1 + n, nodes))
}

/// The construct at `k`: the index of the token after it and its nodes.
fn read_construct(chars: &Vec<char>, tokens: &Vec<Token>, k: usize) -> (r: Option<
    (usize, Vec<Node>),
>)
    requires
        fit(chars@, tokens@),
        k < tokens.len(),
    ensures
        match r {
            Some((end, nodes)) => construct_at(lexemes_of(chars@, tokens@), k as int) == Some(
                Block { end: end as int, nodes: nodes_view(nodes@) },
            ) && k < end <= tokens.len(),
            None => construct_at(lexemes_of(chars@, tokens@), k as int) is None,
        },
{
    match read_package(chars, tokens, k) {
        Some(found) => Some(found),
        None => match read_dependencies(chars, tokens, k) {
            Some(found) => Some(found),
            None => read_section(chars, tokens, k),
        },
    }
}

/// The constructs that follow one another from the first token on: the
/// index of the first token that starts none, and their nodes.
fn read_constructs(chars: &Vec<char>, tokens: &Vec<Token>) -> (r: (usize, Vec<Node>))
    requires
        fit(chars@, tokens@),
    ensures
        constructs(lexemes_of(chars@, tokens@), 0) == (Block {
            end: r.0 as int,
            nodes: nodes_view(r.1@),
        }),
        r.0 <= tokens.len(),
{
    let mut nodes: Vec<Node> = Vec::new();
    let mut k: usize = 0;
    let ghost ls = lexemes_of(chars@, tokens@);
    while k < tokens.len()
        invariant
            fit(chars@, tokens@),
            ls == lexemes_of(chars@, tokens@),
            k <= tokens.len(),
            constructs(ls, 0).end == constructs(ls, k as int).end,
            constructs(ls, 0).nodes == nodes_view(nodes@) + constructs(ls, k as int).nodes,
        decreases tokens.len() - k,
    {
        match read_construct(chars, tokens, k) {
            None => {
                return (k, nodes);
            },
            Some((end, mut found)) => {
                nodes.append(&mut found);
                k = end;
            },
        }
    }
    (k, nodes)
}

/// The productions of the grammar that a text can be matched against.
#[derive(Clone, Copy, PartialEq, Eq, Debug, Structural)]
pub enum Rule {
    /// A whole manifest: one or more constructs, and nothing else but gaps.
    Manifest,
    /// A generic section: its header and its lines.
    Section,
    /// The header of a generic section.
    SectionDefinition,
    /// One line: a key, `=` and a value.
    KeyValue,
    /// A package section.
    PackageSection,
    /// A dependency section.
    DependenciesSection,
    /// A version literal.
    Version,
}

/// The production `rule`, one made of tokens, at the first token: the
/// number of tokens that it covers, and its nodes. A manifest covers all
/// the tokens.
pub open spec fn production(rule: Rule, ls: Seq<Lexeme>) -> Option<Block> {
    if ls.len() == 0 {
        None
    } else {
        match rule {
            Rule::Manifest => if constructs(ls, 0).end == ls.len() {
                Some(constructs(ls, 0))
            } else {
                None
            },
            Rule::Section => section_at(ls, 0),
            Rule::SectionDefinition => if is_section_header(ls[0]) {
                Some(Block { end: 1, nodes: seq![NodeView::Section { header: ls[0]->text }] })
            } else {
                None
            },
            Rule::KeyValue => if is_line(ls[0], false) {
                Some(Block { end: 1, nodes: key_values(ls, 0, 1) })
            } else {
                None
            },
            Rule::PackageSection => package_at(ls, 0),
            Rule::DependenciesSection => dependencies_at(ls, 0),
            Rule::Version => None,
        }
    }
}

/// What matching a production against a text yields: the number of
/// characters matched and the nodes found in them.
pub struct Match {
    pub end: int,
    pub nodes: Seq<NodeView>,
}

/// The version literal at the start of `s`: a quoted string that holds a
/// semantic version.
pub open spec fn version_match(s: Seq<char>) -> Option<Match> {
    if s.len() > 0 && s[0] == '"' {
        match string_end(s, 1) {
            Some(end) => if is_semver(s.subrange(1, end - 1)) {
                Some(Match { end, nodes: Seq::empty() })
            } else {
                None
            },
            None => None,
        }
    } else {
        None
    }
}

/// Matches `rule` against `s`. A manifest is the whole of `s`, gaps before,
/// between and after its constructs included. Any other production stands
/// at the start of `s` and ends with its last token: a section takes in
/// the lines that follow its header, and what stands behind the production
/// need not match anything.
pub open spec fn rule_match(rule: Rule, s: Seq<char>) -> Option<Match> {
    let sc = scan(s, 0);
    if rule == Rule::Version {
        version_match(s)
    } else {
        match production(rule, lexemes(s, sc.spans)) {
            Some(b) => if rule == Rule::Manifest {
                if sc.stop == s.len() {
                    Some(Match { end: s.len() as int, nodes: b.nodes })
                } else {
                    None
                }
            } else {
                if sc.spans[0].first() == 0 {
                    Some(Match { end: sc.spans[b.end - 1].after(), nodes: b.nodes })
                } else {
                    None
                }
            },
            None => None,
        }
    }
}

/// Where `s` stops matching `rule`, for a text that does not match it. For
/// a manifest: the first character that starts no token, else the start of
/// the first token that starts no construct, else the end of the text. Any
/// other production fails at the start of the text.
pub open spec fn failure_offset(rule: Rule, s: Seq<char>) -> int {
    let sc = scan(s, 0);
    let ls = lexemes(s, sc.spans);
    if rule != Rule::Manifest {
        0
    } else if sc.stop < s.len() {
        sc.stop
    } else if constructs(ls, 0).end < ls.len() {
        sc.spans[constructs(ls, 0).end].first()
    } else {
        s.len() as int
    }
}

/// The description of a text that does not match `rule`: the place where it
/// stops matching.
pub open spec fn failure_text(rule: Rule, s: Seq<char>) -> Seq<char> {
    place_text(s, failure_offset(rule, s))
}

/// A matched production: the rule, the text matched and the nodes found.
#[derive(Debug)]
pub struct Pair {
    pub rule: Rule,
    pub text: String,
    pub nodes: Vec<Node>,
}

impl Pair {
    /// The rule that was matched.
    pub fn as_rule(&self) -> (rule: Rule)
        ensures
            rule == self.rule,
    {
        self.rule
    }

    /// The text that was matched.
    pub fn as_str(&self) -> (text: &str)
        ensures
            text@ == self.text@,
    {
        self.text.as_str()
    }

    /// The nodes found in the matched text, in the order of the text.
    pub fn into_inner(self) -> (nodes: Vec<Node>)
        ensures
            nodes == self.nodes,
    {
        self.nodes
    }
}

/// The error for a text that stops matching at `offset`.
fn syntax_error(chars: &Vec<char>, offset: usize) -> (e: ManifestError)
    requires
        offset <= chars.len(),
    ensures
        e@ == ErrorView::ParseError(place_text(chars@, offset as int)),
{
    ManifestError::ParseError(describe(chars, offset))
}

/// The production `rule`, one made of tokens and less than a manifest, at
/// the first token.
fn read_production(chars: &Vec<char>, tokens: &Vec<Token>, rule: Rule) -> (r: Option<
    (usize, Vec<Node>),
>)
    requires
        fit(chars@, tokens@),
        tokens.len() > 0,
        rule != Rule::Manifest,
        rule != Rule::Version,
    ensures
        match r {
            Some((end, nodes)) => production(rule, lexemes_of(chars@, tokens@)) == Some(
                Block { end: end as int, nodes: nodes_view(nodes@) },
            ) && 0 < end <= tokens.len(),
            None => production(rule, lexemes_of(chars@, tokens@)) is None,
        },
{
    let ghost ls = lexemes_of(chars@, tokens@);
    match rule {
        Rule::Section => read_section(chars, tokens, 0),
        Rule::PackageSection => read_package(chars, tokens, 0),
        Rule::DependenciesSection => read_dependencies(chars, tokens, 0),
        Rule::SectionDefinition => {
            if section_header_here(chars, tokens, 0) {
                let mut nodes: Vec<Node> = Vec::new();
                nodes.push(Node::Section { header: header_text(chars, tokens, 0) });
                assert(nodes_view(nodes@) == seq![NodeView::Section { header: ls[0]->text }]);
                Some((1, nodes))
            } else {
                None
            }
        },
        _ => {
            if line_here(chars, tokens, 0, false) {
                let mut nodes: Vec<Node> = Vec::new();
                push_key_values(chars, tokens, 0, 1, &mut nodes);
                Some((1, nodes))
            } else {
                None
            }
        },
    }
}

/// The version literal at the start of `chars`: the position after it.
fn read_version(chars: &Vec<char>) -> (r: Option<usize>)
    ensures
        match r {
            Some(end) => version_match(chars@) == Some(
                Match { end: end as int, nodes: Seq::empty() },
            ) && end <= chars.len(),
            None => version_match(chars@) is None,
        },
{
    if chars.len() == 0 || chars[0] != '"' {
        return None;
    }
    match close_string(chars, 1) {
        Some(end) => if semver(chars, 1, end - 1) {
            Some(end)
        } else {
            None
        },
        None => None,
    }
}

/// The grammar engine: matches texts against the productions of the
/// manifest grammar.
#[derive(Debug)]
pub struct ManifestParser;

impl ManifestParser {
    /// Matches `rule` against `input`. Returns the matched text and the
    /// nodes found in it, or a parse error that tells where `input` stops
    /// matching.
    pub fn parse(rule: Rule, input: &str) -> (r: Result<Pair, ManifestError>)
        ensures
            match r {
                Ok(pair) => rule_match(rule, input@) == Some(
                    Match { end: pair.text@.len() as int, nodes: nodes_view(pair.nodes@) },
                ) && pair.rule == rule && pair.text@ == input@.take(pair.text@.len() as int),
                Err(e) => rule_match(rule, input@) is None && e@ == ErrorView::ParseError(
                    failure_text(rule, input@),
                ),
            },
    {
        let chars = to_chars(input);
        if rule == Rule::Version {
            return match read_version(&chars) {
                Some(end) => {
                    let nodes: Vec<Node> = Vec::new();
                    assert(nodes_view(nodes@) == Seq::<NodeView>::empty());
                    Ok(Pair { rule, text: text_of(&chars, 0, end), nodes })
                },
                None => Err(syntax_error(&chars, 0)),
            };
        }
        let (tokens, stop) = tokenize(&chars);
        proof {
            let spans = spans_of(tokens@);
            assert forall|k: int| 0 <= k < tokens.len() implies 0 <= (#[trigger] tokens[k])@.first()
                < tokens[k]@.after() <= chars.len() && tokens[k]@.inner_ordered() by {
                assert(spans[k] == tokens[k]@);
            }
        }
        if rule == Rule::Manifest {
            if stop < chars.len() {
                return Err(syntax_error(&chars, stop));
            }
            let (end, nodes) = read_constructs(&chars, &tokens);
            if end < tokens.len() {
                return Err(syntax_error(&chars, tokens[end].first()));
            }
            if tokens.len() == 0 {
                return Err(syntax_error(&chars, chars.len()));
            }
            let text = text_of(&chars, 0, chars.len());
            Ok(Pair { rule, text, nodes })
        } else {
            if tokens.len() == 0 || tokens[0].first() != 0 {
                return Err(syntax_error(&chars, 0));
            }
            match read_production(&chars, &tokens, rule) {
                Some((end, nodes)) => {
                    let text = text_of(&chars, 0, tokens[end - 1].after());
                    Ok(Pair { rule, text, nodes })
                },
                None => Err(syntax_error(&chars, 0)),
            }
        }
    }
}

} // verus!
