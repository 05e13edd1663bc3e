//! What holds of parsing as a whole: a text has one model, comment lines
//! and the blanks around `=` change nothing, dependency sections take their
//! two names in turn, and quoted versions are matched exactly when they are
//! semantic versions.

use crate::builder::{
    build, initial, manifest_of, package_section, parses_to, step, trim_end, trim_start, value_of,
    with_lines,
};
use crate::chars::{all_in, is_space, CharClass};
use crate::joining::{
    ends_lines, lemma_indent_is_gap, lemma_plain_string, lemma_run_through, lemma_words_concat,
    lemma_words_of_line, line_head, words,
};
use crate::lexer::{
    gap_end, header_end, lemma_line_end_bounds, run_end, scan, scans, token_at, value_at, Span,
    ValueKind,
};
use crate::model::{Manifest, ManifestError};
use crate::syntax::{
    construct_at, constructs, dependencies_at, header_name, lines, package_at, rule_match,
    section_at, Lexeme, Match, NodeView, Rule,
};
use crate::version::{
    has_leading_zero, is_dotted, is_semver, is_version_core, lemma_core_chars, lemma_dotted_chars,
    lemma_leading_zero_rejected, lemma_semver_accepts, lemma_trailing_dash_rejected,
    lemma_trailing_plus_rejected, version_text,
};
use vstd::prelude::*;

verus! {

/// A text has one model: two results of parsing it hold the same model,
/// or the same error.
pub proof fn lemma_one_model(
    text: Seq<char>,
    first: Result<Manifest, ManifestError>,
    second: Result<Manifest, ManifestError>,
)
    requires
        parses_to(text, first),
        parses_to(text, second),
    ensures
        match (first, second) {
            (Ok(a), Ok(b)) => a@ == b@,
            (Err(a), Err(b)) => a@ == b@,
            _ => false,
        },
{
}

/// A text of gaps alone, the empty text among them, is no manifest.
pub proof fn lemma_blank_text_is_no_manifest(s: Seq<char>)
    requires
        gap_end(s, 0) == s.len(),
    ensures
        manifest_of(s) is None,
{
}

/// A comment line: whitespace, `#`, a body without line feed, a line feed.
pub open spec fn comment_line(indent: Seq<char>, body: Seq<char>) -> Seq<char> {
    indent + seq!['#'] + body + seq!['\n']
}

/// A comment line scans and holds no token.
pub proof fn lemma_comment_line_is_gap(indent: Seq<char>, body: Seq<char>)
    requires
        forall|k: int| 0 <= k < indent.len() ==> is_space(indent[k]),
        forall|k: int| 0 <= k < body.len() ==> body[k] != '\n',
    ensures
        scans(comment_line(indent, body)),
        words(comment_line(indent, body)) == Seq::<Lexeme>::empty(),
        ends_lines(comment_line(indent, body)),
{
    let line = comment_line(indent, body);
    let n = line.len() as int;
    let h = indent.len() as int;
    lemma_line_end_bounds(line, h + 1);
    assert(gap_end(line, n) == n);
    assert(gap_end(line, n - 1) == n);
    lemma_indent_is_gap(line, h, 0);
}

/// A comment line changes nothing: where `before` is whole lines that
/// scan, the text with a comment line between `before` and `after` has the
/// model of the text without it, and is no manifest where that one is none.
pub proof fn lemma_comment_line_is_skipped(
    before: Seq<char>,
    indent: Seq<char>,
    body: Seq<char>,
    after: Seq<char>,
)
    requires
        ends_lines(before),
        scans(before),
        forall|k: int| 0 <= k < indent.len() ==> is_space(indent[k]),
        forall|k: int| 0 <= k < body.len() ==> body[k] != '\n',
    ensures
        manifest_of(before + comment_line(indent, body) + after) == manifest_of(before + after),
{
    let line = comment_line(indent, body);
    lemma_comment_line_is_gap(indent, body);
    lemma_words_concat(line, after);
    lemma_words_concat(before, line + after);
    lemma_words_concat(before, after);
    assert(before + line + after =~= before + (line + after));
}

/// A comment at the end of the text, with no line feed after it, changes
/// nothing either.
pub proof fn lemma_last_comment_is_skipped(before: Seq<char>, indent: Seq<char>, body: Seq<char>)
    requires
        ends_lines(before),
        scans(before),
        forall|k: int| 0 <= k < indent.len() ==> is_space(indent[k]),
        forall|k: int| 0 <= k < body.len() ==> body[k] != '\n',
    ensures
        manifest_of(before + (indent + seq!['#'] + body)) == manifest_of(before),
{
    let last = indent + seq!['#'] + body;
    let n = last.len() as int;
    let h = indent.len() as int;
    lemma_line_end_bounds(last, h + 1);
    assert(gap_end(last, n) == n);
    lemma_indent_is_gap(last, h, 0);
    lemma_words_concat(before, last);
}

/// The blanks around a line's `=` change nothing: where `before` is whole
/// lines that scan, a text with a line behind `before` has the same model
/// whatever spaces and tabs stand around the `=` of that line.
pub proof fn lemma_blanks_around_equals(
    before: Seq<char>,
    key: Seq<char>,
    b1: Seq<char>,
    b2: Seq<char>,
    c1: Seq<char>,
    c2: Seq<char>,
    rest: Seq<char>,
)
    requires
        ends_lines(before),
        scans(before),
        key.len() > 0,
        all_in(key, CharClass::Name),
        all_in(b1, CharClass::Blank),
        all_in(b2, CharClass::Blank),
        all_in(c1, CharClass::Blank),
        all_in(c2, CharClass::Blank),
    ensures
        manifest_of(before + line_head(key, b1, b2) + rest) == manifest_of(
            before + line_head(key, c1, c2) + rest,
        ),
{
    let first = line_head(key, b1, b2) + rest;
    let second = line_head(key, c1, c2) + rest;
    lemma_words_of_line(key, b1, b2, rest);
    lemma_words_of_line(key, c1, c2, rest);
    lemma_words_concat(before, first);
    lemma_words_concat(before, second);
    assert(before + line_head(key, b1, b2) + rest =~= before + first);
    assert(before + line_head(key, c1, c2) + rest =~= before + second);
}

/// The header with the name `name`.
pub open spec fn bracketed(name: Seq<char>) -> Seq<char> {
    seq!['['] + name + seq![']']
}

/// A header on a line of its own scans to one header token.
proof fn lemma_header_line(name: Seq<char>)
    requires
        name.len() > 0,
        all_in(name, CharClass::Name),
    ensures
        ends_lines(bracketed(name) + seq!['\n']),
        scans(bracketed(name) + seq!['\n']),
        words(bracketed(name) + seq!['\n']) == seq![Lexeme::Header { text: bracketed(name) }],
        header_name(bracketed(name)) == name,
{
    let header = bracketed(name);
    let s = header + seq!['\n'];
    let h = header.len() as int;
    assert(s[0] == '[');
    assert(s[1] == name[0]);
    assert(CharClass::Name.admits(name[0]));
    assert forall|k: int| 1 <= k < h - 1 implies CharClass::Name.admits(s[k]) by {
        assert(s[k] == name[k - 1]);
    }
    assert(s[h - 1] == ']');
    assert(s[h] == '\n');
    lemma_run_through(s, 1, h - 1, CharClass::Name);
    assert(run_end(s, h - 1, CharClass::Name) == h - 1);
    assert(header_end(s, 0) == Some(h));
    assert(gap_end(s, 0) == 0);
    let t = Span::Header { start: 0, end: h };
    assert(token_at(s, 0) == Some(t));
    assert(gap_end(s, h + 1) == h + 1);
    assert(gap_end(s, h) == h + 1);
    assert(scan(s, h).spans =~= Seq::<Span>::empty());
    assert(scan(s, h).stop == h + 1);
    assert(scan(s, 0).spans =~= seq![t]);
    assert(s.subrange(0, h) =~= header);
    assert(words(s) =~= seq![Lexeme::Header { text: header }]);
    assert(header[1] == name[0]);
    assert(header.subrange(1, h - 1) =~= name);
}

/// A header of any name opens a generic section: a text made of a header
/// other than `[package]` and the two dependency headers, and of a line
/// that gives a key a quoted string, is a manifest with one section of the
/// header's name, which holds the string under the key.
pub proof fn lemma_any_header_opens_a_section(
    name: Seq<char>,
    key: Seq<char>,
    b1: Seq<char>,
    b2: Seq<char>,
    v: Seq<char>,
)
    requires
        name.len() > 0,
        all_in(name, CharClass::Name),
        bracketed(name) != "[package]"@,
        bracketed(name) != "[dependencies]"@,
        bracketed(name) != "[dev-dependencies]"@,
        key.len() > 0,
        all_in(key, CharClass::Name),
        all_in(b1, CharClass::Blank),
        all_in(b2, CharClass::Blank),
        forall|k: int| 0 <= k < v.len() ==> v[k] != '"' && v[k] != '\\',
    ensures
        manifest_of(bracketed(name) + seq!['\n'] + line_head(key, b1, b2) + quoted(v)) == Some(
            Map::<Seq<char>, Map<Seq<char>, Seq<char>>>::empty().insert(
                name,
                Map::<Seq<char>, Seq<char>>::empty().insert(key, v),
            ),
        ),
{
    let header = bracketed(name);
    let before = header + seq!['\n'];
    let q = quoted(v);
    let n = q.len() as int;
    let line = line_head(key, b1, b2) + q;
    lemma_header_line(name);
    assert(q[0] == '"');
    assert(q[n - 1] == '"');
    assert forall|k: int| 1 <= k < n - 1 implies q[k] != '"' && q[k] != '\\' by {
        assert(q[k] == v[k - 1]);
    }
    lemma_plain_string(q, 1);
    assert(run_end(q, 0, CharClass::Blank) == 0);
    assert(value_at(q, 0) == Some((ValueKind::Quoted, n)));
    assert(gap_end(q, n) == n);
    assert(scan(q, n).spans =~= Seq::<Span>::empty());
    lemma_words_of_line(key, b1, b2, q);
    assert(q.subrange(0, n) =~= q);
    let second = Lexeme::Line { key, kind: ValueKind::Quoted, value: q };
    assert(words(line) =~= seq![second]);
    lemma_words_concat(before, line);
    let text = before + line;
    assert(header + seq!['\n'] + line_head(key, b1, b2) + q =~= text);
    let ls = words(text);
    assert(ls =~= seq![Lexeme::Header { text: header }, second]);
    assert(package_at(ls, 0) is None);
    assert(dependencies_at(ls, 0) is None);
    assert(lines(ls, 2, false) == 0);
    assert(lines(ls, 1, false) == 1);
    let nodes = seq![
        NodeView::Section { header },
        NodeView::KeyValue { key, value: q },
    ];
    assert(section_at(ls, 0)->0.nodes =~= nodes);
    assert(construct_at(ls, 2) is None);
    assert(constructs(ls, 2).end == 2);
    assert(constructs(ls, 0).nodes =~= nodes);
    assert(constructs(ls, 0).end == 2);
    assert(trim_start(q) == q);
    assert(trim_end(q) == q);
    assert(q.subrange(1, n - 1) =~= v);
    assert(value_of(q) == v);
    let front = nodes.drop_last();
    assert(front =~= seq![NodeView::Section { header }]);
    assert(build(initial(), front.drop_last()) == initial());
    assert(build(initial(), front) == step(initial(), front.last()));
    assert(build(initial(), nodes) == step(build(initial(), front), nodes.last()));
}

/// Two dependency sections in a row: where the manifest has no section
/// `dependencies` yet, the first is stored under `dependencies` and the
/// second under `dev-dependencies`.
pub proof fn lemma_two_dependency_sections(
    nodes: Seq<NodeView>,
    first: Seq<(Seq<char>, Seq<char>)>,
    second: Seq<(Seq<char>, Seq<char>)>,
)
    requires
        !build(initial(), nodes).sections.dom().contains("dependencies"@),
    ensures
        ({
            let all = nodes.push(NodeView::Dependencies { entries: first }).push(
                NodeView::Dependencies { entries: second },
            );
            let sections = build(initial(), all).sections;
            &&& sections.dom().contains("dependencies"@)
            &&& sections.dom().contains("dev-dependencies"@)
            &&& sections["dependencies"@] == with_lines(Map::empty(), first)
            &&& sections["dev-dependencies"@] == with_lines(Map::empty(), second)
        }),
{
    let one = nodes.push(NodeView::Dependencies { entries: first });
    let all = one.push(NodeView::Dependencies { entries: second });
    assert(one.drop_last() =~= nodes);
    assert(all.drop_last() =~= one);
    reveal_strlit("dependencies");
    reveal_strlit("dev-dependencies");
    assert("dependencies"@.len() == 12);
    let start = build(initial(), nodes);
    let middle = step(start, one.last());
    assert(build(initial(), one) == middle);
}

/// The later line wins: of the lines that give a key a value, the last one
/// decides what the section holds for that key.
pub proof fn lemma_later_line_wins(
    section: Map<Seq<char>, Seq<char>>,
    lines: Seq<(Seq<char>, Seq<char>)>,
    i: int,
)
    requires
        0 <= i < lines.len(),
        forall|j: int| i < j < lines.len() ==> lines[j].0 != lines[i].0,
    ensures
        with_lines(section, lines).dom().contains(lines[i].0),
        with_lines(section, lines)[lines[i].0] == value_of(lines[i].1),
    decreases lines.len(),
{
    if i < lines.len() - 1 {
        let front = lines.drop_last();
        lemma_later_line_wins(section, front, i);
    }
}

/// Lines take no key away from a section.
pub proof fn lemma_lines_keep_keys(
    section: Map<Seq<char>, Seq<char>>,
    lines: Seq<(Seq<char>, Seq<char>)>,
    key: Seq<char>,
)
    requires
        section.dom().contains(key),
    ensures
        with_lines(section, lines).dom().contains(key),
    decreases lines.len(),
{
    if lines.len() > 0 {
        lemma_lines_keep_keys(section, lines.drop_last(), key);
    }
}

/// A package section holds `name` and `version`, whatever further lines it
/// has.
pub proof fn lemma_package_has_name_and_version(
    name: Seq<char>,
    version: Seq<char>,
    fields: Seq<(Seq<char>, Seq<char>)>,
)
    ensures
        package_section(name, version, fields).dom().contains("name"@),
        package_section(name, version, fields).dom().contains("version"@),
{
    let start = Map::<Seq<char>, Seq<char>>::empty().insert("name"@, value_of(name)).insert(
        "version"@,
        value_of(version),
    );
    lemma_lines_keep_keys(start, fields, "name"@);
    lemma_lines_keep_keys(start, fields, "version"@);
}

/// A text between double quotes.
pub open spec fn quoted(v: Seq<char>) -> Seq<char> {
    seq!['"'] + v + seq!['"']
}

/// The version rule matches a quoted text, and then the whole of it,
/// exactly when the text between the quotes is a semantic version.
pub proof fn lemma_version_literal(v: Seq<char>)
    requires
        forall|k: int| 0 <= k < v.len() ==> v[k] != '"' && v[k] != '\\',
    ensures
        rule_match(Rule::Version, quoted(v)) == if is_semver(v) {
            Some(Match { end: v.len() as int + 2, nodes: Seq::empty() })
        } else {
            None
        },
{
    let s = quoted(v);
    let n = s.len() as int;
    lemma_plain_string(s, 1);
    assert(s.subrange(1, n - 1) =~= v);
}

/// A version written out from a core, dotted pre-release identifiers and
/// dotted build identifiers is matched between quotes, and the whole of it.
pub proof fn lemma_valid_version_is_matched(
    core: Seq<char>,
    pre_release: Option<Seq<char>>,
    build: Option<Seq<char>>,
)
    requires
        is_version_core(core),
        pre_release matches Some(p) ==> is_dotted(p, false),
        build matches Some(b) ==> is_dotted(b, true),
    ensures
        rule_match(Rule::Version, quoted(version_text(core, pre_release, build))) == Some(
            Match {
                end: quoted(version_text(core, pre_release, build)).len() as int,
                nodes: Seq::empty(),
            },
        ),
{
    let v = version_text(core, pre_release, build);
    lemma_semver_accepts(core, pre_release, build);
    lemma_core_chars(core);
    let first = match pre_release {
        Some(p) => seq!['-'] + p,
        None => Seq::<char>::empty(),
    };
    assert forall|k: int| 0 <= k < v.len() implies v[k] != '"' && v[k] != '\\' by {
        if k < core.len() {
        } else if k < core.len() + first.len() {
            let p = pre_release->0;
            lemma_dotted_chars(p, false);
        } else {
            let b = build->0;
            lemma_dotted_chars(b, true);
        }
    }
    lemma_version_literal(v);
}

/// A quoted version whose major, minor or patch number has a superfluous
/// zero in front is not matched.
pub proof fn lemma_leading_zero_is_not_matched(
    major: Seq<char>,
    minor: Seq<char>,
    patch: Seq<char>,
    tail: Seq<char>,
)
    requires
        all_in(major, CharClass::Digit),
        all_in(minor, CharClass::Digit),
        all_in(patch, CharClass::Digit),
        has_leading_zero(major) || has_leading_zero(minor) || has_leading_zero(patch),
        tail.len() == 0 || tail[0] == '-' || tail[0] == '+',
        forall|k: int| 0 <= k < tail.len() ==> tail[k] != '"' && tail[k] != '\\',
    ensures
        rule_match(
            Rule::Version,
            quoted(major + seq!['.'] + minor + seq!['.'] + patch + tail),
        ) is None,
{
    let v = major + seq!['.'] + minor + seq!['.'] + patch + tail;
    lemma_leading_zero_rejected(major, minor, patch, tail);
    lemma_version_literal(v);
}

/// A quoted text that ends with a bare `+`, or with a bare `-` after a text
/// without `-` and `+`, is not matched as a version.
pub proof fn lemma_trailing_sign_is_not_matched(v: Seq<char>)
    requires
        forall|k: int| 0 <= k < v.len() ==> v[k] != '"' && v[k] != '\\',
    ensures
        rule_match(Rule::Version, quoted(v + seq!['+'])) is None,
        (forall|k: int| 0 <= k < v.len() ==> v[k] != '-' && v[k] != '+') ==> rule_match(
            Rule::Version,
            quoted(v + seq!['-']),
        ) is None,
{
    let plus = v + seq!['+'];
    lemma_trailing_plus_rejected(plus);
    lemma_version_literal(plus);
    if forall|k: int| 0 <= k < v.len() ==> v[k] != '-' && v[k] != '+' {
        let dash = v + seq!['-'];
        lemma_trailing_dash_rejected(v);
        lemma_version_literal(dash);
    }
}

} // verus!
