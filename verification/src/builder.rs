//! The model builder: folds the nodes of a syntax tree, in the order of the
//! text, into a manifest.

use crate::chars::{is_space, space, text_of, to_chars};
use crate::model::{ErrorView, Manifest, ManifestError, Section};
use crate::syntax::{
    failure_text, header_name, nodes_view, pairs_view, rule_match, ManifestParser, Node, NodeView,
    Rule,
};
use vstd::prelude::*;

verus! {

/// The sections of a manifest, by name.
pub type Model = Map<Seq<char>, Map<Seq<char>, Seq<char>>>;

/// `s` without the whitespace at its start.
pub open spec fn trim_start(s: Seq<char>) -> Seq<char>
    decreases s.len(),
{
    if s.len() > 0 && is_space(s[0]) {
        trim_start(s.skip(1))
    } else {
        s
    }
}

/// `s` without the whitespace at its end.
pub open spec fn trim_end(s: Seq<char>) -> Seq<char>
    decreases s.len(),
{
    if s.len() > 0 && is_space(s.last()) {
        trim_end(s.drop_last())
    } else {
        s
    }
}

/// `s` without the whitespace at its start and at its end.
pub open spec fn trim(s: Seq<char>) -> Seq<char> {
    trim_end(trim_start(s))
}

/// `s` without the quotes around it: where `s` starts and ends with a
/// double quote, what stands between the two; else `s` itself.
pub open spec fn unquote(s: Seq<char>) -> Seq<char> {
    if s.len() >= 2 && s[0] == '"' && s[s.len() - 1] == '"' {
        s.subrange(1, s.len() - 1)
    } else {
        s
    }
}

/// The value that the raw text `raw` stands for: `raw` without the
/// whitespace around it and then without one pair of quotes around it.
/// What stands between the quotes is kept as it is, escapes included.
pub open spec fn value_of(raw: Seq<char>) -> Seq<char> {
    unquote(trim(raw))
}

/// `section` after the lines `lines` were stored in it one by one, each
/// with the value that its raw text stands for. A later line overwrites an
/// earlier one of the same key.
pub open spec fn with_lines(
    section: Map<Seq<char>, Seq<char>>,
    lines: Seq<(Seq<char>, Seq<char>)>,
) -> Map<Seq<char>, Seq<char>>
    decreases lines.len(),
{
    if lines.len() == 0 {
        section
    } else {
        with_lines(section, lines.drop_last()).insert(lines.last().0, value_of(lines.last().1))
    }
}

/// What the builder holds between two nodes: the name of the generic
/// section that lines go to, if any, and the sections built so far.
pub struct BuildState {
    pub current: Option<Seq<char>>,
    pub sections: Model,
}

/// The state before the first node.
pub open spec fn initial() -> BuildState {
    BuildState { current: None, sections: Map::empty() }
}

/// The section that a package node stands for.
pub open spec fn package_section(
    name: Seq<char>,
    version: Seq<char>,
    fields: Seq<(Seq<char>, Seq<char>)>,
) -> Map<Seq<char>, Seq<char>> {
    with_lines(
        Map::empty().insert("name"@, value_of(name)).insert("version"@, value_of(version)),
        fields,
    )
}

/// The name under which the next dependency section is stored.
pub open spec fn dependencies_target(sections: Model) -> Seq<char> {
    if sections.dom().contains("dependencies"@) {
        "dev-dependencies"@
    } else {
        "dependencies"@
    }
}

/// The state after `node`.
///
/// A header makes its section the current one and creates it, empty, where
/// the manifest has none of that name. A line is stored in the current
/// section; with no current section it is dropped. A package node replaces
/// the section `package`. A dependency node replaces the section
/// `dependencies`, or `dev-dependencies` where `dependencies` exists.
pub open spec fn step(st: BuildState, node: NodeView) -> BuildState {
    match node {
        NodeView::Section { header } => {
            let name = header_name(header);
            BuildState {
                current: Some(name),
                sections: if st.sections.dom().contains(name) {
                    st.sections
                } else {
                    st.sections.insert(name, Map::empty())
                },
            }
        },
        NodeView::KeyValue { key, value } => BuildState {
            current: st.current,
            sections: match st.current {
                Some(name) => if st.sections.dom().contains(name) {
                    st.sections.insert(name, st.sections[name].insert(key, value_of(value)))
                } else {
                    st.sections
                },
                None => st.sections,
            },
        },
        NodeView::Package { name, version, fields } => BuildState {
            current: st.current,
            sections: st.sections.insert("package"@, package_section(name, version, fields)),
        },
        NodeView::Dependencies { entries } => BuildState {
            current: st.current,
            sections: st.sections.insert(
                dependencies_target(st.sections),
                with_lines(Map::empty(), entries),
            ),
        },
    }
}

/// The state after the nodes `nodes`, taken from left to right.
pub open spec fn build(st: BuildState, nodes: Seq<NodeView>) -> BuildState
    decreases nodes.len(),
{
    if nodes.len() == 0 {
        st
    } else {
        step(build(st, nodes.drop_last()), nodes.last())
    }
}

/// The model of the manifest `text`, or `None` where `text` is no manifest.
pub open spec fn manifest_of(text: Seq<char>) -> Option<Model> {
    match rule_match(Rule::Manifest, text) {
        Some(m) => Some(build(initial(), m.nodes).sections),
        None => None,
    }
}

/// Whether `result` is what parsing `text` gives: the model of `text`, or
/// for a text that is no manifest the error that tells where it stops being
/// one.
pub open spec fn parses_to(text: Seq<char>, result: Result<Manifest, ManifestError>) -> bool {
    match result {
        Ok(manifest) => manifest_of(text) == Some(manifest@),
        Err(e) => manifest_of(text) is None && e@ == ErrorView::ParseError(
            failure_text(Rule::Manifest, text),
        ),
    }
}

/// The range of `chars` that is left when the whitespace at its start and
/// at its end is taken away.
fn trim_bounds(chars: &Vec<char>) -> (r: (usize, usize))
    ensures
        r.0 <= r.1 <= chars.len(),
        chars@.subrange(r.0 as int, r.1 as int) == trim(chars@),
{
    let mut lo: usize = 0;
    assert(chars@.skip(0) == chars@);
    while lo < chars.len() && space(chars[lo])
        invariant
            lo <= chars.len(),
            trim_start(chars@.skip(lo as int)) == trim_start(chars@),
        decreases chars.len() - lo,
    {
        assert(chars@.skip(lo as int).skip(1) == chars@.skip(lo + 1));
        lo += 1;
    }
    let mut hi: usize = chars.len();
    while hi > lo && space(chars[hi - 1])
        invariant
            lo <= hi <= chars.len(),
            trim_end(chars@.subrange(lo as int, hi as int)) == trim(chars@),
        decreases hi - lo,
    {
        assert(chars@.subrange(lo as int, hi as int).drop_last() == chars@.subrange(
            lo as int,
            hi - 1,
        ));
        hi -= 1;
    }
    (lo, hi)
}

/// The value that the raw text `raw` stands for.
pub fn read_value(raw: &str) -> (out: String)
    ensures
        out@ == value_of(raw@),
{
    let chars = to_chars(raw);
    let (lo, hi) = trim_bounds(&chars);
    if hi - lo >= 2 && chars[lo] == '"' && chars[hi - 1] == '"' {
        text_of(&chars, lo + 1, hi - 1)
    } else {
        text_of(&chars, lo, hi)
    }
}

/// The name in the section header `header`: the header without its
/// brackets.
pub fn parse_section(header: &str) -> (name: String)
    ensures
        name@ == header_name(header@),
{
    let chars = to_chars(header);
    let n = chars.len();
    if n >= 4 && chars[0] == '[' && chars[1] == '[' && chars[n - 2] == ']' && chars[n - 1] == ']' {
        text_of(&chars, 2, n - 2)
    } else if n >= 2 && chars[0] == '[' && chars[n - 1] == ']' {
        text_of(&chars, 1, n - 1)
    } else {
        header.to_owned()
    }
}

/// Stores the lines `lines` in `section` one by one, each with the value
/// that its raw text stands for.
pub fn store_lines(section: &mut Section, lines: &Vec<(String, String)>)
    ensures
        final(section)@ == with_lines(old(section)@, pairs_view(lines@)),
{
    let mut i: usize = 0;
    while i < lines.len()
        invariant
            i <= lines.len(),
            section@ == with_lines(old(section)@, pairs_view(lines@).take(i as int)),
        decreases lines.len() - i,
    {
        let key = lines[i].0.clone();
        let value = read_value(lines[i].1.as_str());
        proof {
            let all = pairs_view(lines@);
            assert(all.take(i + 1).drop_last() == all.take(i as int));
        }
        section.insert(key, value);
        i += 1;
    }
    proof {
        assert(pairs_view(lines@).take(lines.len() as int) == pairs_view(lines@));
    }
}

/// Stores the line `key = value` in the section named by `current_section`,
/// with the value that the raw text `value` stands for. Does nothing where
/// `current_section` is `None` or names no section of `manifest`.
pub(crate) fn parse_key_value(
    key: &str,
    value: &str,
    manifest: &mut Manifest,
    current_section: &Option<String>,
)
    ensures
        final(manifest)@ == step(
            BuildState {
                current: match current_section {
                    Some(name) => Some(name@),
                    None => None,
                },
                sections: old(manifest)@,
            },
            NodeView::KeyValue { key: key@, value: value@ },
        ).sections,
{
    match current_section {
        Some(name) => {
            manifest.put_value(name.as_str(), key.to_owned(), read_value(value));
        },
        None => {},
    }
}

/// Replaces the section `package` of `manifest` by one that holds `name`,
/// `version` and the lines `fields`, each with the value that its raw text
/// stands for.
pub(crate) fn parse_package_section(
    name: &str,
    version: &str,
    fields: &Vec<(String, String)>,
    manifest: &mut Manifest,
)
    ensures
        final(manifest)@ == old(manifest)@.insert(
            "package"@,
            package_section(name@, version@, pairs_view(fields@)),
        ),
{
    let mut section = Section::new();
    section.insert("name".to_owned(), read_value(name));
    section.insert("version".to_owned(), read_value(version));
    store_lines(&mut section, fields);
    manifest.put_section("package".to_owned(), section);
}

/// Replaces a section of `manifest` by one that holds the lines `entries`,
/// each with the value that its raw text stands for: the section
/// `dependencies`, or `dev-dependencies` where `manifest` has
/// `dependencies` already.
pub(crate) fn parse_dependencies_section(entries: &Vec<(String, String)>, manifest: &mut Manifest)
    ensures
        final(manifest)@ == old(manifest)@.insert(
            dependencies_target(old(manifest)@),
            with_lines(Map::empty(), pairs_view(entries@)),
        ),
{
    let mut section = Section::new();
    store_lines(&mut section, entries);
    let target = if manifest.contains_section("dependencies") {
        "dev-dependencies"
    } else {
        "dependencies"
    };
    manifest.put_section(target.to_owned(), section);
}

/// The builder: the current section and the manifest built so far.
#[derive(Debug)]
pub struct Builder {
    current: Option<String>,
    manifest: Manifest,
}

impl View for Builder {
    type V = BuildState;

    closed spec fn view(&self) -> BuildState {
        BuildState {
            current: match self.current {
                Some(name) => Some(name@),
                None => None,
            },
            sections: self.manifest@,
        }
    }
}

impl Builder {
    /// A builder that has seen no node.
    pub fn new() -> (builder: Builder)
        ensures
            builder@ == initial(),
    {
        Builder { current: None, manifest: Manifest::new() }
    }

    /// Takes in one node.
    pub fn apply(&mut self, node: &Node)
        ensures
            final(self)@ == step(old(self)@, node@),
    {
        match node {
            Node::Section { header } => {
                let name = parse_section(header.as_str());
                if !self.manifest.contains_section(name.as_str()) {
                    self.manifest.put_section(name.clone(), Section::new());
                }
                self.current = Some(name);
            },
            Node::KeyValue { key, value } => {
                parse_key_value(key.as_str(), value.as_str(), &mut self.manifest, &self.current);
            },
            Node::Package { name, version, fields } => {
                parse_package_section(name.as_str(), version.as_str(), fields, &mut self.manifest);
            },
            Node::Dependencies { entries } => {
                parse_dependencies_section(entries, &mut self.manifest);
            },
        }
    }

    /// The manifest built from the nodes taken in.
    pub fn finish(self) -> (manifest: Manifest)
        ensures
            manifest@ == self@.sections,
    {
        self.manifest
    }
}

impl Manifest {
    /// Parses the manifest `input`.
    ///
    /// Returns the model of `input` where it is a manifest, and else a parse
    /// error that tells where it stops being one.
    pub fn parse(input: &str) -> (r: Result<Manifest, ManifestError>)
        ensures
            parses_to(input@, r),
    {
        let pair = match ManifestParser::parse(Rule::Manifest, input) {
            Ok(pair) => pair,
            Err(e) => {
                return Err(e);
            },
        };
        let nodes = pair.into_inner();
        let mut builder = Builder::new();
        let mut i: usize = 0;
        while i < nodes.len()
            invariant
                i <= nodes.len(),
                builder@ == build(initial(), nodes_view(nodes@).take(i as int)),
            decreases nodes.len() - i,
        {
            proof {
                let all = nodes_view(nodes@);
                assert(all.take(i + 1).drop_last() == all.take(i as int));
            }
            builder.apply(&nodes[i]);
            i += 1;
        }
        proof {
            assert(nodes_view(nodes@).take(nodes.len() as int) == nodes_view(nodes@));
        }
        Ok(builder.finish())
    }
}

} // verus!
