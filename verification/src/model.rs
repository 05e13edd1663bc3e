//! The parsed model: a manifest maps section names to sections, a section
//! maps keys to values. Both are kept as lists in which no name occurs
//! twice.

use vstd::prelude::*;
use vstd::string::StringExecFns;

verus! {

/// What a lookup or a parse can fail with.
#[derive(Debug)]
pub enum ManifestError {
    /// The text is not a manifest; the payload describes where it stops
    /// being one.
    ParseError(String),
    /// The manifest has no section of this name.
    MissingSection(String),
    /// The section (first) has no key of this name (second).
    MissingKey(String, String),
}

/// The mathematical value of a [`ManifestError`].
pub enum ErrorView {
    /// The place where the text stops being a manifest.
    ParseError(Seq<char>),
    /// The name of the section asked for.
    MissingSection(Seq<char>),
    /// The names of the section and of the key asked for.
    MissingKey(Seq<char>, Seq<char>),
}

impl View for ManifestError {
    type V = ErrorView;

    open spec fn view(&self) -> ErrorView {
        match self {
            ManifestError::ParseError(m) => ErrorView::ParseError(m@),
            ManifestError::MissingSection(s) => ErrorView::MissingSection(s@),
            ManifestError::MissingKey(s, k) => ErrorView::MissingKey(s@, k@),
        }
    }
}

/// The text that describes an error.
pub open spec fn error_text(e: ErrorView) -> Seq<char> {
    match e {
        ErrorView::ParseError(m) => "Parse error: "@ + m,
        ErrorView::MissingSection(s) => "Missing section: "@ + s,
        ErrorView::MissingKey(s, k) => "Missing key "@ + k + " in section "@ + s,
    }
}

impl ManifestError {
    /// The description of the error, for display.
    pub fn message(&self) -> (text: String)
        ensures
            text@ == error_text(self@),
    {
        match self {
            ManifestError::ParseError(m) => String::from_str("Parse error: ").concat(m.as_str()),
            ManifestError::MissingSection(s) => String::from_str("Missing section: ").concat(
                s.as_str(),
            ),
            ManifestError::MissingKey(s, k) => String::from_str("Missing key ").concat(
                k.as_str(),
            ).concat(" in section ").concat(s.as_str()),
        }
    }
}

/// No name occurs twice in `entries`.
pub open spec fn distinct<V>(entries: Seq<(String, V)>) -> bool {
    forall|i: int, j: int|
        0 <= i < j < entries.len() ==> (#[trigger] entries[i]).0@ != (#[trigger] entries[j]).0@
}

/// Some entry of `entries` has the name `k`.
pub open spec fn has_name<V>(entries: Seq<(String, V)>, k: Seq<char>) -> bool {
    exists|i: int| 0 <= i < entries.len() && (#[trigger] entries[i]).0@ == k
}

/// The map that a list of named entries stands for.
pub open spec fn keyed<V>(entries: Seq<(String, V)>) -> Map<Seq<char>, V> {
    Map::new(
        |k: Seq<char>| has_name(entries, k),
        |k: Seq<char>|
            entries[choose|i: int| 0 <= i < entries.len() && (#[trigger] entries[i]).0@ == k].1,
    )
}

/// `names` lists each member of `keys` once and nothing else.
pub open spec fn lists_once(names: Seq<&String>, keys: Set<Seq<char>>) -> bool {
    &&& forall|i: int, j: int|
        0 <= i < j < names.len() ==> (#[trigger] names[i])@ != (#[trigger] names[j])@
    &&& forall|i: int| 0 <= i < names.len() ==> keys.contains((#[trigger] names[i])@)
    &&& forall|k: Seq<char>|
        keys.contains(k) ==> exists|i: int| 0 <= i < names.len() && (#[trigger] names[i])@ == k
}

/// Replacing the entry at `i` by one of the same name stores the new value
/// under that name.
pub proof fn lemma_keyed_set<V>(entries: Seq<(String, V)>, i: int, name: String, value: V)
    requires
        distinct(entries),
        0 <= i < entries.len(),
        entries[i].0@ == name@,
    ensures
        distinct(entries.update(i, (name, value))),
        keyed(entries.update(i, (name, value))) == keyed(entries).insert(name@, value),
{
    let after = entries.update(i, (name, value));
    assert forall|k: Seq<char>| has_name(after, k) == (has_name(entries, k) || k == name@) by {
        if has_name(entries, k) {
            let j = choose|j: int| 0 <= j < entries.len() && (#[trigger] entries[j]).0@ == k;
            assert(after[j].0@ == k);
        }
    }
}

/// Appending an entry of a new name stores its value under that name.
pub proof fn lemma_keyed_push<V>(entries: Seq<(String, V)>, name: String, value: V)
    requires
        distinct(entries),
        !has_name(entries, name@),
    ensures
        distinct(entries.push((name, value))),
        keyed(entries.push((name, value))) == keyed(entries).insert(name@, value),
{
    let after = entries.push((name, value));
    let n = entries.len() as int;
    assert forall|k: Seq<char>| has_name(after, k) == (has_name(entries, k) || k == name@) by {
        if has_name(entries, k) {
            let j = choose|j: int| 0 <= j < entries.len() && (#[trigger] entries[j]).0@ == k;
            assert(after[j].0@ == k);
        }
        if k == name@ {
            assert(after[n].0@ == k);
        }
    }
}

/// The position of the entry named `name`.
fn position<V>(entries: &Vec<(String, V)>, name: &String) -> (r: Option<usize>)
    requires
        distinct(entries@),
    ensures
        match r {
            Some(i) => i < entries.len() && entries[i as int].0@ == name@ && keyed(
                entries@,
            ).dom().contains(name@) && keyed(entries@)[name@] == entries[i as int].1,
            None => !keyed(entries@).dom().contains(name@),
        },
{
    let mut i: usize = 0;
    while i < entries.len()
        invariant
            i <= entries.len(),
            distinct(entries@),
            forall|k: int| 0 <= k < i ==> (#[trigger] entries[k]).0@ != name@,
        decreases entries.len() - i,
    {
        if entries[i].0 == *name {
            return Some(i);
        }
        i += 1;
    }
    None
}

/// The names of the entries, in the order of the list.
fn names_of<V>(entries: &Vec<(String, V)>) -> (names: Vec<&String>)
    requires
        distinct(entries@),
    ensures
        lists_once(names@, keyed(entries@).dom()),
{
    let mut names: Vec<&String> = Vec::new();
    let mut i: usize = 0;
    while i < entries.len()
        invariant
            i <= entries.len(),
            names.len() == i,
            forall|k: int| 0 <= k < i ==> (#[trigger] names[k])@ == entries[k].0@,
        decreases entries.len() - i,
    {
        names.push(&entries[i].0);
        i += 1;
    }
    proof {
        assert forall|k: Seq<char>| keyed(entries@).dom().contains(k) implies exists|i: int|
            0 <= i < names.len() && (#[trigger] names[i])@ == k by {
            let j = choose|j: int| 0 <= j < entries.len() && (#[trigger] entries[j]).0@ == k;
            assert(names[j]@ == k);
        }
    }
    names
}

/// One section of a manifest: a map from keys to values.
#[derive(Debug)]
pub struct Section {
    entries: Vec<(String, String)>,
}

impl View for Section {
    type V = Map<Seq<char>, Seq<char>>;

    closed spec fn view(&self) -> Map<Seq<char>, Seq<char>> {
        keyed(self.entries@).map_values(|v: String| v@)
    }
}

impl Section {
    /// No key occurs twice.
    #[verifier::type_invariant]
    spec fn well_formed(self) -> bool {
        distinct(self.entries@)
    }

    /// A section without entries.
    pub fn new() -> (section: Section)
        ensures
            section@ == Map::<Seq<char>, Seq<char>>::empty(),
    {
        let section = Section { entries: Vec::new() };
        section
    }

    /// The value stored under `key`, or `None` where the section has no
    /// such key.
    pub fn get(&self, key: &str) -> (r: Option<&String>)
        ensures
            match r {
                Some(v) => self@.dom().contains(key@) && v@ == self@[key@],
                None => !self@.dom().contains(key@),
            },
    {
        proof {
            use_type_invariant(self);
        }
        let owned = key.to_owned();
        match position(&self.entries, &owned) {
            Some(i) => Some(&self.entries[i].1),
            None => None,
        }
    }

    /// Whether the section has `key`.
    pub fn contains_key(&self, key: &str) -> (b: bool)
        ensures
            b == self@.dom().contains(key@),
    {
        self.get(key).is_some()
    }

    /// Stores `value` under `key`, in place of what was stored there.
    pub fn insert(&mut self, key: String, value: String)
        ensures
            final(self)@ == old(self)@.insert(key@, value@),
    {
        proof {
            use_type_invariant(&*self);
        }
        let ghost before = self.entries@;
        let found = position(&self.entries, &key);
        let mut taken = Section { entries: Vec::new() };
        std::mem::swap(self, &mut taken);
        let mut entries = taken.entries;
        proof {
            match found {
                Some(i) => lemma_keyed_set(before, i as int, key, value),
                None => lemma_keyed_push(before, key, value),
            }
        }
        match found {
            Some(i) => entries.set(i, (key, value)),
            None => entries.push((key, value)),
        }
        *self = Section { entries };
    }

    /// The keys of the section, each once.
    pub fn keys(&self) -> (names: Vec<&String>)
        ensures
            lists_once(names@, self@.dom()),
    {
        proof {
            use_type_invariant(self);
        }
        names_of(&self.entries)
    }
}

/// A parsed manifest: a map from section names to sections.
#[derive(Debug)]
pub struct Manifest {
    sections: Vec<(String, Section)>,
}

impl View for Manifest {
    type V = Map<Seq<char>, Map<Seq<char>, Seq<char>>>;

    closed spec fn view(&self) -> Map<Seq<char>, Map<Seq<char>, Seq<char>>> {
        keyed(self.sections@).map_values(|s: Section| s@)
    }
}

impl Default for Manifest {
    /// A manifest without sections.
    fn default() -> (manifest: Manifest)
        ensures
            manifest@ == Map::<Seq<char>, Map<Seq<char>, Seq<char>>>::empty(),
    {
        Manifest::new()
    }
}

impl Manifest {
    /// No section name occurs twice.
    #[verifier::type_invariant]
    spec fn well_formed(self) -> bool {
        distinct(self.sections@)
    }

    /// A manifest without sections.
    pub fn new() -> (manifest: Manifest)
        ensures
            manifest@ == Map::<Seq<char>, Map<Seq<char>, Seq<char>>>::empty(),
    {
        let manifest = Manifest { sections: Vec::new() };
        manifest
    }

    /// The names of the manifest's sections, each once.
    pub fn sections(&self) -> (names: Vec<&String>)
        ensures
            lists_once(names@, self@.dom()),
    {
        proof {
            use_type_invariant(self);
        }
        names_of(&self.sections)
    }

    /// Whether the manifest has a section named `section`.
    pub fn contains_section(&self, section: &str) -> (b: bool)
        ensures
            b == self@.dom().contains(section@),
    {
        self.get_by_section(section).is_ok()
    }

    /// The section named `section`.
    pub fn get_by_section(&self, section: &str) -> (r: Result<&Section, ManifestError>)
        ensures
            match r {
                Ok(found) => self@.dom().contains(section@) && found@ == self@[section@],
                Err(e) => !self@.dom().contains(section@) && e@ == ErrorView::MissingSection(
                    section@,
                ),
            },
    {
        proof {
            use_type_invariant(self);
        }
        let owned = section.to_owned();
        match position(&self.sections, &owned) {
            Some(i) => Ok(&self.sections[i].1),
            None => Err(ManifestError::MissingSection(owned)),
        }
    }

    /// The value stored under `key` in the section named `section`.
    pub fn get_by_key(&self, section: &str, key: &str) -> (r: Result<&str, ManifestError>)
        ensures
            match r {
                Ok(value) => self@.dom().contains(section@) && self@[section@].dom().contains(
                    key@,
                ) && value@ == self@[section@][key@],
                Err(e) => if self@.dom().contains(section@) {
                    !self@[section@].dom().contains(key@) && e@ == ErrorView::MissingKey(
                        section@,
                        key@,
                    )
                } else {
                    e@ == ErrorView::MissingSection(section@)
                },
            },
    {
        match self.get_by_section(section) {
            Ok(found) => match found.get(key) {
                Some(value) => Ok(value.as_str()),
                None => Err(ManifestError::MissingKey(section.to_owned(), key.to_owned())),
            },
            Err(e) => Err(e),
        }
    }

    /// Stores `section` under `name`, in place of what was stored there.
    pub(crate) fn put_section(&mut self, name: String, section: Section)
        ensures
            final(self)@ == old(self)@.insert(name@, section@),
    {
        proof {
            use_type_invariant(&*self);
        }
        let ghost before = self.sections@;
        let found = position(&self.sections, &name);
        let mut taken = Manifest { sections: Vec::new() };
        std::mem::swap(self, &mut taken);
        let mut sections = taken.sections;
        proof {
            match found {
                Some(i) => lemma_keyed_set(before, i as int, name, section),
                None => lemma_keyed_push(before, name, section),
            }
        }
        match found {
            Some(i) => sections.set(i, (name, section)),
            None => sections.push((name, section)),
        }
        *self = Manifest { sections };
    }

    /// Stores `value` under `key` in the section named `section`, where the
    /// manifest has that section, and does nothing where it has not.
    pub(crate) fn put_value(&mut self, section: &str, key: String, value: String)
        ensures
            final(self)@ == if old(self)@.dom().contains(section@) {
                old(self)@.insert(section@, old(self)@[section@].insert(key@, value@))
            } else {
                old(self)@
            },
    {
        proof {
            use_type_invariant(&*self);
        }
        let ghost before = self.sections@;
        let owned = section.to_owned();
        let found = position(&self.sections, &owned);
        match found {
            Some(i) => {
                let mut taken = Manifest { sections: Vec::new() };
                std::mem::swap(self, &mut taken);
                let mut sections = taken.sections;
                sections[i].1.insert(key, value);
                proof {
                    let after = sections@;
                    lemma_keyed_set(before, i as int, after[i as int].0, after[i as int].1);
                }
                *self = Manifest { sections };
                assert(self@ =~= old(self)@.insert(
                    section@,
                    old(self)@[section@].insert(key@, value@),
                ));
            },
            None => {},
        }
    }
}

} // verus!
