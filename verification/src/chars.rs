//! Characters, character classes and the conversions between text and
//! indexable character buffers.

use vstd::prelude::*;

verus! {

/// `String::push` of the standard library, taken on trust: after the call
/// the string holds what it held before, followed by `c`.
pub assume_specification[ String::push ](s: &mut String, c: char)
    ensures
        final(s)@ == old(s)@.push(c),
;

/// Whitespace: space, tab, carriage return and line feed.
pub open spec fn is_space(c: char) -> bool {
    c == ' ' || c == '\t' || c == '\r' || c == '\n'
}

/// Whitespace inside a line: space and tab.
pub open spec fn is_blank(c: char) -> bool {
    c == ' ' || c == '\t'
}

/// An ASCII decimal digit.
pub open spec fn is_digit(c: char) -> bool {
    '0' <= c <= '9'
}

/// An ASCII letter.
pub open spec fn is_letter(c: char) -> bool {
    ('a' <= c <= 'z') || ('A' <= c <= 'Z')
}

/// A character of a section name or of a key: letter, digit, `-` or `_`.
pub open spec fn is_name_char(c: char) -> bool {
    is_letter(c) || is_digit(c) || c == '-' || c == '_'
}

/// A character of a bare word: a name character or `.`.
pub open spec fn is_word_char(c: char) -> bool {
    is_name_char(c) || c == '.'
}

/// A character of a version identifier: letter, digit or `-`.
pub open spec fn is_ident_char(c: char) -> bool {
    is_letter(c) || is_digit(c) || c == '-'
}

/// The character classes that the grammar tests runs of characters against.
#[derive(Clone, Copy, PartialEq, Eq, Debug)]
pub enum CharClass {
    /// Letters, digits, `-` and `_`.
    Name,
    /// Name characters and `.`.
    Word,
    /// Decimal digits.
    Digit,
    /// Letters, digits and `-`.
    Ident,
    /// Space and tab.
    Blank,
}

impl CharClass {
    /// Whether `c` belongs to the class.
    pub open spec fn admits(self, c: char) -> bool {
        match self {
            CharClass::Name => is_name_char(c),
            CharClass::Word => is_word_char(c),
            CharClass::Digit => is_digit(c),
            CharClass::Ident => is_ident_char(c),
            CharClass::Blank => is_blank(c),
        }
    }

    /// Whether `c` belongs to the class.
    pub fn accepts(self, c: char) -> (b: bool)
        ensures
            b == self.admits(c),
    {
        let digit = '0' <= c && c <= '9';
        let letter = ('a' <= c && c <= 'z') || ('A' <= c && c <= 'Z');
        match self {
            CharClass::Name => letter || digit || c == '-' || c == '_',
            CharClass::Word => letter || digit || c == '-' || c == '_' || c == '.',
            CharClass::Digit => digit,
            CharClass::Ident => letter || digit || c == '-',
            CharClass::Blank => c == ' ' || c == '\t',
        }
    }
}

/// Whether every character of `s` belongs to `class`.
pub open spec fn all_in(s: Seq<char>, class: CharClass) -> bool {
    forall|i: int| 0 <= i < s.len() ==> class.admits(#[trigger] s[i])
}

/// Whether `c` is whitespace.
pub fn space(c: char) -> (b: bool)
    ensures
        b == is_space(c),
{
    c == ' ' || c == '\t' || c == '\r' || c == '\n'
}

/// The characters of `text`, in order.
pub fn to_chars(text: &str) -> (out: Vec<char>)
    ensures
        out@ == text@,
{
    let mut out: Vec<char> = Vec::new();
    for c in it: text.chars()
        invariant
            out@ == it.seq().take(it.index()),
            it.seq() == text@,
    {
        out.push(c);
    }
    out
}

/// The text made of the characters `chars[lo..hi]`.
pub fn text_of(chars: &Vec<char>, lo: usize, hi: usize) -> (out: String)
    requires
        lo <= hi <= chars.len(),
    ensures
        out@ == chars@.subrange(lo as int, hi as int),
{
    let mut out = String::new();
    let mut i: usize = lo;
    while i < hi
        invariant
            lo <= i <= hi <= chars.len(),
            out@ == chars@.subrange(lo as int, i as int),
        decreases hi - i,
    {
        out.push(chars[i]);
        i += 1;
    }
    out
}

/// Whether the characters `chars[lo..hi]` spell `word`.
pub fn spells(chars: &Vec<char>, lo: usize, hi: usize, word: &str) -> (b: bool)
    requires
        lo <= hi <= chars.len(),
    ensures
        b == (chars@.subrange(lo as int, hi as int) == word@),
{
    let mut i: usize = lo;
    for c in it: word.chars()
        invariant
            it.seq() == word@,
            lo <= hi <= chars.len(),
            i == lo + it.index(),
            i <= hi,
            chars@.subrange(lo as int, i as int) == word@.take(it.index()),
    {
        if i >= hi || chars[i] != c {
            return false;
        }
        i += 1;
    }
    proof {
        assert(word@.take(word@.len() as int) == word@);
    }
    i == hi
}

} // verus!
