//! Where in a text an offset lies, by line and column, and how that place
//! is written out.

use vstd::prelude::*;
use vstd::string::StringExecFns;

verus! {

/// The character that stands for the digit `d`.
pub open spec fn digit_char(d: int) -> char {
    if d == 0 {
        '0'
    } else if d == 1 {
        '1'
    } else if d == 2 {
        '2'
    } else if d == 3 {
        '3'
    } else if d == 4 {
        '4'
    } else if d == 5 {
        '5'
    } else if d == 6 {
        '6'
    } else if d == 7 {
        '7'
    } else if d == 8 {
        '8'
    } else {
        '9'
    }
}

/// The decimal digits of `n`, without leading zeros.
pub open spec fn decimal(n: nat) -> Seq<char>
    decreases n,
{
    if n < 10 {
        seq![digit_char(n as int)]
    } else {
        decimal(n / 10).push(digit_char((n % 10) as int))
    }
}

/// The number of the line that holds the character at `offset`, from 1:
/// one more than the number of line feeds before `offset`.
pub open spec fn line_of(s: Seq<char>, offset: int) -> nat
    decreases offset,
{
    if offset <= 0 {
        1
    } else if offset <= s.len() && s[offset - 1] == '\n' {
        line_of(s, offset - 1) + 1
    } else {
        line_of(s, offset - 1)
    }
}

/// The column of the character at `offset` in its line, from 1.
pub open spec fn column_of(s: Seq<char>, offset: int) -> nat
    decreases offset,
{
    if offset <= 0 || (offset <= s.len() && s[offset - 1] == '\n') {
        1
    } else {
        column_of(s, offset - 1) + 1
    }
}

/// The place of `offset` in `s`, written out.
pub open spec fn place_text(s: Seq<char>, offset: int) -> Seq<char> {
    "line "@ + decimal(line_of(s, offset)) + ", column "@ + decimal(column_of(s, offset))
}

/// The character that stands for the digit `d`.
fn digit(d: u128) -> (c: char)
    requires
        d < 10,
    ensures
        c == digit_char(d as int),
{
    if d == 0 {
        '0'
    } else if d == 1 {
        '1'
    } else if d == 2 {
        '2'
    } else if d == 3 {
        '3'
    } else if d == 4 {
        '4'
    } else if d == 5 {
        '5'
    } else if d == 6 {
        '6'
    } else if d == 7 {
        '7'
    } else if d == 8 {
        '8'
    } else {
        '9'
    }
}

/// The decimal digits of `n`.
pub fn render(n: u128) -> (out: String)
    ensures
        out@ == decimal(n as nat),
    decreases n,
{
    if n < 10 {
        let mut out = String::new();
        out.push(digit(n));
        out
    } else {
        let mut out = render(n / 10);
        out.push(digit(n % 10));
        out
    }
}

/// The place of `offset` in `chars`, written out.
pub fn describe(chars: &Vec<char>, offset: usize) -> (out: String)
    requires
        offset <= chars.len(),
    ensures
        out@ == place_text(chars@, offset as int),
{
    let mut line: u128 = 1;
    let mut column: u128 = 1;
    let mut i: usize = 0;
    while i < offset
        invariant
            i <= offset <= chars.len(),
            line == line_of(chars@, i as int),
            column == column_of(chars@, i as int),
            line <= i + 1,
            column <= i + 1,
        decreases offset - i,
    {
        if chars[i] == '\n' {
            line += 1;
            column = 1;
        } else {
            column += 1;
        }
        i += 1;
    }
    let mut out = String::from_str("line ");
    out.append(render(line).as_str());
    out.append(", column ");
    out.append(render(column).as_str());
    out
}

} // verus!
