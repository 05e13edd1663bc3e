//! Semantic version literals: `MAJOR.MINOR.PATCH`, then an optional
//! pre-release after `-` and optional build metadata after `+`.

use crate::chars::{all_in, is_digit, is_ident_char, CharClass};
use vstd::prelude::*;

verus! {

/// The index of the first `c` in `s`, or `s.len()` where `s` holds none.
pub open spec fn first_index(s: Seq<char>, c: char) -> int
    decreases s.len(),
{
    if s.len() == 0 || s[0] == c {
        0
    } else {
        1 + first_index(s.skip(1), c)
    }
}

/// A sequence of digits does not start with a superfluous zero.
pub open spec fn no_leading_zero(s: Seq<char>) -> bool {
    s.len() == 1 || s[0] != '0'
}

/// A numeric identifier: `0`, or digits that do not start with `0`.
pub open spec fn is_numeric(s: Seq<char>) -> bool {
    s.len() > 0 && all_in(s, CharClass::Digit) && no_leading_zero(s)
}

/// A pre-release identifier: letters, digits and `-`, at least one of them;
/// one made of digits alone is a numeric identifier.
pub open spec fn is_pre_release_ident(s: Seq<char>) -> bool {
    s.len() > 0 && all_in(s, CharClass::Ident) && (all_in(s, CharClass::Digit)
        ==> no_leading_zero(s))
}

/// A build identifier: letters, digits and `-`, at least one of them.
pub open spec fn is_build_ident(s: Seq<char>) -> bool {
    s.len() > 0 && all_in(s, CharClass::Ident)
}

/// An identifier of the build metadata (`build`) or of the pre-release.
pub open spec fn is_ident(s: Seq<char>, build: bool) -> bool {
    if build {
        is_build_ident(s)
    } else {
        is_pre_release_ident(s)
    }
}

/// One or more identifiers separated by single dots.
pub open spec fn is_dotted(s: Seq<char>, build: bool) -> bool
    decreases s.len(),
{
    let d = first_index(s, '.');
    if d >= s.len() {
        is_ident(s, build)
    } else {
        proof {
            lemma_first_index_bounds(s, '.');
        }
        is_ident(s.take(d), build) && is_dotted(s.skip(d + 1), build)
    }
}

/// Three numeric identifiers separated by single dots.
pub open spec fn is_version_core(s: Seq<char>) -> bool {
    let d1 = first_index(s, '.');
    let rest = s.skip(d1 + 1);
    let d2 = first_index(rest, '.');
    &&& d1 < s.len()
    &&& d2 < rest.len()
    &&& is_numeric(s.take(d1))
    &&& is_numeric(rest.take(d2))
    &&& is_numeric(rest.skip(d2 + 1))
}

/// A semantic version. The build metadata is what follows the first `+`;
/// before it, the pre-release is what follows the first `-`; before that
/// stands the core.
pub open spec fn is_semver(s: Seq<char>) -> bool {
    let plus = first_index(s, '+');
    let main = s.take(plus);
    let dash = first_index(main, '-');
    &&& is_version_core(main.take(dash))
    &&& dash < main.len() ==> is_dotted(main.skip(dash + 1), false)
    &&& plus < s.len() ==> is_dotted(s.skip(plus + 1), true)
}

/// `first_index` is the one position that holds `c` with no `c` before it.
pub proof fn lemma_first_index_is(s: Seq<char>, c: char, r: int)
    requires
        0 <= r <= s.len(),
        forall|k: int| 0 <= k < r ==> s[k] != c,
        r < s.len() ==> s[r] == c,
    ensures
        first_index(s, c) == r,
    decreases s.len(),
{
    if s.len() == 0 || s[0] == c {
    } else {
        let t = s.skip(1);
        lemma_first_index_is(t, c, r - 1);
    }
}

/// `first_index` lies inside the text or at its end, holds `c` where it
/// lies inside, and has no `c` before it.
pub proof fn lemma_first_index_bounds(s: Seq<char>, c: char)
    ensures
        0 <= first_index(s, c) <= s.len(),
        forall|k: int| 0 <= k < first_index(s, c) ==> s[k] != c,
        first_index(s, c) < s.len() ==> s[first_index(s, c)] == c,
    decreases s.len(),
{
    if s.len() == 0 || s[0] == c {
    } else {
        let t = s.skip(1);
        lemma_first_index_bounds(t, c);
        assert forall|k: int| 0 <= k < first_index(s, c) implies s[k] != c by {
            if k > 0 {
                assert(t[k - 1] == s[k]);
            }
        }
    }
}

/// The first position in `lo..hi` that holds `c`, or `hi`.
pub fn find_char(chars: &Vec<char>, lo: usize, hi: usize, c: char) -> (r: usize)
    requires
        lo <= hi <= chars.len(),
    ensures
        lo <= r <= hi,
        r - lo == first_index(chars@.subrange(lo as int, hi as int), c),
{
    let mut r: usize = lo;
    while r < hi && chars[r] != c
        invariant
            lo <= r <= hi <= chars.len(),
            forall|k: int| lo <= k < r ==> chars@[k] != c,
        decreases hi - r,
    {
        r += 1;
    }
    proof {
        lemma_first_index_is(chars@.subrange(lo as int, hi as int), c, r - lo);
    }
    r
}

/// Whether every character in `lo..hi` belongs to `class`.
pub fn all_chars(chars: &Vec<char>, lo: usize, hi: usize, class: CharClass) -> (b: bool)
    requires
        lo <= hi <= chars.len(),
    ensures
        b == all_in(chars@.subrange(lo as int, hi as int), class),
{
    let mut i: usize = lo;
    while i < hi
        invariant
            lo <= i <= hi <= chars.len(),
            forall|k: int| lo <= k < i ==> class.admits(chars@[k]),
        decreases hi - i,
    {
        if !class.accepts(chars[i]) {
            proof {
                let sub = chars@.subrange(lo as int, hi as int);
                assert(!class.admits(sub[i - lo]));
            }
            return false;
        }
        i += 1;
    }
    true
}

/// Whether `chars[lo..hi]` is a numeric identifier.
pub fn numeric(chars: &Vec<char>, lo: usize, hi: usize) -> (b: bool)
    requires
        lo <= hi <= chars.len(),
    ensures
        b == is_numeric(chars@.subrange(lo as int, hi as int)),
{
    if lo == hi {
        return false;
    }
    all_chars(chars, lo, hi, CharClass::Digit) && (hi - lo == 1 || chars[lo] != '0')
}

/// Whether `chars[lo..hi]` is an identifier of the build metadata (`build`)
/// or of the pre-release.
pub fn ident(chars: &Vec<char>, lo: usize, hi: usize, build: bool) -> (b: bool)
    requires
        lo <= hi <= chars.len(),
    ensures
        b == is_ident(chars@.subrange(lo as int, hi as int), build),
{
    if lo == hi || !all_chars(chars, lo, hi, CharClass::Ident) {
        return false;
    }
    if build {
        return true;
    }
    !all_chars(chars, lo, hi, CharClass::Digit) || hi - lo == 1 || chars[lo] != '0'
}

/// Whether `chars[lo..hi]` is one or more identifiers separated by dots.
pub fn dotted(chars: &Vec<char>, lo: usize, hi: usize, build: bool) -> (b: bool)
    requires
        lo <= hi <= chars.len(),
    ensures
        b == is_dotted(chars@.subrange(lo as int, hi as int), build),
{
    let mut p: usize = lo;
    loop
        invariant
            lo <= p <= hi <= chars.len(),
            is_dotted(chars@.subrange(p as int, hi as int), build) == is_dotted(
                chars@.subrange(lo as int, hi as int),
                build,
            ),
        decreases hi - p,
    {
        let d = find_char(chars, p, hi, '.');
        let ghost sub = chars@.subrange(p as int, hi as int);
        if d >= hi {
            return ident(chars, p, hi, build);
        }
        assert(sub.take(d - p) == chars@.subrange(p as int, d as int));
        assert(sub.skip(d - p + 1) == chars@.subrange(d + 1, hi as int));
        if !ident(chars, p, d, build) {
            return false;
        }
        p = d + 1;
    }
}

/// Whether `chars[lo..hi]` is three numeric identifiers separated by dots.
pub fn version_core(chars: &Vec<char>, lo: usize, hi: usize) -> (b: bool)
    requires
        lo <= hi <= chars.len(),
    ensures
        b == is_version_core(chars@.subrange(lo as int, hi as int)),
{
    let ghost s = chars@.subrange(lo as int, hi as int);
    let d1 = find_char(chars, lo, hi, '.');
    if d1 >= hi {
        return false;
    }
    assert(s.take(d1 - lo) == chars@.subrange(lo as int, d1 as int));
    assert(s.skip(d1 - lo + 1) == chars@.subrange(d1 + 1, hi as int));
    let ghost rest = chars@.subrange(d1 + 1, hi as int);
    let d2 = find_char(chars, d1 + 1, hi, '.');
    if d2 >= hi {
        return false;
    }
    assert(rest.take(d2 - (d1 + 1)) == chars@.subrange(d1 + 1, d2 as int));
    assert(rest.skip(d2 - (d1 + 1) + 1) == chars@.subrange(d2 + 1, hi as int));
    numeric(chars, lo, d1) && numeric(chars, d1 + 1, d2) && numeric(chars, d2 + 1, hi)
}

/// Whether `chars[lo..hi]` is a semantic version.
pub fn semver(chars: &Vec<char>, lo: usize, hi: usize) -> (b: bool)
    requires
        lo <= hi <= chars.len(),
    ensures
        b == is_semver(chars@.subrange(lo as int, hi as int)),
{
    let ghost s = chars@.subrange(lo as int, hi as int);
    let plus = find_char(chars, lo, hi, '+');
    assert(s.take(plus - lo) == chars@.subrange(lo as int, plus as int));
    let ghost main = chars@.subrange(lo as int, plus as int);
    let dash = find_char(chars, lo, plus, '-');
    assert(main.take(dash - lo) == chars@.subrange(lo as int, dash as int));
    if !version_core(chars, lo, dash) {
        return false;
    }
    if dash < plus {
        assert(main.skip(dash - lo + 1) == chars@.subrange(dash + 1, plus as int));
        if !dotted(chars, dash + 1, plus, false) {
            return false;
        }
    }
    if plus < hi {
        assert(s.skip(plus - lo + 1) == chars@.subrange(plus + 1, hi as int));
        if !dotted(chars, plus + 1, hi, true) {
            return false;
        }
    }
    true
}

/// A version written out from its parts: the core, then `-` and the
/// pre-release where there is one, then `+` and the build metadata where
/// there is some.
pub open spec fn version_text(
    core: Seq<char>,
    pre_release: Option<Seq<char>>,
    build: Option<Seq<char>>,
) -> Seq<char> {
    core + (match pre_release {
        Some(p) => seq!['-'] + p,
        None => Seq::empty(),
    }) + (match build {
        Some(b) => seq!['+'] + b,
        None => Seq::empty(),
    })
}

/// A sequence of digits with a superfluous zero in front.
pub open spec fn has_leading_zero(s: Seq<char>) -> bool {
    s.len() > 1 && all_in(s, CharClass::Digit) && s[0] == '0'
}

/// Three numeric identifiers with dots between them make a version core.
pub proof fn lemma_core_of_numerics(major: Seq<char>, minor: Seq<char>, patch: Seq<char>)
    requires
        is_numeric(major),
        is_numeric(minor),
        is_numeric(patch),
    ensures
        is_version_core(major + seq!['.'] + minor + seq!['.'] + patch),
{
    lemma_core_split(major, minor, patch);
}

/// Where three runs of digits stand with dots between them, the dots are
/// the first two of the text, and the text is a core only if each run is a
/// numeric identifier.
proof fn lemma_core_split(a: Seq<char>, b: Seq<char>, c: Seq<char>)
    requires
        all_in(a, CharClass::Digit),
        all_in(b, CharClass::Digit),
        all_in(c, CharClass::Digit),
    ensures
        is_version_core(a + seq!['.'] + b + seq!['.'] + c) == (is_numeric(a) && is_numeric(b)
            && is_numeric(c)),
{
    let s = a + seq!['.'] + b + seq!['.'] + c;
    let n = a.len() as int;
    let m = b.len() as int;
    lemma_first_index_is(s, '.', n);
    let rest = s.skip(n + 1);
    lemma_first_index_is(rest, '.', m);
}

/// A version core holds digits and dots only.
pub proof fn lemma_core_chars(s: Seq<char>)
    requires
        is_version_core(s),
    ensures
        forall|k: int| 0 <= k < s.len() ==> is_digit(#[trigger] s[k]) || s[k] == '.',
{
    let d1 = first_index(s, '.');
    let rest = s.skip(d1 + 1);
    let d2 = first_index(rest, '.');
    lemma_first_index_bounds(s, '.');
    lemma_first_index_bounds(rest, '.');
    assert forall|k: int| 0 <= k < s.len() implies is_digit(#[trigger] s[k]) || s[k] == '.' by {
        if k < d1 {
            assert(s.take(d1)[k] == s[k]);
        } else if k == d1 {
        } else if k - d1 - 1 < d2 {
            assert(rest.take(d2)[k - d1 - 1] == s[k]);
        } else if k - d1 - 1 == d2 {
        } else {
            assert(rest.skip(d2 + 1)[k - d1 - 1 - d2 - 1] == s[k]);
        }
    }
}

/// Dotted identifiers hold letters, digits, `-` and dots only.
pub proof fn lemma_dotted_chars(s: Seq<char>, build: bool)
    requires
        is_dotted(s, build),
    ensures
        s.len() > 0,
        forall|k: int| 0 <= k < s.len() ==> is_ident_char(#[trigger] s[k]) || s[k] == '.',
    decreases s.len(),
{
    let d = first_index(s, '.');
    lemma_first_index_bounds(s, '.');
    if d >= s.len() {
    } else {
        lemma_dotted_chars(s.skip(d + 1), build);
        assert forall|k: int| 0 <= k < s.len() implies is_ident_char(#[trigger] s[k]) || s[k]
            == '.' by {
            if k < d {
                assert(s.take(d)[k] == s[k]);
            } else if k > d {
                assert(s.skip(d + 1)[k - d - 1] == s[k]);
            }
        }
    }
}

/// One identifier is a dotted sequence.
pub proof fn lemma_dotted_one(ident: Seq<char>, build: bool)
    requires
        is_ident(ident, build),
    ensures
        is_dotted(ident, build),
{
    lemma_first_index_is(ident, '.', ident.len() as int);
}

/// An identifier, a dot and a dotted sequence make a dotted sequence.
pub proof fn lemma_dotted_more(ident: Seq<char>, rest: Seq<char>, build: bool)
    requires
        is_ident(ident, build),
        is_dotted(rest, build),
    ensures
        is_dotted(ident + seq!['.'] + rest, build),
{
    let s = ident + seq!['.'] + rest;
    let n = ident.len() as int;
    lemma_first_index_is(s, '.', n);
    assert(s.take(n) =~= ident);
    assert(s.skip(n + 1) =~= rest);
}

/// Where a core is followed by nothing, by `-` or by `+`, the core of the
/// whole text is that core, its pre-release is what stands between the `-`
/// and the first `+`, and its build metadata is what follows the first `+`.
proof fn lemma_parts(core: Seq<char>, tail: Seq<char>)
    requires
        forall|k: int| 0 <= k < core.len() ==> is_digit(#[trigger] core[k]) || core[k] == '.',
        tail.len() == 0 || tail[0] == '-' || tail[0] == '+',
    ensures
        ({
            let s = core + tail;
            let plus = first_index(s, '+');
            let main = s.take(plus);
            let dash = first_index(main, '-');
            &&& main.take(dash) == core
            &&& core.len() <= plus <= s.len()
            &&& plus == core.len() + first_index(tail, '+')
            &&& dash < main.len() <==> tail.len() > 0 && tail[0] == '-'
            &&& dash < main.len() ==> main.skip(dash + 1) == tail.take(first_index(tail, '+')).skip(
                1,
            )
            &&& plus < s.len() ==> s.skip(plus + 1) == tail.skip(first_index(tail, '+') + 1)
        }),
{
    let s = core + tail;
    let n = core.len() as int;
    let tp = first_index(tail, '+');
    lemma_first_index_bounds(tail, '+');
    lemma_first_index_is(s, '+', n + tp);
    lemma_first_index_is(s.take(n + tp), '-', n);
}

/// Every version written out from a core, dotted pre-release identifiers
/// and dotted build identifiers is a semantic version.
pub proof fn lemma_semver_accepts(
    core: Seq<char>,
    pre_release: Option<Seq<char>>,
    build: Option<Seq<char>>,
)
    requires
        is_version_core(core),
        pre_release matches Some(p) ==> is_dotted(p, false),
        build matches Some(b) ==> is_dotted(b, true),
    ensures
        is_semver(version_text(core, pre_release, build)),
{
    let first = match pre_release {
        Some(p) => seq!['-'] + p,
        None => Seq::<char>::empty(),
    };
    let second = match build {
        Some(b) => seq!['+'] + b,
        None => Seq::<char>::empty(),
    };
    let tail = first + second;
    assert(version_text(core, pre_release, build) =~= core + tail);
    lemma_core_chars(core);
    lemma_parts(core, tail);
    assert forall|k: int| 0 <= k < first.len() implies first[k] != '+' by {
        let p = pre_release->0;
        lemma_dotted_chars(p, false);
    }
    lemma_first_index_is(tail, '+', first.len() as int);
    assert(tail.take(first.len() as int) =~= first);
    if pre_release is Some {
        assert(first.skip(1) =~= pre_release->0);
    }
    if build is Some {
        assert(tail.skip(first.len() as int + 1) =~= build->0);
    }
}

/// A version whose major, minor or patch number has a superfluous zero in
/// front is rejected, whatever pre-release or build metadata follows.
pub proof fn lemma_leading_zero_rejected(
    major: Seq<char>,
    minor: Seq<char>,
    patch: Seq<char>,
    tail: Seq<char>,
)
    requires
        all_in(major, CharClass::Digit),
        all_in(minor, CharClass::Digit),
        all_in(patch, CharClass::Digit),
        has_leading_zero(major) || has_leading_zero(minor) || has_leading_zero(patch),
        tail.len() == 0 || tail[0] == '-' || tail[0] == '+',
    ensures
        !is_semver(major + seq!['.'] + minor + seq!['.'] + patch + tail),
{
    let core = major + seq!['.'] + minor + seq!['.'] + patch;
    lemma_parts(core, tail);
    lemma_core_split(major, minor, patch);
}

/// A text that ends with `+` is no version.
pub proof fn lemma_trailing_plus_rejected(s: Seq<char>)
    requires
        s.len() > 0,
        s.last() == '+',
    ensures
        !is_semver(s),
{
    let plus = first_index(s, '+');
    lemma_first_index_bounds(s, '+');
    let build = s.skip(plus + 1);
    if is_dotted(build, true) {
        lemma_dotted_chars(build, true);
        assert(build.last() == s.last());
    }
}

/// A text without `-` and `+`, followed by a `-` and nothing more, is no
/// version.
pub proof fn lemma_trailing_dash_rejected(core: Seq<char>)
    requires
        forall|k: int| 0 <= k < core.len() ==> core[k] != '-' && core[k] != '+',
    ensures
        !is_semver(core + seq!['-']),
{
    let s = core + seq!['-'];
    let n = core.len() as int;
    lemma_first_index_is(s, '+', s.len() as int);
    let main = s.take(s.len() as int);
    lemma_first_index_is(main, '-', n);
}

} // verus!
