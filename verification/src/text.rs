//! Character-level helpers shared by the parser and the formatter.

use vstd::prelude::*;

verus! {

broadcast use vstd::string::group_string_axioms;

/// Unicode `White_Space`: the characters that `\s` stands for in a line pattern.
pub open spec fn is_space(c: char) -> bool {
    let v = c as u32;
    ||| 0x09 <= v <= 0x0d
    ||| v == 0x20
    ||| v == 0x85
    ||| v == 0xa0
    ||| v == 0x1680
    ||| 0x2000 <= v <= 0x200a
    ||| v == 0x2028
    ||| v == 0x2029
    ||| v == 0x202f
    ||| v == 0x205f
    ||| v == 0x3000
}

/// The code points of the Unicode `White_Space` property (Unicode 16.0), as
/// inclusive ranges.
pub open spec fn white_space_ranges() -> Seq<(u32, u32)> {
    seq![
        (0x09u32, 0x0du32),
        (0x20u32, 0x20u32),
        (0x85u32, 0x85u32),
        (0xa0u32, 0xa0u32),
        (0x1680u32, 0x1680u32),
        (0x2000u32, 0x200au32),
        (0x2028u32, 0x2029u32),
        (0x202fu32, 0x202fu32),
        (0x205fu32, 0x205fu32),
        (0x3000u32, 0x3000u32),
    ]
}

/// `c` lies in one of the `White_Space` ranges.
pub open spec fn in_white_space(c: char) -> bool {
    exists|i: int|
        0 <= i < white_space_ranges().len() && (#[trigger] white_space_ranges()[i]).0 <= (
        c as u32) <= white_space_ranges()[i].1
}

/// What cuts a line is exactly Unicode `White_Space`: no other character
/// (no letter, digit, `_`, `.`, `-` or any other) counts as whitespace, and
/// among ASCII characters only tab, line feed, vertical tab, form feed,
/// carriage return and space do.
pub proof fn lemma_is_space_is_white_space(c: char)
    ensures
        is_space(c) <==> in_white_space(c),
        (c as u32) < 0x80 ==> (is_space(c) <==> (0x09 <= (c as u32) <= 0x0d || c == ' ')),
{
    let r = white_space_ranges();
    let v = c as u32;
    if is_space(c) {
        if 0x09 <= v <= 0x0d {
            assert(r[0].0 <= v <= r[0].1);
        } else if v == 0x20 {
            assert(r[1].0 <= v <= r[1].1);
        } else if v == 0x85 {
            assert(r[2].0 <= v <= r[2].1);
        } else if v == 0xa0 {
            assert(r[3].0 <= v <= r[3].1);
        } else if v == 0x1680 {
            assert(r[4].0 <= v <= r[4].1);
        } else if 0x2000 <= v <= 0x200a {
            assert(r[5].0 <= v <= r[5].1);
        } else if v == 0x2028 || v == 0x2029 {
            assert(r[6].0 <= v <= r[6].1);
        } else if v == 0x202f {
            assert(r[7].0 <= v <= r[7].1);
        } else if v == 0x205f {
            assert(r[8].0 <= v <= r[8].1);
        } else {
            assert(r[9].0 <= v <= r[9].1);
        }
    }
    if in_white_space(c) {
        let i = choose|i: int| 0 <= i < r.len() && (#[trigger] r[i]).0 <= v <= r[i].1;
        assert(0 <= i < 10);
    }
    assert((' ' as u32) == 0x20);
}

/// Whether `c` is Unicode `White_Space`.
pub fn is_space_char(c: char) -> (res: bool)
    ensures
        res == is_space(c),
{
    let v = c as u32;
    (0x09 <= v && v <= 0x0d) || v == 0x20 || v == 0x85 || v == 0xa0 || v == 0x1680 || (0x2000
        <= v && v <= 0x200a) || v == 0x2028 || v == 0x2029 || v == 0x202f || v == 0x205f || v
        == 0x3000
}

/// The characters of `s`, in order.
pub fn chars_of(s: &str) -> (res: Vec<char>)
    ensures
        res@ == s@,
{
    let mut res: Vec<char> = Vec::new();
    for c in it: s.chars()
        invariant
            it.seq() == s@,
            res@ == s@.take(it.index() as int),
    {
        res.push(c);
    }
    res
}

/// Whether `a` and `b` hold the same characters.
pub fn text_eq(a: &str, b: &str) -> (res: bool)
    ensures
        res == (a@ == b@),
{
    let x: String = a.to_owned();
    let y: String = b.to_owned();
    x == y
}

/// What `str::to_lowercase` returns for a string with characters `s`.
pub uninterp spec fn lowercase(s: Seq<char>) -> Seq<char>;

/// Every character of `s` is ASCII.
pub open spec fn is_ascii_text(s: Seq<char>) -> bool {
    forall|i: int| 0 <= i < s.len() ==> (#[trigger] s[i] as u32) < 128
}

/// `c` with `A`..`Z` turned into `a`..`z`.
pub open spec fn ascii_lower_char(c: char) -> char {
    if 'A' as u32 <= c as u32 <= 'Z' as u32 {
        ((c as u32) + 32) as char
    } else {
        c
    }
}

/// `s` with `A`..`Z` turned into `a`..`z`, everything else unchanged.
pub open spec fn ascii_lower(s: Seq<char>) -> Seq<char> {
    s.map_values(|c: char| ascii_lower_char(c))
}

/// `str::to_lowercase`: the Unicode lowercase of `s`. The contract names the
/// result and states what the documentation gives for ASCII input (each
/// letter `A`..`Z` becomes `a`..`z`, all else is kept); for other input the
/// Unicode case tables decide, which the contract leaves unsaid.
#[verifier::external_body]
pub(crate) fn to_lowercase(s: &str) -> (res: String)
    ensures
        res@ == lowercase(s@),
        is_ascii_text(s@) ==> res@ == ascii_lower(s@),
{
    s.to_lowercase()
}

/// What `str::to_uppercase` returns for a string with characters `s`.
pub uninterp spec fn uppercase(s: Seq<char>) -> Seq<char>;

/// `c` with `a`..`z` turned into `A`..`Z`.
pub open spec fn ascii_upper_char(c: char) -> char {
    if 'a' as u32 <= c as u32 <= 'z' as u32 {
        ((c as u32) - 32) as char
    } else {
        c
    }
}

/// `s` with `a`..`z` turned into `A`..`Z`, everything else unchanged.
pub open spec fn ascii_upper(s: Seq<char>) -> Seq<char> {
    s.map_values(|c: char| ascii_upper_char(c))
}

/// `str::to_uppercase`: the Unicode uppercase of `s`. The contract names the
/// result and states what the documentation gives for ASCII input (each
/// letter `a`..`z` becomes `A`..`Z`, all else is kept); for other input the
/// Unicode case tables decide, which the contract leaves unsaid.
#[verifier::external_body]
pub(crate) fn to_uppercase(s: &str) -> (res: String)
    ensures
        res@ == uppercase(s@),
        is_ascii_text(s@) ==> res@ == ascii_upper(s@),
{
    s.to_uppercase()
}

} // verus!
