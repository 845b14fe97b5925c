//! Strings as sequences of characters, and the few Unicode tables of the
//! standard library that the rest of the crate consults.

use vstd::prelude::*;

verus! {

/// The lower-case form of a string, as the standard library's Unicode
/// tables give it.
pub uninterp spec fn lowercase_of(s: Seq<char>) -> Seq<char>;

/// Whether the standard library classes a character as alphabetic or numeric.
pub uninterp spec fn is_alphanumeric_char(c: char) -> bool;

/// Whether a character is white space: the characters with the Unicode
/// property `White_Space`, which are those that the standard library
/// takes for white space.
pub open spec fn is_whitespace_char(c: char) -> bool {
    let code = c as u32;
    ||| 0x09 <= code <= 0x0D
    ||| code == 0x20
    ||| code == 0x85
    ||| code == 0xA0
    ||| code == 0x1680
    ||| 0x2000 <= code <= 0x200A
    ||| code == 0x2028
    ||| code == 0x2029
    ||| code == 0x202F
    ||| code == 0x205F
    ||| code == 0x3000
}

/// The flag at `i` of a list of flags; no flag where the list ends before it.
pub open spec fn known_flag(flags: Seq<bool>, i: int) -> bool {
    0 <= i < flags.len() && flags[i]
}

/// For each character of `s`, whether the standard library classes it as
/// alphabetic or numeric.
pub open spec fn alnum_flags(s: Seq<char>) -> Seq<bool> {
    Seq::new(s.len(), |i: int| is_alphanumeric_char(s[i]))
}

/// `str::to_lowercase`: the result is the Unicode lower-case form of the
/// argument. Nothing else is claimed of that form.
#[verifier::external_body]
pub(crate) fn to_lowercase(s: &str) -> (r: String)
    ensures
        r@ == lowercase_of(s@),
{
    s.to_lowercase()
}

/// `char::is_alphanumeric`.
#[verifier::external_body]
pub(crate) fn is_alphanumeric(c: char) -> (r: bool)
    ensures
        r == is_alphanumeric_char(c),
{
    c.is_alphanumeric()
}

/// Whether a character is white space.
pub fn is_whitespace(c: char) -> (r: bool)
    ensures
        r == is_whitespace_char(c),
{
    let code: u32 = c as u32;
    (0x09 <= code && code <= 0x0D) || code == 0x20 || code == 0x85 || code == 0xA0 || code
        == 0x1680 || (0x2000 <= code && code <= 0x200A) || code == 0x2028 || code == 0x2029
        || code == 0x202F || code == 0x205F || code == 0x3000
}

/// `String::from_iter` over the characters of a vector: the string that
/// holds exactly these characters, in order.
#[verifier::external_body]
pub(crate) fn string_of(chars: &Vec<char>) -> (r: String)
    ensures
        r@ == chars@,
{
    String::from_iter(chars.iter())
}

/// The character sequences that strings held as characters stand for.
pub open spec fn part_views(parts: Seq<Vec<char>>) -> Seq<Seq<char>> {
    parts.map_values(|v: Vec<char>| v@)
}

/// The character sequences that string slices stand for.
pub open spec fn str_views(parts: Seq<&str>) -> Seq<Seq<char>> {
    parts.map_values(|s: &str| s@)
}

/// The character sequences that strings stand for.
pub open spec fn string_views(parts: Seq<String>) -> Seq<Seq<char>> {
    parts.map_values(|s: String| s@)
}

/// For each character of `s`, whether it is alphabetic or numeric.
pub fn alnum_flags_of(s: &Vec<char>) -> (r: Vec<bool>)
    ensures
        r@ == alnum_flags(s@),
{
    let mut flags: Vec<bool> = Vec::new();
    let mut i: usize = 0;
    while i < s.len()
        invariant
            i <= s.len(),
            flags.len() == i,
            forall|k: int| 0 <= k < i ==> flags@[k] == is_alphanumeric_char(s@[k]),
        decreases s.len() - i,
    {
        flags.push(is_alphanumeric(s[i]));
        i = i + 1;
    }
    assert(flags@ =~= alnum_flags(s@));
    flags
}

/// The characters of a string, in order.
pub fn chars_of(s: &str) -> (r: Vec<char>)
    ensures
        r@ == s@,
{
    let mut out: Vec<char> = Vec::new();
    for c in it: s.chars()
        invariant
            out@ == it.seq().take(it.index() as int),
            it.seq() == s@,
    {
        out.push(c);
    }
    out
}

/// Whether `s` holds exactly the characters of the literal `lit`.
pub fn equals_literal(s: &Vec<char>, lit: &str) -> (r: bool)
    ensures
        r == (s@ == lit@),
{
    let n: usize = lit.unicode_len();
    if s.len() != n {
        return false;
    }
    let mut i: usize = 0;
    while i < n
        invariant
            i <= n,
            n == s.len(),
            n == lit@.len(),
            forall|k: int| 0 <= k < i ==> s@[k] == lit@[k],
        decreases n - i,
    {
        if s[i] != lit.get_char(i) {
            return false;
        }
        i = i + 1;
    }
    assert(s@ =~= lit@);
    true
}

/// Whether `needle` stands in `hay` at index `at`.
pub open spec fn occurs_at(hay: Seq<char>, needle: Seq<char>, at: int) -> bool {
    &&& 0 <= at
    &&& at + needle.len() <= hay.len()
    &&& hay.subrange(at, at + needle.len()) == needle
}

/// Whether `needle` stands somewhere in `hay` as a contiguous run.
pub open spec fn is_substring(hay: Seq<char>, needle: Seq<char>) -> bool {
    exists|at: int| occurs_at(hay, needle, at)
}

/// Whether `needle` stands in `hay` at index `at`.
pub fn matches_at(hay: &Vec<char>, needle: &Vec<char>, at: usize) -> (r: bool)
    ensures
        r == occurs_at(hay@, needle@, at as int),
{
    if at > hay.len() || needle.len() > hay.len() - at {
        return false;
    }
    let mut i: usize = 0;
    while i < needle.len()
        invariant
            i <= needle.len(),
            at + needle.len() <= hay.len(),
            forall|k: int| 0 <= k < i ==> hay@[at + k] == needle@[k],
        decreases needle.len() - i,
    {
        if hay[at + i] != needle[i] {
            assert(hay@.subrange(at as int, at + needle.len())[i as int] != needle@[i as int]);
            return false;
        }
        i = i + 1;
    }
    assert(hay@.subrange(at as int, at + needle.len()) =~= needle@);
    true
}

/// Whether `hay` begins with `needle`.
pub fn starts_with(hay: &Vec<char>, needle: &Vec<char>) -> (r: bool)
    ensures
        r == occurs_at(hay@, needle@, 0),
{
    matches_at(hay, needle, 0)
}

/// Whether `needle` stands somewhere in `hay`.
pub fn contains(hay: &Vec<char>, needle: &Vec<char>) -> (r: bool)
    ensures
        r == is_substring(hay@, needle@),
{
    if needle.len() > hay.len() {
        assert forall|at: int| !occurs_at(hay@, needle@, at) by {}
        return false;
    }
    let last: usize = hay.len() - needle.len();
    let mut at: usize = 0;
    while at < last
        invariant
            at <= last,
            last == hay.len() - needle.len(),
            needle.len() <= hay.len(),
            forall|k: int| 0 <= k < at ==> !occurs_at(hay@, needle@, k),
        decreases last - at,
    {
        if matches_at(hay, needle, at) {
            return true;
        }
        at = at + 1;
    }
    if matches_at(hay, needle, last) {
        return true;
    }
    assert forall|k: int| !occurs_at(hay@, needle@, k) by {}
    false
}

/// The part of `v` from `from` up to, not including, `to`.
pub(crate) fn slice_of(v: &Vec<char>, from: usize, to: usize) -> (r: Vec<char>)
    requires
        from <= to <= v.len(),
    ensures
        r@ == v@.subrange(from as int, to as int),
{
    let mut out: Vec<char> = Vec::new();
    let mut i: usize = from;
    while i < to
        invariant
            from <= i <= to,
            to <= v.len(),
            out@ == v@.subrange(from as int, i as int),
        decreases to - i,
    {
        out.push(v[i]);
        assert(v@.subrange(from as int, i + 1) =~= v@.subrange(from as int, i as int).push(
            v@[i as int],
        ));
        i = i + 1;
    }
    out
}

/// The strings that hold the given character sequences, in order.
pub fn strings_of(parts: &Vec<Vec<char>>) -> (r: Vec<String>)
    ensures
        string_views(r@) == part_views(parts@),
{
    let mut out: Vec<String> = Vec::new();
    let mut i: usize = 0;
    while i < parts.len()
        invariant
            i <= parts.len(),
            out.len() == i,
            forall|k: int| 0 <= k < i ==> out@[k]@ == parts@[k]@,
        decreases parts.len() - i,
    {
        out.push(string_of(&parts[i]));
        i = i + 1;
    }
    assert(string_views(out@) =~= part_views(parts@));
    out
}

} // verus!
