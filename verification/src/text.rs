//! Texts: what it means to trim one and to find one in another, and the
//! calls into the standard library that do it.

use vstd::prelude::*;

verus! {

/// Whether `c` is white space: a character with the Unicode property
/// `White_Space`.
pub open spec fn is_space(c: char) -> bool {
    let n = c as u32;
    ||| 0x0009 <= n <= 0x000D
    ||| n == 0x0020
    ||| n == 0x0085
    ||| n == 0x00A0
    ||| n == 0x1680
    ||| 0x2000 <= n <= 0x200A
    ||| n == 0x2028
    ||| n == 0x2029
    ||| n == 0x202F
    ||| n == 0x205F
    ||| n == 0x3000
}

/// `s` without the white space at its start.
pub open spec fn trimmed_start(s: Seq<char>) -> Seq<char>
    decreases s.len(),
{
    if s.len() > 0 && is_space(s.first()) {
        trimmed_start(s.drop_first())
    } else {
        s
    }
}

/// `s` without the white space at its end.
pub open spec fn trimmed_end(s: Seq<char>) -> Seq<char>
    decreases s.len(),
{
    if s.len() > 0 && is_space(s.last()) {
        trimmed_end(s.drop_last())
    } else {
        s
    }
}

/// `s` without the white space at its start and at its end.
pub open spec fn trimmed(s: Seq<char>) -> Seq<char> {
    trimmed_end(trimmed_start(s))
}

/// The characters of a text that may be absent.
pub open spec fn text_of(t: Option<String>) -> Option<Seq<char>> {
    match t {
        Some(s) => Some(s@),
        None => None,
    }
}

/// The characters of each of a sequence of texts.
pub open spec fn texts(v: Seq<String>) -> Seq<Seq<char>> {
    Seq::new(v.len(), |i: int| v[i]@)
}

/// Whether `part` stands in `s` at position `at`.
pub open spec fn occurs_at(s: Seq<char>, part: Seq<char>, at: int) -> bool {
    0 <= at && at + part.len() <= s.len() && s.subrange(at, at + part.len()) == part
}

/// Whether `part` stands somewhere in `s`.
pub open spec fn occurs_in(s: Seq<char>, part: Seq<char>) -> bool {
    exists|at: int| occurs_at(s, part, at)
}

/// Equality of two string slices, character by character.
///
/// Trusted: calls `str::eq` of the standard library, which compares the
/// contents of the two slices.
#[verifier::external_body]
pub(crate) fn str_eq(a: &str, b: &str) -> (same: bool)
    ensures
        same == (a@ == b@),
{
    a == b
}

/// Appends one character to a string.
///
/// Trusted: calls `String::push` of the standard library, which appends the
/// given character to the end of the string.
#[verifier::external_body]
pub(crate) fn push_char(s: &mut String, c: char)
    ensures
        final(s)@ == old(s)@.push(c),
{
    s.push(c)
}

/// The slice without the white space at its start and at its end.
///
/// Trusted: calls `str::trim` of the standard library, which removes
/// leading and trailing characters that have the Unicode property
/// `White_Space`.
#[verifier::external_body]
pub(crate) fn trim(s: &str) -> (inner: &str)
    ensures
        inner@ == trimmed(s@),
{
    s.trim()
}

/// Whether the slice begins with `prefix`.
///
/// Trusted: calls `str::starts_with` of the standard library with a string
/// as the pattern, which is true exactly when the pattern matches a prefix
/// of the slice.
#[verifier::external_body]
pub(crate) fn starts_with(s: &str, prefix: &str) -> (begins: bool)
    ensures
        begins == occurs_at(s@, prefix@, 0),
{
    s.starts_with(prefix)
}

/// Whether `part` stands somewhere in the slice.
///
/// Trusted: calls `str::contains` of the standard library with a string as
/// the pattern, which is true exactly when the pattern matches a part of
/// the slice.
#[verifier::external_body]
pub(crate) fn contains(s: &str, part: &str) -> (found: bool)
    ensures
        found == occurs_in(s@, part@),
{
    s.contains(part)
}

/// The slice before the first occurrence of `delimiter` and the slice after
/// it, where `delimiter` occurs.
///
/// Trusted: calls `str::split_once` of the standard library with a string
/// as the delimiter, which splits the slice at the first occurrence of the
/// delimiter and returns nothing where there is none.
#[verifier::external_body]
pub(crate) fn split_once<'a>(s: &'a str, delimiter: &str) -> (parts: Option<(&'a str, &'a str)>)
    ensures
        parts is Some <==> occurs_in(s@, delimiter@),
        parts matches Some((before, after)) ==> {
            &&& s@ == before@ + delimiter@ + after@
            &&& forall|at: int| 0 <= at < before@.len() ==> !occurs_at(s@, delimiter@, at)
        },
{
    s.split_once(delimiter)
}

/// Two texts joined.
pub fn concat(a: &str, b: &str) -> (joined: String)
    ensures
        joined@ == a@ + b@,
{
    let mut joined = a.to_owned();
    joined.append(b);
    joined
}

} // verus!
