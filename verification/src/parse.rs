//! Parsing of coordinate pairs.
//!
//! Command-line text of the form `<left><separator><right>` — `"1000x750"`,
//! `"-1.2,0.35"` — is split at the first occurrence of the separator and
//! each side is parsed by the target type; malformed input yields no
//! result.

use vstd::prelude::*;
use core::str::FromStr;
use crate::complex::Complex;

verus! {

/// Relies on `str::split_once`: it splits at the first occurrence of the
/// separator, which the left part cannot contain, and reports nothing
/// when the separator does not occur.
#[verifier::external_body]
fn split_at_separator<'a>(s: &'a str, separator: char) -> (r: Option<(&'a str, &'a str)>)
    ensures
        match r {
            Some(parts) => parts.0@ + seq![separator] + parts.1@ == s@
                && !parts.0@.contains(separator),
            None => !s@.contains(separator),
        },
{
    s.split_once(separator)
}

/// Relies on `str::parse` through the target type's `FromStr`
/// implementation; nothing is assumed of which strings parse.
#[verifier::external_body]
fn parse_fragment<T: FromStr>(s: &str) -> (r: Option<T>) {
    s.parse::<T>().ok()
}

/// Joins the two parsed halves of a pair: a pair exactly when both
/// halves parsed.
pub fn pair_of_parts<T>(left: Option<T>, right: Option<T>) -> (r: Option<(T, T)>)
    ensures
        r == (match (left, right) {
            (Some(a), Some(b)) => Some((a, b)),
            _ => None::<(T, T)>,
        }),
{
    match (left, right) {
        (Some(a), Some(b)) => Some((a, b)),
        _ => None,
    }
}

/// Parses `s` as a pair of values separated by `separator`, like
/// `"400x600"` or `"1.0,0.5"`: the text up to the first separator and
/// the text after it must both parse as `T`.  Text without the
/// separator yields nothing.
pub fn parse_pair<T: FromStr>(s: &str, separator: char) -> (r: Option<(T, T)>)
    ensures
        !s@.contains(separator) ==> r is None,
        r is Some ==> s@.contains(separator),
{
    match split_at_separator(s, separator) {
        None => None,
        Some(parts) => {
            proof {
                assert(s@[parts.0@.len() as int] == separator);
            }
            pair_of_parts(parse_fragment::<T>(parts.0), parse_fragment::<T>(parts.1))
        },
    }
}

/// A parsed pair as a complex point: the left half becomes the real
/// part, the right half the imaginary part.
pub fn complex_of_pair<T>(pair: Option<(T, T)>) -> (r: Option<Complex<T>>)
    ensures
        r == (match pair {
            Some(p) => Some(Complex { re: p.0, im: p.1 }),
            None => None::<Complex<T>>,
        }),
{
    match pair {
        Some(p) => Some(Complex { re: p.0, im: p.1 }),
        None => None,
    }
}

/// Parses a pair of comma-separated values as a complex point, the
/// value before the comma as the real part and the value after it as
/// the imaginary part.
pub fn parse_complex<T: FromStr>(s: &str) -> (r: Option<Complex<T>>)
    ensures
        !s@.contains(',') ==> r is None,
        r is Some ==> s@.contains(','),
{
    complex_of_pair(parse_pair::<T>(s, ','))
}

} // verus!
