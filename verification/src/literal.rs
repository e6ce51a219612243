//! Readings of literal tokens, as the `syn` crate gives them.

use vstd::prelude::*;

verus! {

/// What `syn` reads from the integer literal written `text` (a leading `-`
/// is part of the literal): `None` when `text` is no integer literal, else
/// the value in base 10 as a `usize`, or the message of the error that
/// reading it as a `usize` gives.
pub uninterp spec fn int_literal(text: Seq<char>) -> Option<Result<usize, Seq<char>>>;

/// What `syn` reads from the string literal written `text`: `None` when
/// `text` is no string literal, else the string it denotes, its escapes
/// resolved.
pub uninterp spec fn string_literal(text: Seq<char>) -> Option<Seq<char>>;

/// Reads `text` with `syn::parse_str::<syn::LitInt>` and, where that
/// succeeds, `LitInt::base10_parse::<usize>`. The contract claims only that
/// the result is the one named by [`int_literal`] for `text`: the same text
/// always reads the same.
#[verifier::external_body]
pub(crate) fn read_int_literal(text: &str) -> (r: Option<Result<usize, String>>)
    ensures
        match r {
            Option::None => int_literal(text@) is None,
            Option::Some(Ok(v)) => int_literal(text@) == Some(Ok::<usize, Seq<char>>(v)),
            Option::Some(Err(m)) => int_literal(text@) == Some(Err::<usize, Seq<char>>(m@)),
        },
{
    match syn::parse_str::<syn::LitInt>(text) {
        Ok(lit) => match lit.base10_parse::<usize>() {
            Ok(v) => Some(Ok(v)),
            Err(e) => Some(Err(e.to_string())),
        },
        Err(_) => None,
    }
}

/// Reads `text` with `syn::parse_str::<syn::LitStr>` and, where that
/// succeeds, `LitStr::value`. The contract claims only that the result is
/// the one named by [`string_literal`] for `text`.
#[verifier::external_body]
pub(crate) fn read_string_literal(text: &str) -> (r: Option<String>)
    ensures
        match r {
            Option::None => string_literal(text@) is None,
            Option::Some(v) => string_literal(text@) == Some(v@),
        },
{
    match syn::parse_str::<syn::LitStr>(text) {
        Ok(lit) => Some(lit.value()),
        Err(_) => None,
    }
}

} // verus!
