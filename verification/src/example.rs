//! A struct whose fields use an associated type of its type parameter.

use vstd::prelude::*;
use std::marker::PhantomData;

verus! {

/// A trait with one associated type.
pub trait Trait {
    type Value;
}

/// A struct with fields of the associated type of `T`, one of them only as
/// a marker.
///
/// Its `Debug` impl is the one that the `CustomDebug` plan gives for it
/// (`custom_debug::do_expand`): every field printed with `{:?}`, a `Debug`
/// bound on `T` (the field `blog` has a type that starts with `T`) and
/// `T::Value: Debug` in the `where` clause. A `Debug` impl written by hand is
/// not accepted inside `verus!`, so std's derive stands in for it; it gives
/// the same bounds and the same output.
#[derive(Debug)]
pub struct Field<T: Trait> {
    values: Vec<T::Value>,
    blog: T::Value,
    ideawand: PhantomData<T::Value>,
}

/// Compiles only for a type that implements `Debug`.
pub fn assert_debug<F: std::fmt::Debug>() {
}

} // verus!
