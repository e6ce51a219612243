//! Three small derives: `FieldCounter` (an associated function returning
//! the number of fields), `DefaultNew` (a `new` built from `Default`) and
//! `Getters` (one reference getter per field).

use vstd::prelude::*;
use crate::derive_input::{DataRepr, DeriveInputRepr, IdentRepr};
use crate::tokens::{Span, TokenTree, copy_stream, stream_view};

verus! {

/// The number of fields of `input`: those of a struct (named, unnamed or
/// none), and `0` for anything else.
pub open spec fn field_count_of(input: DeriveInputRepr) -> nat {
    match input.data {
        DataRepr::Struct { fields, .. } => fields@.len(),
        _ => 0,
    }
}

/// The number that `FieldCounter` makes `field_count()` return for `input`.
pub fn field_counter(input: &DeriveInputRepr) -> (r: usize)
    ensures
        r == field_count_of(*input),
{
    match &input.data {
        DataRepr::Struct { fields, .. } => fields.len(),
        _ => 0,
    }
}

/// The type that `DefaultNew` gives a `new` function: the derive input's
/// own name.
pub fn default_new(input: &DeriveInputRepr) -> (r: IdentRepr)
    ensures
        r.text@ == input.ident.text@,
        r.span == input.ident.span,
{
    IdentRepr { text: input.ident.text.clone(), span: input.ident.span }
}

/// A getter: the field's name (none for an unnamed field), and the type it
/// returns a reference to.
#[derive(Debug)]
pub struct Getter {
    pub name: Option<IdentRepr>,
    pub ty: Vec<TokenTree>,
}

/// The getters that `Getters` generates for a struct: one per field, in
/// order, each named after its field and returning a reference to the
/// field's type.
pub fn getters(input: &DeriveInputRepr) -> (r: Vec<Getter>)
    requires
        input.data is Struct,
    ensures
        r@.len() == input.data->fields@.len(),
        forall|i: int| 0 <= i < r@.len() ==> {
            &&& stream_view((#[trigger] r@[i]).ty@) == stream_view(input.data->fields@[i].ty.tokens@)
            &&& match (r@[i].name, input.data->fields@[i].ident) {
                (Some(a), Some(b)) => a.text@ == b.text@ && a.span == b.span,
                (None, None) => true,
                _ => false,
            }
        },
{
    let fields = match &input.data {
        DataRepr::Struct { fields, .. } => fields,
        _ => {
            return Vec::new();
        },
    };
    let mut out: Vec<Getter> = Vec::new();
    let mut i: usize = 0;
    while i < fields.len()
        invariant
            i <= fields.len(),
            *fields == input.data->fields,
            out@.len() == i,
            forall|j: int| 0 <= j < i ==> {
                &&& stream_view((#[trigger] out@[j]).ty@) == stream_view(fields@[j].ty.tokens@)
                &&& match (out@[j].name, fields@[j].ident) {
                    (Some(a), Some(b)) => a.text@ == b.text@ && a.span == b.span,
                    (None, None) => true,
                    _ => false,
                }
            },
        decreases fields.len() - i,
    {
        let f = &fields[i];
        let name = match &f.ident {
            Some(id) => Some(IdentRepr { text: id.text.clone(), span: id.span }),
            None => None,
        };
        out.push(Getter { name, ty: copy_stream(&f.ty.tokens) });
        i = i + 1;
    }
    out
}

} // verus!
