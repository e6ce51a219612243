//! A plain-value model of the input of a derive macro: what the macros
//! read of a struct, its fields, their types and attributes.

use vstd::prelude::*;
use crate::tokens::{Span, TokenTree};

verus! {

/// An identifier with its span; `text` is the identifier as printed.
#[derive(Debug)]
pub struct IdentRepr {
    pub text: String,
    pub span: Span,
}

/// A generic argument of a path segment: a type, with its tokens and, when
/// it is a path type, the identifier of its first segment; or anything else.
#[derive(Debug)]
pub enum GenericArgRepr {
    Type { tokens: Vec<TokenTree>, path_head: Option<String> },
    Other,
}

/// The arguments of a path segment.
#[derive(Debug)]
pub enum PathArgsRepr {
    NoArgs,
    AngleBracketed(Vec<GenericArgRepr>),
    Parenthesized,
}

/// A segment of a path type.
#[derive(Debug)]
pub struct PathSegmentRepr {
    pub ident: String,
    pub arguments: PathArgsRepr,
}

/// A type: its tokens and, when it is a path type, its segments.
#[derive(Debug)]
pub struct TypeRepr {
    pub tokens: Vec<TokenTree>,
    pub path: Option<Vec<PathSegmentRepr>>,
}

/// Whether an attribute is written `#[..]` or `#![..]`.
#[derive(Debug)]
pub enum AttrStyle {
    Outer,
    Inner,
}

/// What follows the path of an attribute: nothing, a delimited list of
/// tokens (with the spans of its delimiters), or `=` and a value.
#[derive(Debug)]
pub enum MetaRepr {
    Path,
    List { span_open: Span, span_close: Span, tokens: Vec<TokenTree> },
    NameValue { eq_span: Span, value: Vec<TokenTree> },
}

/// An attribute.
#[derive(Debug)]
pub struct AttrRepr {
    pub style: AttrStyle,
    pub leading_colon: bool,
    pub path: Vec<IdentRepr>,
    pub meta: MetaRepr,
}

/// A field of a struct.
#[derive(Debug)]
pub struct FieldRepr {
    pub ident: Option<IdentRepr>,
    pub ty: TypeRepr,
    pub attrs: Vec<AttrRepr>,
}

/// How the fields of a struct are written.
#[derive(Debug)]
pub enum FieldsKind {
    Named,
    Unnamed,
    Unit,
}

/// The body of the item a derive is applied to.
#[derive(Debug)]
pub enum DataRepr {
    Struct { kind: FieldsKind, fields: Vec<FieldRepr> },
    Enum,
    Union,
}

/// A generic parameter of the item: a type parameter with its name, a
/// lifetime or a constant.
#[derive(Debug)]
pub enum GenericParamRepr {
    Type(String),
    Lifetime,
    Const,
}

/// A path type met anywhere in the item: its number of segments, the
/// identifier of its first segment, and its tokens.
#[derive(Debug)]
pub struct TypePathRepr {
    pub segment_count: usize,
    pub first: String,
    pub tokens: Vec<TokenTree>,
}

/// The input of a derive macro. `type_paths` lists every path type of the
/// item, in the order in which a walk over the item meets them (a path type
/// before the ones nested in it); `first_span` and `last_span` are the spans
/// of the item's first and last tokens.
#[derive(Debug)]
pub struct DeriveInputRepr {
    pub ident: IdentRepr,
    pub generics: Vec<GenericParamRepr>,
    pub data: DataRepr,
    pub type_paths: Vec<TypePathRepr>,
    pub first_span: Span,
    pub last_span: Span,
}

} // verus!
