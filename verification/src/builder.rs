//! The `Builder` derive: for a struct with named fields, a builder struct
//! with one setter per field (and, for `#[builder(each = "..")]` fields, a
//! method that adds one element), and a `build` method.

use vstd::prelude::*;
use crate::cursor::{Entry, EntryV, SynError, SynErrorV, entries_view, error_at, input_span_at, land, land_at, lemma_land_range,
    lemma_skip_open_range, linearize, linearized, next_tok, prev_span, prev_span_at, punct_after, punct_after_at,
    punct_error_span, punct_error_span_at, skip_open, skip_open_at, span_at_place};
use crate::derive_input::{AttrRepr, DataRepr, DeriveInputRepr, FieldRepr, FieldsKind, GenericArgRepr, IdentRepr,
    MetaRepr, PathArgsRepr, TypeRepr};
use crate::literal::{read_string_literal, string_literal};
use crate::text::text_is;
use crate::tokens::{Span, Tok, TokenTree, copy_stream, stream_view};

verus! {

/// The inner type of `ty` when `ty` is `wrapper<T>`: a path of one segment
/// named `wrapper` with one angle-bracketed argument, a type.
pub open spec fn inner_type(wrapper: Seq<char>, ty: TypeRepr) -> Option<Seq<Tok>> {
    match ty.path {
        Some(segs) => if segs@.len() == 1 && segs@[0].ident@ == wrapper {
            match segs@[0].arguments {
                PathArgsRepr::AngleBracketed(args) => if args@.len() == 1 {
                    match args@[0] {
                        GenericArgRepr::Type { tokens, .. } => Some(stream_view(tokens@)),
                        GenericArgRepr::Other => None,
                    }
                } else {
                    None
                },
                _ => None,
            }
        } else {
            None
        },
        None => None,
    }
}

/// A type has an inner type for `wrapper` exactly when it is a path of one
/// segment named `wrapper` whose only generic argument is a type; the inner
/// type is that argument.
pub proof fn inner_type_shape(wrapper: Seq<char>, ty: TypeRepr, t: Seq<Tok>)
    ensures
        inner_type(wrapper, ty) == Some(t) <==> (ty.path matches Some(segs) && segs@.len() == 1
            && segs@[0].ident@ == wrapper
            && (segs@[0].arguments matches PathArgsRepr::AngleBracketed(args) && args@.len() == 1
                && (args@[0] matches GenericArgRepr::Type { tokens, .. } && stream_view(tokens@) == t))),
{
}

/// The tokens of the inner type of `ty` when `ty` is `wrapper<T>`, as
/// [`inner_type`] says.
pub fn ty_inner_type<'a>(wrapper: &str, ty: &'a TypeRepr) -> (r: Option<&'a Vec<TokenTree>>)
    ensures
        match r {
            Option::Some(t) => inner_type(wrapper@, *ty) == Some(stream_view(t@)),
            Option::None => inner_type(wrapper@, *ty) is None,
        },
{
    match &ty.path {
        Some(segs) => {
            if segs.len() != 1 || !text_is(&segs[0].ident, wrapper) {
                return None;
            }
            match &segs[0].arguments {
                PathArgsRepr::AngleBracketed(args) => {
                    if args.len() != 1 {
                        return None;
                    }
                    match &args[0] {
                        GenericArgRepr::Type { tokens, .. } => Some(tokens),
                        GenericArgRepr::Other => None,
                    }
                },
                _ => None,
            }
        },
        None => None,
    }
}

/// Whether an attribute's path is the single identifier `builder`.
pub open spec fn is_builder_attr(a: AttrRepr) -> bool {
    a.path@.len() == 1 && a.path@[0].text@ == "builder"@
}

/// The place of the first `builder` attribute of a field.
pub open spec fn builder_attr_index(attrs: Seq<AttrRepr>) -> Option<int> {
    if exists|i: int| 0 <= i < attrs.len() && is_builder_attr(#[trigger] attrs[i]) {
        Some(choose|i: int| 0 <= i < attrs.len() && is_builder_attr(#[trigger] attrs[i])
            && forall|j: int| 0 <= j < i ==> !is_builder_attr(#[trigger] attrs[j]))
    } else {
        None
    }
}

/// The first attribute of `f` whose path is `builder`, by its place.
pub fn build_of(f: &FieldRepr) -> (r: Option<usize>)
    ensures
        match r {
            Option::Some(i) => i < f.attrs@.len() && is_builder_attr(f.attrs@[i as int])
                && forall|j: int| 0 <= j < i ==> !is_builder_attr(#[trigger] f.attrs@[j]),
            Option::None => forall|j: int| 0 <= j < f.attrs@.len() ==> !is_builder_attr(#[trigger] f.attrs@[j]),
        },
{
    let mut i: usize = 0;
    while i < f.attrs.len()
        invariant
            i <= f.attrs.len(),
            forall|j: int| 0 <= j < i ==> !is_builder_attr(#[trigger] f.attrs@[j]),
        decreases f.attrs.len() - i,
    {
        let a = &f.attrs[i];
        if a.path.len() == 1 && text_is(&a.path[0].text, "builder") {
            return Some(i);
        }
        i = i + 1;
    }
    None
}

/// What the arguments of a `builder` attribute give: the value of its last
/// `each = ".."` with the span of that string literal; no argument at all;
/// or an error (from where to where it points).
pub enum EachArg {
    Given(Seq<char>, Span),
    Absent,
    Invalid(Span, Span),
}

/// The spans an error at `p` points to.
pub open spec fn error_spans(e: Seq<EntryV>, p: int, scope: Span) -> (Span, Span) {
    let x = error_at(e, p, scope, Seq::empty());
    (x.start, x.end)
}

/// `::` at `p`: the place after it.
pub open spec fn colons_after(e: Seq<EntryV>, p: int) -> Option<int> {
    match punct_after(e, p, ':', true) {
        Some(a) => punct_after(e, a, ':', false),
        None => None,
    }
}

/// The further segments `:: ident` of a path from `p` on: how many there
/// are and the place after them, or the error for a `::` not followed by an
/// identifier.
pub open spec fn path_rest(e: Seq<EntryV>, p: int, scope: Span) -> Result<(nat, int), (Span, Span)>
    decreases e.len() - p,
{
    if p < 0 || p > e.len() {
        Ok((0, p))
    } else {
        match colons_after(e, p) {
            Some(q) => {
                proof {
                    lemma_skip_open_range(e, p);
                    if let Some(a) = punct_after(e, p, ':', true) {
                        lemma_skip_open_range(e, a);
                    }
                }
                match next_tok(e, q) {
                    Some(Tok::Ident { .. }) => {
                        proof {
                            lemma_skip_open_range(e, q);
                        }
                        match path_rest(e, skip_open(e, q) + 1, scope) {
                            Ok((n, r)) => Ok((n + 1, r)),
                            Err(x) => Err(x),
                        }
                    },
                    _ => Err(error_spans(e, q, scope)),
                }
            },
            None => Ok((0, p)),
        }
    }
}

/// The nested arguments `each = ".."` of a `builder` attribute read from
/// `p` on, separated by commas: the value of the last one, or the error at
/// the first place that is not such an argument.
pub open spec fn nested_each(e: Seq<EntryV>, p: int, scope: Span) -> EachArg
    decreases e.len() - p,
{
    if p < 0 || p > e.len() {
        EachArg::Absent
    } else {
        let colon = colons_after(e, p) is Some;
        let p1 = if colon { colons_after(e, p).unwrap() } else { p };
        match next_tok(e, p1) {
            Some(Tok::Ident { text: first, span: fspan }) => {
                let p2 = skip_open(e, p1) + 1;
                match path_rest(e, p2, scope) {
                    Err(x) => EachArg::Invalid(x.0, x.1),
                    Ok((extra, p3)) => if colon || extra > 0 || first != "each"@ {
                        EachArg::Invalid(fspan, prev_span(e, land(e, p3)))
                    } else {
                        match punct_after(e, p3, '=', false) {
                            None => EachArg::Invalid(punct_error_span(e, p3, scope), punct_error_span(e, p3, scope)),
                            Some(p4) => match next_tok(e, p4) {
                                Some(Tok::Literal { text, span }) => match string_literal(text) {
                                    Some(v) => {
                                        let p5 = skip_open(e, p4) + 1;
                                        if land(e, p5) >= e.len() {
                                            EachArg::Given(v, span)
                                        } else {
                                            match punct_after(e, p5, ',', false) {
                                                None => EachArg::Invalid(punct_error_span(e, p5, scope), punct_error_span(e, p5, scope)),
                                                Some(p6) => if land(e, p6) >= e.len() {
                                                    EachArg::Given(v, span)
                                                } else {
                                                    proof {
                                                        lemma_skip_open_range(e, p);
                                                        lemma_skip_open_range(e, p1);
                                                        lemma_skip_open_range(e, p4);
                                                        lemma_skip_open_range(e, p5);
                                                        if let Some(a) = punct_after(e, p, ':', true) {
                                                            lemma_skip_open_range(e, a);
                                                        }
                                                        lemma_path_rest_range(e, p2, scope);
                                                        lemma_skip_open_range(e, p3);
                                                    }
                                                    nested_each(e, p6, scope)
                                                },
                                            }
                                        }
                                    },
                                    None => EachArg::Invalid(error_spans(e, p4, scope).0, error_spans(e, p4, scope).1),
                                },
                                _ => EachArg::Invalid(error_spans(e, p4, scope).0, error_spans(e, p4, scope).1),
                            },
                        }
                    }
                }
            },
            _ => EachArg::Invalid(error_spans(e, p1, scope).0, error_spans(e, p1, scope).1),
        }
    }
}

/// The further segments of a path end at or after where they start.
pub proof fn lemma_path_rest_range(e: Seq<EntryV>, p: int, scope: Span)
    requires
        0 <= p <= e.len(),
    ensures
        path_rest(e, p, scope) matches Ok((n, r)) ==> p <= r <= e.len(),
    decreases e.len() - p,
{
    if let Some(q) = colons_after(e, p) {
        lemma_skip_open_range(e, p);
        if let Some(a) = punct_after(e, p, ':', true) {
            lemma_skip_open_range(e, a);
        }
        lemma_skip_open_range(e, q);
        if let Some(Tok::Ident { .. }) = next_tok(e, q) {
            lemma_path_rest_range(e, skip_open(e, q) + 1, scope);
        }
    }
}

/// What the arguments of the attribute `a` give, read as nested `key =
/// value` arguments: an attribute without arguments, or with `= value`, is
/// an error.
pub open spec fn each_arg(a: AttrRepr) -> EachArg {
    match a.meta {
        MetaRepr::Path => EachArg::Invalid(a.path@[0].span, a.path@.last().span),
        MetaRepr::NameValue { eq_span, .. } => EachArg::Invalid(eq_span, eq_span),
        MetaRepr::List { span_close, tokens, .. } => {
            let e = linearize(stream_view(tokens@));
            if land(e, 0) >= e.len() {
                EachArg::Absent
            } else {
                nested_each(e, 0, span_close)
            }
        },
    }
}


/// What the arguments of a `builder` attribute give, as [`EachArg`] says.
#[derive(Debug)]
pub enum EachArgument {
    Given(String, Span),
    Absent,
    Invalid(Span, Span),
}

impl View for EachArgument {
    type V = EachArg;

    open spec fn view(&self) -> EachArg {
        match self {
            EachArgument::Given(v, s) => EachArg::Given(v@, *s),
            EachArgument::Absent => EachArg::Absent,
            EachArgument::Invalid(a, b) => EachArg::Invalid(*a, *b),
        }
    }
}

/// The spans an error at `p` points to, as [`error_spans`] says.
fn error_spans_at(e: &Vec<Entry>, p: usize, scope: Span) -> (r: (Span, Span))
    requires
        p <= e.len(),
    ensures
        r == error_spans(entries_view(e@), p as int, scope),
{
    let l = land_at(e, p);
    if l >= e.len() {
        (scope, scope)
    } else {
        let s = span_at_place(e, l);
        (s, s)
    }
}

/// `::` at `p`, as [`colons_after`] says.
fn colons_at(e: &Vec<Entry>, p: usize) -> (r: Option<usize>)
    requires
        p <= e.len(),
    ensures
        match r {
            Option::Some(q) => q <= e.len() && colons_after(entries_view(e@), p as int) == Some(q as int),
            Option::None => colons_after(entries_view(e@), p as int) is None,
        },
{
    match punct_after_at(e, p, ':', true) {
        Some(a) => punct_after_at(e, a, ':', false),
        None => None,
    }
}

/// The further segments of a path, as [`path_rest`] says.
fn path_rest_at(e: &Vec<Entry>, p0: usize, scope: Span) -> (r: Result<(usize, usize), (Span, Span)>)
    requires
        p0 <= e.len(),
    ensures
        match r {
            Ok((n, q)) => q <= e.len() && path_rest(entries_view(e@), p0 as int, scope) == Ok::<(nat, int), (Span, Span)>((n as nat, q as int)),
            Err(x) => path_rest(entries_view(e@), p0 as int, scope) == Err::<(nat, int), (Span, Span)>(x),
        },
{
    let ghost ev = entries_view(e@);
    let mut p = p0;
    let mut n: usize = 0;
    loop
        invariant
            p0 <= p <= e.len(),
            n <= p - p0,
            ev == entries_view(e@),
            path_rest(ev, p0 as int, scope) == match path_rest(ev, p as int, scope) {
                Ok((k, r)) => Ok::<(nat, int), (Span, Span)>(((k + n) as nat, r)),
                Err(x) => Err(x),
            },
        decreases e.len() - p,
    {
        proof {
            lemma_skip_open_range(ev, p as int);
        }
        match colons_at(e, p) {
            Some(q) => {
                proof {
                    if let Some(a) = punct_after(ev, p as int, ':', true) {
                        lemma_skip_open_range(ev, a);
                    }
                    lemma_skip_open_range(ev, q as int);
                }
                let q2 = skip_open_at(e, q);
                let is_ident = q2 < e.len() && match &e[q2] {
                    Entry::Tok(TokenTree::Ident { .. }) => true,
                    _ => false,
                };
                if !is_ident {
                    return Err(error_spans_at(e, q, scope));
                }
                n = n + 1;
                p = q2 + 1;
            },
            None => {
                return Ok((n, p));
            },
        }
    }
}

/// What the nested arguments from `p0` on give, as [`nested_each`] says.
fn nested_each_at(e: &Vec<Entry>, p0: usize, scope: Span) -> (r: EachArgument)
    requires
        p0 <= e.len(),
    ensures
        r@ == nested_each(entries_view(e@), p0 as int, scope),
{
    let ghost ev = entries_view(e@);
    let mut p = p0;
    loop
        invariant
            p0 <= p <= e.len(),
            ev == entries_view(e@),
            nested_each(ev, p0 as int, scope) == nested_each(ev, p as int, scope),
        decreases e.len() - p,
    {
        proof {
            lemma_skip_open_range(ev, p as int);
            if let Some(a) = punct_after(ev, p as int, ':', true) {
                lemma_skip_open_range(ev, a);
            }
        }
        let (colon, p1) = match colons_at(e, p) {
            Some(q) => (true, q),
            None => (false, p),
        };
        proof {
            lemma_skip_open_range(ev, p1 as int);
        }
        let q1 = skip_open_at(e, p1);
        if q1 >= e.len() {
            let x = error_spans_at(e, p1, scope);
            return EachArgument::Invalid(x.0, x.1);
        }
        let (first_is_each, fspan) = match &e[q1] {
            Entry::Tok(TokenTree::Ident { text, span }) => (text_is(text, "each"), *span),
            _ => {
                let x = error_spans_at(e, p1, scope);
                return EachArgument::Invalid(x.0, x.1);
            },
        };
        let p2 = q1 + 1;
        let (extra, p3) = match path_rest_at(e, p2, scope) {
            Ok(x) => x,
            Err(x) => {
                return EachArgument::Invalid(x.0, x.1);
            },
        };
        proof {
            lemma_path_rest_range(ev, p2 as int, scope);
        }
        if colon || extra > 0 || !first_is_each {
            let l = land_at(e, p3);
            return EachArgument::Invalid(fspan, prev_span_at(e, l));
        }
        let p4 = match punct_after_at(e, p3, '=', false) {
            Some(q) => q,
            None => {
                let s = punct_error_span_at(e, p3, scope);
                return EachArgument::Invalid(s, s);
            },
        };
        proof {
            lemma_skip_open_range(ev, p3 as int);
            lemma_skip_open_range(ev, p4 as int);
        }
        let q4 = skip_open_at(e, p4);
        if q4 >= e.len() {
            let x = error_spans_at(e, p4, scope);
            return EachArgument::Invalid(x.0, x.1);
        }
        let (v, vspan) = match &e[q4] {
            Entry::Tok(TokenTree::Literal { text, span }) => match read_string_literal(text.as_str()) {
                Some(v) => (v, *span),
                None => {
                    let x = error_spans_at(e, p4, scope);
                    return EachArgument::Invalid(x.0, x.1);
                },
            },
            _ => {
                let x = error_spans_at(e, p4, scope);
                return EachArgument::Invalid(x.0, x.1);
            },
        };
        let p5 = q4 + 1;
        if land_at(e, p5) >= e.len() {
            return EachArgument::Given(v, vspan);
        }
        let p6 = match punct_after_at(e, p5, ',', false) {
            Some(q) => q,
            None => {
                let s = punct_error_span_at(e, p5, scope);
                return EachArgument::Invalid(s, s);
            },
        };
        if land_at(e, p6) >= e.len() {
            return EachArgument::Given(v, vspan);
        }
        proof {
            lemma_skip_open_range(ev, p5 as int);
        }
        p = p6;
    }
}

/// What the arguments of the attribute `a` give, as [`each_arg`] says.
pub fn each_arg_of(a: &AttrRepr) -> (r: EachArgument)
    requires
        a.path@.len() > 0,
    ensures
        r@ == each_arg(*a),
{
    match &a.meta {
        MetaRepr::Path => EachArgument::Invalid(a.path[0].span, a.path[a.path.len() - 1].span),
        MetaRepr::NameValue { eq_span, .. } => EachArgument::Invalid(*eq_span, *eq_span),
        MetaRepr::List { span_close, tokens, .. } => {
            let e = linearized(tokens);
            if land_at(&e, 0) >= e.len() {
                EachArgument::Absent
            } else {
                nested_each_at(&e, 0, *span_close)
            }
        },
    }
}


/// A setter: the type of its argument, and whether it stores the argument
/// wrapped in `Some`.
#[derive(Debug)]
pub struct Setter {
    pub arg_ty: Vec<TokenTree>,
    pub wrap: bool,
}

/// A method that adds one element: its name (and the span of the literal
/// that gave it), and the type of the element.
#[derive(Debug)]
pub struct ExtendMethod {
    pub name: String,
    pub span: Span,
    pub elem_ty: Vec<TokenTree>,
}

/// The methods of the builder for one field: a setter, a method that adds
/// one element, both, or a setter and the error for a wrong `builder`
/// attribute ([`each_error_message`], with the spans it points to).
#[derive(Debug)]
pub enum FieldMethods {
    Setter(Setter),
    Extend(ExtendMethod),
    SetterAndExtend(Setter, ExtendMethod),
    SetterAndError(Setter, SynError),
}

/// The message of the error for a wrong `builder` attribute.
pub open spec fn each_error_message() -> Seq<char> {
    "expected `builder(each = \"...\")`"@
}

/// The message with which `build` fails while the field `name` is not set.
pub open spec fn unset_message(name: Seq<char>) -> Seq<char> {
    name + " is not set"@
}

/// What the builder holds for one field: the field's name and type; whether
/// it stores `Option<type>` (and `build` fails while the field is not set)
/// or the type itself (cloned as it is); whether it starts as an empty
/// `Vec` rather than `None`; the message with which `build` fails while a
/// wrapped field is not set; and its methods.
#[derive(Debug)]
pub struct BuilderField {
    pub name: IdentRepr,
    pub ty: Vec<TokenTree>,
    pub wrapped: bool,
    pub collects: bool,
    pub unset_message: String,
    pub methods: FieldMethods,
}

/// The code that `Builder` generates for a struct: the struct, the name and
/// documentation of its builder, and what the builder holds per field.
#[derive(Debug)]
pub struct BuilderPlan {
    pub target: IdentRepr,
    pub builder_name: String,
    pub doc: String,
    pub fields: Vec<BuilderField>,
}

/// The documentation of the builder of `name`.
pub open spec fn builder_doc(name: Seq<char>) -> Seq<char> {
    "Implements the [builder pattern] for [`"@ + name
        + "`].\n\n[builder pattern]: https://rust-lang-nursery.github.io/api-guidelines/type-safety.html#c-builder"@
}

/// Whether `s` is the setter of `f`: for `Option<T>` it takes `T` and wraps
/// it; for a field with a `builder` attribute it takes the field's type as
/// it is; otherwise it takes the field's type and wraps it.
pub open spec fn setter_of(f: FieldRepr, s: Setter) -> bool {
    match inner_type("Option"@, f.ty) {
        Some(t) => stream_view(s.arg_ty@) == t && s.wrap,
        None => stream_view(s.arg_ty@) == stream_view(f.ty.tokens@) && s.wrap == (builder_attr_index(f.attrs@) is None),
    }
}

/// Whether `m` is the method that adds one element to `f`, named `v` after
/// the literal at `sp`.
pub open spec fn extend_of(f: FieldRepr, m: ExtendMethod, v: Seq<char>, sp: Span) -> bool {
    &&& m.name@ == v
    &&& m.span == sp
    &&& inner_type("Vec"@, f.ty) == Some(stream_view(m.elem_ty@))
}

/// Whether `ms` are the methods of `f`: a setter; with a `builder`
/// attribute whose arguments are wrong, also the error; with `each = "v"`,
/// also the method `v` that adds one element, which takes the setter's
/// place when `v` is the field's own name.
pub open spec fn methods_of(f: FieldRepr, ms: FieldMethods) -> bool {
    match builder_attr_index(f.attrs@) {
        None => ms matches FieldMethods::Setter(s) && setter_of(f, s),
        Some(i) => match each_arg(f.attrs@[i]) {
            EachArg::Absent => ms matches FieldMethods::Setter(s) && setter_of(f, s),
            EachArg::Invalid(a, b) => ms matches FieldMethods::SetterAndError(s, x) && setter_of(f, s)
                && x@ == (SynErrorV { message: each_error_message(), start: a, end: b }),
            EachArg::Given(v, sp) => if v == f.ident.unwrap().text@ {
                ms matches FieldMethods::Extend(m) && extend_of(f, m, v, sp)
            } else {
                ms matches FieldMethods::SetterAndExtend(s, m) && setter_of(f, s) && extend_of(f, m, v, sp)
            },
        },
    }
}

/// Whether `b` is what the builder holds for the field `f`: the field's
/// type is kept as it is for an `Option` field or a field with a `builder`
/// attribute, and wrapped in `Option` otherwise; a field with a `builder`
/// attribute starts as an empty `Vec`.
pub open spec fn builder_field_of(f: FieldRepr, b: BuilderField) -> bool {
    let kept = inner_type("Option"@, f.ty) is Some || builder_attr_index(f.attrs@) is Some;
    &&& b.name.text@ == f.ident.unwrap().text@
    &&& b.name.span == f.ident.unwrap().span
    &&& stream_view(b.ty@) == stream_view(f.ty.tokens@)
    &&& b.wrapped == !kept
    &&& b.collects == (builder_attr_index(f.attrs@) is Some)
    &&& b.unset_message@ == unset_message(f.ident.unwrap().text@)
    &&& methods_of(f, b.methods)
}

/// Whether the field's attributes all have a path.
pub open spec fn attrs_have_paths(f: FieldRepr) -> bool {
    forall|j: int| 0 <= j < f.attrs@.len() ==> (#[trigger] f.attrs@[j]).path@.len() > 0
}

/// Whether a field with `each = ".."` has a type `Vec<T>`.
pub open spec fn each_field_is_vec(f: FieldRepr) -> bool {
    match builder_attr_index(f.attrs@) {
        Some(i) => each_arg(f.attrs@[i]) is Given ==> inner_type("Vec"@, f.ty) is Some,
        None => true,
    }
}

/// Whether `input` is a struct with named fields whose attributes have
/// paths.
pub open spec fn is_named_struct(input: DeriveInputRepr) -> bool {
    &&& input.data matches DataRepr::Struct { kind, fields } && kind is Named
    &&& forall|i: int| 0 <= i < input.data->fields@.len() ==> {
        &&& (#[trigger] input.data->fields@[i]).ident is Some
        &&& attrs_have_paths(input.data->fields@[i])
    }
}

/// Whether `plan` is what `Builder` generates for `input`.
pub open spec fn plan_of(input: DeriveInputRepr, plan: BuilderPlan) -> bool {
    &&& plan.target.text@ == input.ident.text@
    &&& plan.target.span == input.ident.span
    &&& plan.builder_name@ == input.ident.text@ + "Builder"@
    &&& plan.doc@ == builder_doc(input.ident.text@)
    &&& plan.fields@.len() == input.data->fields@.len()
    &&& forall|i: int| 0 <= i < plan.fields@.len() ==> builder_field_of(input.data->fields@[i], #[trigger] plan.fields@[i])
}

/// The rules of the generated builder for each field: the builder holds
/// the field wrapped in `Option` (and `build` fails while it is not set)
/// exactly when the field is neither an `Option` nor marked with a
/// `builder` attribute; a marked field starts as an empty `Vec`; without a
/// `builder` attribute the field gets one setter, which for `Option<T>`
/// takes `T` and stores `Some` of it.
pub proof fn builder_field_rules(input: DeriveInputRepr, plan: BuilderPlan, i: int)
    requires
        plan_of(input, plan),
        0 <= i < plan.fields@.len(),
    ensures
        plan.fields@[i].wrapped <==> inner_type("Option"@, input.data->fields@[i].ty) is None
            && builder_attr_index(input.data->fields@[i].attrs@) is None,
        plan.fields@[i].collects <==> builder_attr_index(input.data->fields@[i].attrs@) is Some,
        builder_attr_index(input.data->fields@[i].attrs@) is None ==> (plan.fields@[i].methods matches FieldMethods::Setter(s)
            && s.wrap && stream_view(s.arg_ty@) == match inner_type("Option"@, input.data->fields@[i].ty) {
                Some(t) => t,
                None => stream_view(input.data->fields@[i].ty.tokens@),
            }),
{
    assert(builder_field_of(input.data->fields@[i], plan.fields@[i]));
}

/// The setter of `f`, as [`setter_of`] says.
fn setter_for(f: &FieldRepr, has_attr: bool) -> (r: Setter)
    requires
        has_attr == (builder_attr_index(f.attrs@) is Some),
    ensures
        setter_of(*f, r),
{
    match ty_inner_type("Option", &f.ty) {
        Some(t) => Setter { arg_ty: copy_stream(t), wrap: true },
        None => Setter { arg_ty: copy_stream(&f.ty.tokens), wrap: !has_attr },
    }
}

/// The index of the first builder attribute agrees with [`builder_attr_index`].
proof fn lemma_builder_attr_index(attrs: Seq<AttrRepr>, r: Option<usize>)
    requires
        match r {
            Option::Some(i) => i < attrs.len() && is_builder_attr(attrs[i as int])
                && forall|j: int| 0 <= j < i ==> !is_builder_attr(#[trigger] attrs[j]),
            Option::None => forall|j: int| 0 <= j < attrs.len() ==> !is_builder_attr(#[trigger] attrs[j]),
        },
    ensures
        match r {
            Option::Some(i) => builder_attr_index(attrs) == Some(i as int),
            Option::None => builder_attr_index(attrs) is None,
        },
{
    if let Some(i) = r {
        assert(is_builder_attr(attrs[i as int]));
        let k = choose|k: int| 0 <= k < attrs.len() && is_builder_attr(#[trigger] attrs[k])
            && forall|j: int| 0 <= j < k ==> !is_builder_attr(#[trigger] attrs[j]);
        if k < i {
            assert(!is_builder_attr(attrs[k]));
        }
        if i < k {
            assert(!is_builder_attr(attrs[i as int]));
        }
    }
}

/// What the `builder` attribute at `attr` adds to the setter of `f`:
/// nothing (no attribute, or one without arguments); a method that adds one
/// element, with `true` when it is named as the field and so takes the
/// setter's place; or the error of a wrong argument, with its spans.
fn extend_method(f: &FieldRepr, attr: Option<usize>) -> (r: Option<(bool, Result<ExtendMethod, (Span, Span)>)>)
    requires
        f.ident is Some,
        attrs_have_paths(*f),
        each_field_is_vec(*f),
        attr matches Option::Some(i) ==> i < f.attrs@.len() && builder_attr_index(f.attrs@) == Some(i as int),
        attr is None ==> builder_attr_index(f.attrs@) is None,
    ensures
        match r {
            Option::None => attr is None || each_arg(f.attrs@[attr.unwrap() as int]) is Absent,
            Option::Some((same, Ok(m))) => attr matches Option::Some(i) && each_arg(f.attrs@[i as int]) matches EachArg::Given(v, sp)
                && extend_of(*f, m, v, sp) && same == (v == f.ident.unwrap().text@),
            Option::Some((same, Err((a, b)))) => !same && (attr matches Option::Some(i)
                && each_arg(f.attrs@[i as int]) == EachArg::Invalid(a, b)),
        },
{
    let i = match attr {
        Some(i) => i,
        None => {
            return None;
        },
    };
    proof {
        assert(f.attrs@[i as int].path@.len() > 0);
    }
    match each_arg_of(&f.attrs[i]) {
        EachArgument::Absent => None,
        EachArgument::Invalid(a, b) => Some((false, Err((a, b)))),
        EachArgument::Given(v, sp) => {
            let elem = match ty_inner_type("Vec", &f.ty) {
                Some(t) => copy_stream(t),
                None => Vec::new(),
            };
            let same = match &f.ident {
                Some(id) => v == id.text,
                None => false,
            };
            Some((same, Ok(ExtendMethod { name: v, span: sp, elem_ty: elem })))
        },
    }
}

/// What the builder holds for the field `f`.
fn builder_field(f: &FieldRepr) -> (r: BuilderField)
    requires
        f.ident is Some,
        attrs_have_paths(*f),
        each_field_is_vec(*f),
    ensures
        builder_field_of(*f, r),
{
    let attr = build_of(f);
    proof {
        lemma_builder_attr_index(f.attrs@, attr);
    }
    let has_attr = attr.is_some();
    let name = match &f.ident {
        Some(id) => IdentRepr { text: id.text.clone(), span: id.span },
        None => IdentRepr { text: String::new(), span: Span::call_site() },
    };
    let kept = ty_inner_type("Option", &f.ty).is_some() || has_attr;
    let setter = setter_for(f, has_attr);
    let methods = match extend_method(f, attr) {
        None => FieldMethods::Setter(setter),
        Some((true, Ok(m))) => FieldMethods::Extend(m),
        Some((_, Ok(m))) => FieldMethods::SetterAndExtend(setter, m),
        Some((_, Err((a, b)))) => FieldMethods::SetterAndError(
            setter,
            SynError { message: String::from_str("expected `builder(each = \"...\")`"), start: a, end: b },
        ),
    };
    let mut unset = name.text.clone();
    unset.append(" is not set");
    BuilderField { name, ty: copy_stream(&f.ty.tokens), wrapped: !kept, collects: has_attr, unset_message: unset, methods }
}

/// What `Builder` generates for `input`, a struct with named fields in
/// which every field with `each = ".."` has a type `Vec<T>`.
pub fn proc_builder(input: &DeriveInputRepr) -> (r: BuilderPlan)
    requires
        is_named_struct(*input),
        forall|i: int| 0 <= i < input.data->fields@.len() ==> each_field_is_vec(#[trigger] input.data->fields@[i]),
    ensures
        plan_of(*input, r),
{
    let fields = match &input.data {
        DataRepr::Struct { fields, .. } => fields,
        _ => {
            proof {
                assert(false);
            }
            return BuilderPlan { target: IdentRepr { text: String::new(), span: Span::call_site() }, builder_name: String::new(), doc: String::new(), fields: Vec::new() };
        },
    };
    let mut out: Vec<BuilderField> = Vec::new();
    let mut i: usize = 0;
    while i < fields.len()
        invariant
            i <= fields.len(),
            *fields == input.data->fields,
            is_named_struct(*input),
            forall|k: int| 0 <= k < input.data->fields@.len() ==> each_field_is_vec(#[trigger] input.data->fields@[k]),
            out@.len() == i,
            forall|k: int| 0 <= k < i ==> builder_field_of(fields@[k], #[trigger] out@[k]),
        decreases fields.len() - i,
    {
        let b = builder_field(&fields[i]);
        out.push(b);
        i = i + 1;
    }
    let name = &input.ident.text;
    let mut builder_name = name.clone();
    builder_name.append("Builder");
    let mut doc = String::from_str("Implements the [builder pattern] for [`");
    doc.append(name.as_str());
    doc.append("`].\n\n[builder pattern]: https://rust-lang-nursery.github.io/api-guidelines/type-safety.html#c-builder");
    BuilderPlan { target: IdentRepr { text: name.clone(), span: input.ident.span }, builder_name, doc, fields: out }
}

/// Whether every field with `each = ".."` of a struct has a type `Vec<T>`.
pub open spec fn each_fields_are_vecs(input: DeriveInputRepr) -> bool {
    forall|i: int| 0 <= i < input.data->fields@.len() ==> each_field_is_vec(#[trigger] input.data->fields@[i])
}

/// Whether `input` is a struct with named fields, as [`is_named_struct`]
/// says.
fn named_struct(input: &DeriveInputRepr) -> (r: bool)
    ensures
        r == is_named_struct(*input),
{
    let fields = match &input.data {
        DataRepr::Struct { kind: FieldsKind::Named, fields } => fields,
        _ => {
            return false;
        },
    };
    let mut i: usize = 0;
    while i < fields.len()
        invariant
            i <= fields.len(),
            input.data matches DataRepr::Struct { kind, .. } && kind is Named,
            *fields == input.data->fields,
            forall|k: int| 0 <= k < i ==> {
                &&& (#[trigger] fields@[k]).ident is Some
                &&& attrs_have_paths(fields@[k])
            },
        decreases fields.len() - i,
    {
        let f = &fields[i];
        if f.ident.is_none() {
            return false;
        }
        let mut j: usize = 0;
        while j < f.attrs.len()
            invariant
                j <= f.attrs.len(),
                i < fields.len(),
                *fields == input.data->fields,
                *f == fields@[i as int],
                forall|k: int| 0 <= k < j ==> (#[trigger] f.attrs@[k]).path@.len() > 0,
            decreases f.attrs.len() - j,
        {
            if f.attrs[j].path.len() == 0 {
                proof {
                    assert(!attrs_have_paths(input.data->fields@[i as int])) by {
                        assert(f.attrs@[j as int].path@.len() == 0);
                    }
                }
                return false;
            }
            j = j + 1;
        }
        i = i + 1;
    }
    true
}

/// What `Builder` generates for `input`, or `None` where the generator
/// stops: an item that is no struct with named fields, or a field with
/// `each = ".."` whose type is not `Vec<T>`.
pub fn try_proc_builder(input: &DeriveInputRepr) -> (r: Option<BuilderPlan>)
    ensures
        match r {
            Option::Some(p) => is_named_struct(*input) && each_fields_are_vecs(*input) && plan_of(*input, p),
            Option::None => !is_named_struct(*input) || !each_fields_are_vecs(*input),
        },
{
    if !named_struct(input) {
        return None;
    }
    let fields = match &input.data {
        DataRepr::Struct { fields, .. } => fields,
        _ => {
            return None;
        },
    };
    let mut i: usize = 0;
    while i < fields.len()
        invariant
            i <= fields.len(),
            *fields == input.data->fields,
            is_named_struct(*input),
            forall|k: int| 0 <= k < i ==> each_field_is_vec(#[trigger] fields@[k]),
        decreases fields.len() - i,
    {
        let f = &fields[i];
        let attr = build_of(f);
        proof {
            lemma_builder_attr_index(f.attrs@, attr);
        }
        if let Some(j) = attr {
            let given = match each_arg_of(&f.attrs[j]) {
                EachArgument::Given(_, _) => true,
                _ => false,
            };
            if given && ty_inner_type("Vec", &f.ty).is_none() {
                return None;
            }
        }
        i = i + 1;
    }
    Some(proc_builder(input))
}

} // verus!
