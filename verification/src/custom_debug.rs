//! The `CustomDebug` derive: a `Debug` impl that prints every named field,
//! with the format given by a `#[debug = ".."]` attribute where there is
//! one, and that bounds by `Debug` only the type parameters it needs to.

use vstd::prelude::*;
use crate::cursor::{SynError, SynErrorV, error_spanned};
use crate::derive_input::{AttrRepr, DataRepr, DeriveInputRepr, FieldRepr, FieldsKind, GenericArgRepr,
    GenericParamRepr, IdentRepr, MetaRepr, PathArgsRepr, TypePathRepr};
use crate::literal::{read_string_literal, string_literal};
use crate::text::text_is;
use crate::tokens::{Span, Tok, TokenTree, copy_stream, stream_view};

verus! {

/// The error for an item that is no struct with named fields.
pub open spec fn not_struct_error(input: DeriveInputRepr) -> SynErrorV {
    SynErrorV { message: "Must define on a Struct, not Enum"@, start: input.first_span, end: input.last_span }
}

/// The fields of `input`, when it is a struct with named fields.
pub open spec fn named_fields(input: DeriveInputRepr) -> Option<Seq<FieldRepr>> {
    match input.data {
        DataRepr::Struct { kind, fields } => if kind is Named { Some(fields@) } else { None },
        _ => None,
    }
}

/// The path of an attribute as printed: its segments joined by `::`, with
/// a leading `::` when the path has one.
pub open spec fn path_text(path: Seq<IdentRepr>, leading: bool) -> Seq<char>
    decreases path.len(),
{
    if path.len() == 0 {
        Seq::empty()
    } else {
        path_text(path.drop_last(), leading) + (if path.len() > 1 || leading { "::"@ } else { Seq::empty() }) + path.last().text@
    }
}

/// The string that a value written as `value` denotes, when it is one
/// string literal.
pub open spec fn string_value(value: Seq<Tok>) -> Option<Seq<char>> {
    if value.len() == 1 {
        match value[0] {
            Tok::Literal { text, .. } => string_literal(text),
            _ => None,
        }
    } else {
        None
    }
}

/// The format that the attributes of a field give, from the attribute `i`
/// on: the first attribute whose path starts with `debug` must be
/// `debug = value`; when `value` is a string literal it is the format, else
/// the search goes on.
pub open spec fn format_from(attrs: Seq<AttrRepr>, i: int) -> Result<Option<Seq<char>>, SynErrorV>
    decreases attrs.len() - i,
{
    if i < 0 || i >= attrs.len() {
        Ok(None)
    } else {
        let a = attrs[i];
        if a.path@[0].text@ == "debug"@ {
            match a.meta {
                MetaRepr::Path => Err(SynErrorV {
                    message: "expected a value for this attribute: `"@ + path_text(a.path@, a.leading_colon) + " = ...`"@,
                    start: a.path@[0].span,
                    end: a.path@.last().span,
                }),
                MetaRepr::List { span_open, .. } => Err(error_spanned(span_open, "expected `=`"@)),
                MetaRepr::NameValue { value, .. } => match string_value(stream_view(value@)) {
                    Some(v) => Ok(Some(v)),
                    None => format_from(attrs, i + 1),
                },
            }
        } else {
            format_from(attrs, i + 1)
        }
    }
}

/// The first error among the formats of `fields`, from the field `i` on.
pub open spec fn fields_error(fields: Seq<FieldRepr>, i: int) -> Option<SynErrorV>
    decreases fields.len() - i,
{
    if i < 0 || i >= fields.len() {
        None
    } else {
        match format_from(fields[i].attrs@, 0) {
            Err(x) => Some(x),
            Ok(_) => fields_error(fields, i + 1),
        }
    }
}

/// The error that `CustomDebug` reports for `input`, if any.
pub open spec fn debug_error(input: DeriveInputRepr) -> Option<SynErrorV> {
    match named_fields(input) {
        None => Some(not_struct_error(input)),
        Some(fields) => fields_error(fields, 0),
    }
}

/// The format of a field: the one its attributes give, or `{:?}`.
pub open spec fn field_format(f: FieldRepr) -> Seq<char> {
    match format_from(f.attrs@, 0) {
        Ok(Some(v)) => v,
        _ => "{:?}"@,
    }
}

/// Whether the attributes of the fields have paths and the path types of
/// the fields have segments.
pub open spec fn fields_well_formed(fields: Seq<FieldRepr>) -> bool {
    forall|i: int| 0 <= i < fields.len() ==> {
        &&& (#[trigger] fields[i]).ident is Some
        &&& forall|j: int| 0 <= j < fields[i].attrs@.len() ==> (#[trigger] fields[i].attrs@[j]).path@.len() > 0
        &&& fields[i].ty.path matches Some(segs) ==> segs@.len() > 0
    }
}

/// Attributes whose path does not start with `debug` do not count for the
/// format: the format read from the start is the one read from the first
/// attribute that might start with `debug`.
pub proof fn format_skips_other_attributes(attrs: Seq<AttrRepr>, k: int)
    requires
        0 <= k <= attrs.len(),
        forall|j: int| 0 <= j < k ==> (#[trigger] attrs[j]).path@[0].text@ != "debug"@,
    ensures
        format_from(attrs, 0) == format_from(attrs, k),
    decreases k,
{
    if k > 0 {
        format_skips_other_attributes(attrs, k - 1);
        assert(attrs[k - 1].path@[0].text@ != "debug"@);
    }
}

/// A field whose first attribute with a path starting with `debug` is
/// `debug = "s"` has the format `s`, wherever that attribute stands among
/// the others.
pub proof fn first_debug_attribute_gives_format(attrs: Seq<AttrRepr>, k: int, s: Seq<char>)
    requires
        0 <= k < attrs.len(),
        forall|j: int| 0 <= j < k ==> (#[trigger] attrs[j]).path@[0].text@ != "debug"@,
        attrs[k].path@[0].text@ == "debug"@,
        attrs[k].meta matches MetaRepr::NameValue { value, .. } && string_value(stream_view(value@)) == Some(s),
    ensures
        format_from(attrs, 0) == Ok::<Option<Seq<char>>, SynErrorV>(Some(s)),
{
    format_skips_other_attributes(attrs, k);
}

/// One printed field: its name and format.
#[derive(Debug)]
pub struct DebugField {
    pub name: IdentRepr,
    pub format: String,
}

/// The `Debug` impl that `CustomDebug` generates: the struct, its printed
/// fields, which generic parameters get a `Debug` bound (one flag per
/// parameter), and the types bounded by `Debug` in the `where` clause.
#[derive(Debug)]
pub struct DebugPlan {
    pub name: IdentRepr,
    pub fields: Vec<DebugField>,
    pub bounded: Vec<bool>,
    pub where_types: Vec<Vec<TokenTree>>,
}

/// The path of an attribute as printed, as [`path_text`] says.
fn path_string(path: &Vec<IdentRepr>, leading: bool) -> (r: String)
    ensures
        r@ == path_text(path@, leading),
{
    let mut r = String::new();
    let mut i: usize = 0;
    while i < path.len()
        invariant
            i <= path.len(),
            r@ == path_text(path@.take(i as int), leading),
        decreases path.len() - i,
    {
        proof {
            assert(path@.take(i + 1).drop_last() =~= path@.take(i as int));
            reveal_strlit("::");
        }
        if i > 0 || leading {
            r.append("::");
        }
        r.append(path[i].text.as_str());
        i = i + 1;
    }
    proof {
        assert(path@.take(path.len() as int) =~= path@);
    }
    r
}

/// The string a value denotes, as [`string_value`] says.
fn string_value_of(value: &Vec<TokenTree>) -> (r: Option<String>)
    ensures
        match r {
            Option::Some(v) => string_value(stream_view(value@)) == Some(v@),
            Option::None => string_value(stream_view(value@)) is None,
        },
{
    proof {
        crate::tokens::lemma_stream_view(value@);
    }
    if value.len() != 1 {
        return None;
    }
    match &value[0] {
        TokenTree::Literal { text, .. } => read_string_literal(text.as_str()),
        _ => None,
    }
}

/// The format that the attributes of a field give, as [`format_from`] says
/// from the first attribute on.
pub fn get_custom_format_fields(field: &FieldRepr) -> (r: Result<Option<String>, SynError>)
    requires
        forall|j: int| 0 <= j < field.attrs@.len() ==> (#[trigger] field.attrs@[j]).path@.len() > 0,
    ensures
        match r {
            Ok(Some(v)) => format_from(field.attrs@, 0) == Ok::<Option<Seq<char>>, SynErrorV>(Some(v@)),
            Ok(None) => format_from(field.attrs@, 0) == Ok::<Option<Seq<char>>, SynErrorV>(None),
            Err(x) => format_from(field.attrs@, 0) == Err::<Option<Seq<char>>, SynErrorV>(x@),
        },
{
    let mut i: usize = 0;
    while i < field.attrs.len()
        invariant
            i <= field.attrs.len(),
            forall|j: int| 0 <= j < field.attrs@.len() ==> (#[trigger] field.attrs@[j]).path@.len() > 0,
            format_from(field.attrs@, 0) == format_from(field.attrs@, i as int),
        decreases field.attrs.len() - i,
    {
        let a = &field.attrs[i];
        assert(a.path@.len() > 0);
        if text_is(&a.path[0].text, "debug") {
            match &a.meta {
                MetaRepr::Path => {
                    let mut msg = String::from_str("expected a value for this attribute: `");
                    let p = path_string(&a.path, a.leading_colon);
                    msg.append(p.as_str());
                    msg.append(" = ...`");
                    return Err(SynError { message: msg, start: a.path[0].span, end: a.path[a.path.len() - 1].span });
                },
                MetaRepr::List { span_open, .. } => {
                    return Err(SynError { message: String::from_str("expected `=`"), start: *span_open, end: *span_open });
                },
                MetaRepr::NameValue { value, .. } => {
                    match string_value_of(value) {
                        Some(v) => {
                            return Ok(Some(v));
                        },
                        None => {},
                    }
                },
            }
        }
        i = i + 1;
    }
    Ok(None)
}


/// The identifier of the first segment of a field's type, when the type is
/// a path.
pub open spec fn field_head(f: FieldRepr) -> Option<Seq<char>> {
    match f.ty.path {
        Some(segs) => Some(segs@[0].ident@),
        None => None,
    }
}

/// For a field of type `..::PhantomData<A, ..>` whose first argument `A` is
/// a path type, the identifier of the first segment of `A`.
pub open spec fn phantom_param(f: FieldRepr) -> Option<Seq<char>> {
    match f.ty.path {
        Some(segs) => if segs@.len() > 0 && segs@.last().ident@ == "PhantomData"@ {
            match segs@.last().arguments {
                PathArgsRepr::AngleBracketed(args) => if args@.len() > 0 {
                    match args@[0] {
                        GenericArgRepr::Type { path_head: Some(h), .. } => Some(h@),
                        _ => None,
                    }
                } else {
                    None
                },
                _ => None,
            }
        } else {
            None
        },
        None => None,
    }
}

/// Whether `name` is a type parameter of `input`.
pub open spec fn is_type_param(input: DeriveInputRepr, name: Seq<char>) -> bool {
    exists|i: int| 0 <= i < input.generics@.len() && (#[trigger] input.generics@[i] matches GenericParamRepr::Type(n) && n@ == name)
}

/// Whether a path type met in `input` is an associated type of one of its
/// type parameters: a path of two segments or more starting with a type
/// parameter.
pub open spec fn is_assoc(input: DeriveInputRepr, p: TypePathRepr) -> bool {
    p.segment_count >= 2 && is_type_param(input, p.first@)
}

/// Whether `input` uses an associated type of `name`.
pub open spec fn has_assoc(input: DeriveInputRepr, name: Seq<char>) -> bool {
    exists|i: int| 0 <= i < input.type_paths@.len() && is_assoc(input, #[trigger] input.type_paths@[i])
        && input.type_paths@[i].first@ == name
}

/// Whether some field's type starts with `name`.
pub open spec fn used_directly(fields: Seq<FieldRepr>, name: Seq<char>) -> bool {
    exists|i: int| 0 <= i < fields.len() && field_head(#[trigger] fields[i]) == Some(name)
}

/// Whether some field is `PhantomData` of a type starting with `name`.
pub open spec fn in_phantom(fields: Seq<FieldRepr>, name: Seq<char>) -> bool {
    exists|i: int| 0 <= i < fields.len() && phantom_param(#[trigger] fields[i]) == Some(name)
}

/// Whether the type parameter `name` gets a `Debug` bound: it does unless
/// it appears only inside `PhantomData` or only through its associated
/// types, that is unless one of these holds and no field's type starts with
/// it.
pub open spec fn gets_bound(input: DeriveInputRepr, fields: Seq<FieldRepr>, name: Seq<char>) -> bool {
    !((in_phantom(fields, name) || has_assoc(input, name)) && !used_directly(fields, name))
}

/// The texts of a sequence of strings.
pub open spec fn texts(v: Seq<String>) -> Seq<Seq<char>> {
    v.map_values(|s: String| s@)
}

/// The type parameters with associated types used in `input`, in the order
/// of their first use, among the first `n` path types met.
pub open spec fn keys_upto(input: DeriveInputRepr, n: int) -> Seq<Seq<char>>
    decreases n,
{
    if n <= 0 || n > input.type_paths@.len() {
        Seq::empty()
    } else {
        let prev = keys_upto(input, n - 1);
        let p = input.type_paths@[n - 1];
        if is_assoc(input, p) && !prev.contains(p.first@) {
            prev.push(p.first@)
        } else {
            prev
        }
    }
}

/// The associated types of `k` used in `input`, in order, among the first
/// `n` path types met.
pub open spec fn assoc_upto(input: DeriveInputRepr, k: Seq<char>, n: int) -> Seq<Seq<Tok>>
    decreases n,
{
    if n <= 0 || n > input.type_paths@.len() {
        Seq::empty()
    } else {
        let prev = assoc_upto(input, k, n - 1);
        let p = input.type_paths@[n - 1];
        if is_assoc(input, p) && p.first@ == k {
            prev.push(stream_view(p.tokens@))
        } else {
            prev
        }
    }
}

/// The associated types of the first `j` keys, grouped by key.
pub open spec fn grouped_upto(input: DeriveInputRepr, keys: Seq<Seq<char>>, j: int) -> Seq<Seq<Tok>>
    decreases j,
{
    if j <= 0 || j > keys.len() {
        Seq::empty()
    } else {
        grouped_upto(input, keys, j - 1) + assoc_upto(input, keys[j - 1], input.type_paths@.len() as int)
    }
}

/// The types that the `where` clause bounds by `Debug`: every associated
/// type of a type parameter used in `input`, grouped by parameter, the
/// parameters in the order of their first use and each group in the order
/// of use.
pub open spec fn where_types(input: DeriveInputRepr) -> Seq<Seq<Tok>> {
    let keys = keys_upto(input, input.type_paths@.len() as int);
    grouped_upto(input, keys, keys.len() as int)
}

/// The values of a sequence of streams.
pub open spec fn streams_view(v: Seq<Vec<TokenTree>>) -> Seq<Seq<Tok>> {
    v.map_values(|t: Vec<TokenTree>| stream_view(t@))
}

/// Whether `plan` is the `Debug` impl generated for `input`, whose named
/// fields are `fields`.
pub open spec fn debug_plan_of(input: DeriveInputRepr, fields: Seq<FieldRepr>, plan: DebugPlan) -> bool {
    &&& plan.name.text@ == input.ident.text@
    &&& plan.name.span == input.ident.span
    &&& plan.fields@.len() == fields.len()
    &&& forall|i: int| 0 <= i < fields.len() ==> {
        &&& (#[trigger] plan.fields@[i]).name.text@ == fields[i].ident.unwrap().text@
        &&& plan.fields@[i].name.span == fields[i].ident.unwrap().span
        &&& plan.fields@[i].format@ == field_format(fields[i])
    }
    &&& plan.bounded@.len() == input.generics@.len()
    &&& forall|i: int| 0 <= i < input.generics@.len() ==> (#[trigger] plan.bounded@[i]) == match input.generics@[i] {
        GenericParamRepr::Type(n) => gets_bound(input, fields, n@),
        _ => false,
    }
    &&& streams_view(plan.where_types@) == where_types(input)
}

/// Whether the path type at `k` of `input` is an associated type of the
/// type parameter `key` written `t`.
pub open spec fn assoc_type_at(input: DeriveInputRepr, k: int, key: Seq<char>, t: Seq<Tok>) -> bool {
    &&& 0 <= k < input.type_paths@.len()
    &&& is_assoc(input, input.type_paths@[k])
    &&& input.type_paths@[k].first@ == key
    &&& stream_view(input.type_paths@[k].tokens@) == t
}

/// The associated types of `key` among the first `n` path types are those
/// met there.
proof fn lemma_assoc_upto_contains(input: DeriveInputRepr, key: Seq<char>, n: int, t: Seq<Tok>)
    requires
        0 <= n <= input.type_paths@.len(),
    ensures
        assoc_upto(input, key, n).contains(t) <==> exists|k: int| 0 <= k < n && #[trigger] assoc_type_at(input, k, key, t),
    decreases n,
{
    if n > 0 {
        lemma_assoc_upto_contains(input, key, n - 1, t);
        let prev = assoc_upto(input, key, n - 1);
        let p = input.type_paths@[n - 1];
        if assoc_upto(input, key, n).contains(t) {
            let i = choose|i: int| 0 <= i < assoc_upto(input, key, n).len() && assoc_upto(input, key, n)[i] == t;
            if i < prev.len() {
                assert(prev[i] == t);
                assert(prev.contains(t));
            } else {
                assert(assoc_type_at(input, n - 1, key, t));
            }
        }
        if exists|k: int| 0 <= k < n && #[trigger] assoc_type_at(input, k, key, t) {
            let k = choose|k: int| 0 <= k < n && #[trigger] assoc_type_at(input, k, key, t);
            if k < n - 1 {
                let i = choose|i: int| 0 <= i < prev.len() && prev[i] == t;
                if is_assoc(input, p) && p.first@ == key {
                    assert(assoc_upto(input, key, n)[i] == t);
                } else {
                    assert(assoc_upto(input, key, n) == prev);
                }
            } else {
                assert(assoc_upto(input, key, n) == prev.push(t));
                assert(assoc_upto(input, key, n)[prev.len() as int] == t);
            }
        }
    }
}

/// The keys among the first `n` path types are the type parameters with an
/// associated type met there.
proof fn lemma_keys_upto_contains(input: DeriveInputRepr, n: int, key: Seq<char>)
    requires
        0 <= n <= input.type_paths@.len(),
    ensures
        keys_upto(input, n).contains(key) <==> exists|k: int| 0 <= k < n
            && is_assoc(input, #[trigger] input.type_paths@[k]) && input.type_paths@[k].first@ == key,
    decreases n,
{
    if n > 0 {
        lemma_keys_upto_contains(input, n - 1, key);
        let prev = keys_upto(input, n - 1);
        let p = input.type_paths@[n - 1];
        if keys_upto(input, n).contains(key) {
            let i = choose|i: int| 0 <= i < keys_upto(input, n).len() && keys_upto(input, n)[i] == key;
            if i < prev.len() {
                assert(prev[i] == key);
                assert(prev.contains(key));
            } else {
                assert(is_assoc(input, input.type_paths@[n - 1]) && input.type_paths@[n - 1].first@ == key);
            }
        }
        if exists|k: int| 0 <= k < n && is_assoc(input, #[trigger] input.type_paths@[k]) && input.type_paths@[k].first@ == key {
            let k = choose|k: int| 0 <= k < n && is_assoc(input, #[trigger] input.type_paths@[k]) && input.type_paths@[k].first@ == key;
            if k < n - 1 {
                let i = choose|i: int| 0 <= i < prev.len() && prev[i] == key;
                if is_assoc(input, p) && !prev.contains(p.first@) {
                    assert(keys_upto(input, n)[i] == key);
                } else {
                    assert(keys_upto(input, n) == prev);
                }
            } else {
                if prev.contains(key) {
                    let i = choose|i: int| 0 <= i < prev.len() && prev[i] == key;
                    assert(keys_upto(input, n) == prev);
                } else {
                    assert(keys_upto(input, n) == prev.push(key));
                    assert(keys_upto(input, n)[prev.len() as int] == key);
                }
            }
        }
    }
}

/// The groups of the first `j` keys hold what one of those groups holds.
proof fn lemma_grouped_upto_contains(input: DeriveInputRepr, keys: Seq<Seq<char>>, j: int, t: Seq<Tok>)
    requires
        0 <= j <= keys.len(),
    ensures
        grouped_upto(input, keys, j).contains(t) <==> exists|i: int| 0 <= i < j
            && (#[trigger] assoc_upto(input, keys[i], input.type_paths@.len() as int)).contains(t),
    decreases j,
{
    if j > 0 {
        lemma_grouped_upto_contains(input, keys, j - 1, t);
        let prev = grouped_upto(input, keys, j - 1);
        let last = assoc_upto(input, keys[j - 1], input.type_paths@.len() as int);
        assert(grouped_upto(input, keys, j) == prev + last);
        if (prev + last).contains(t) {
            let x = choose|x: int| 0 <= x < (prev + last).len() && (prev + last)[x] == t;
            if x < prev.len() {
                assert(prev[x] == t);
                assert(prev.contains(t));
            } else {
                assert(last[x - prev.len()] == t);
                assert(last.contains(t));
            }
        }
        if exists|i: int| 0 <= i < j && (#[trigger] assoc_upto(input, keys[i], input.type_paths@.len() as int)).contains(t) {
            let i = choose|i: int| 0 <= i < j && (#[trigger] assoc_upto(input, keys[i], input.type_paths@.len() as int)).contains(t);
            if i < j - 1 {
                let x = choose|x: int| 0 <= x < prev.len() && prev[x] == t;
                assert((prev + last)[x] == t);
            } else {
                let x = choose|x: int| 0 <= x < last.len() && last[x] == t;
                assert((prev + last)[prev.len() + x] == t);
            }
        }
    }
}

/// The `where` clause of the generated impl bounds by `Debug` exactly the
/// associated types of type parameters that the item uses: a type is
/// bounded if and only if some path type met in the item, of two segments
/// or more and starting with a type parameter, is written that way.
pub proof fn where_clause_bounds_used_assoc_types(input: DeriveInputRepr, t: Seq<Tok>)
    ensures
        where_types(input).contains(t) <==> exists|k: int| 0 <= k < input.type_paths@.len()
            && is_assoc(input, #[trigger] input.type_paths@[k]) && stream_view(input.type_paths@[k].tokens@) == t,
{
    let n = input.type_paths@.len() as int;
    let keys = keys_upto(input, n);
    lemma_grouped_upto_contains(input, keys, keys.len() as int, t);
    if where_types(input).contains(t) {
        let i = choose|i: int| 0 <= i < keys.len() && (#[trigger] assoc_upto(input, keys[i], n)).contains(t);
        lemma_assoc_upto_contains(input, keys[i], n, t);
        let k = choose|k: int| 0 <= k < n && #[trigger] assoc_type_at(input, k, keys[i], t);
        assert(is_assoc(input, input.type_paths@[k]) && stream_view(input.type_paths@[k].tokens@) == t);
    }
    if exists|k: int| 0 <= k < n && is_assoc(input, #[trigger] input.type_paths@[k]) && stream_view(input.type_paths@[k].tokens@) == t {
        let k = choose|k: int| 0 <= k < n && is_assoc(input, #[trigger] input.type_paths@[k]) && stream_view(input.type_paths@[k].tokens@) == t;
        let key = input.type_paths@[k].first@;
        lemma_keys_upto_contains(input, n, key);
        let i = choose|i: int| 0 <= i < keys.len() && keys[i] == key;
        lemma_assoc_upto_contains(input, key, n, t);
        assert(assoc_type_at(input, k, key, t));
        assert(assoc_upto(input, keys[i], n).contains(t));
    }
}

/// How many times `t` occurs in `s`.
pub open spec fn occurrences(s: Seq<Seq<Tok>>, t: Seq<Tok>) -> nat
    decreases s.len(),
{
    if s.len() == 0 {
        0
    } else {
        occurrences(s.drop_last(), t) + (if s.last() == t { 1nat } else { 0nat })
    }
}

/// How many of the first `n` path types met in `input` are associated
/// types of a type parameter written `t`.
pub open spec fn assoc_uses(input: DeriveInputRepr, t: Seq<Tok>, n: int) -> nat
    decreases n,
{
    if n <= 0 || n > input.type_paths@.len() {
        0
    } else {
        assoc_uses(input, t, n - 1) + (if is_assoc(input, input.type_paths@[n - 1])
            && stream_view(input.type_paths@[n - 1].tokens@) == t { 1nat } else { 0nat })
    }
}

/// How many of the first `n` path types met in `input` are associated
/// types of `key` written `t`.
pub open spec fn key_uses(input: DeriveInputRepr, key: Seq<char>, t: Seq<Tok>, n: int) -> nat
    decreases n,
{
    if n <= 0 || n > input.type_paths@.len() {
        0
    } else {
        key_uses(input, key, t, n - 1) + (if is_assoc(input, input.type_paths@[n - 1])
            && input.type_paths@[n - 1].first@ == key
            && stream_view(input.type_paths@[n - 1].tokens@) == t { 1nat } else { 0nat })
    }
}

/// The sum of [`key_uses`] over the first `j` keys of `keys`.
pub open spec fn keys_uses(input: DeriveInputRepr, keys: Seq<Seq<char>>, t: Seq<Tok>, n: int, j: int) -> nat
    decreases j,
{
    if j <= 0 || j > keys.len() {
        0
    } else {
        keys_uses(input, keys, t, n, j - 1) + key_uses(input, keys[j - 1], t, n)
    }
}

/// How many of the first `j` keys of `keys` are `f`.
pub open spec fn key_count(keys: Seq<Seq<char>>, f: Seq<char>, j: int) -> nat
    decreases j,
{
    if j <= 0 || j > keys.len() {
        0
    } else {
        key_count(keys, f, j - 1) + (if keys[j - 1] == f { 1nat } else { 0nat })
    }
}

proof fn lemma_occurrences_add(a: Seq<Seq<Tok>>, b: Seq<Seq<Tok>>, t: Seq<Tok>)
    ensures
        occurrences(a + b, t) == occurrences(a, t) + occurrences(b, t),
    decreases b.len(),
{
    if b.len() == 0 {
        assert(a + b =~= a);
    } else {
        lemma_occurrences_add(a, b.drop_last(), t);
        assert((a + b).drop_last() =~= a + b.drop_last());
    }
}

proof fn lemma_assoc_upto_occurrences(input: DeriveInputRepr, key: Seq<char>, t: Seq<Tok>, n: int)
    requires
        0 <= n <= input.type_paths@.len(),
    ensures
        occurrences(assoc_upto(input, key, n), t) == key_uses(input, key, t, n),
    decreases n,
{
    if n > 0 {
        lemma_assoc_upto_occurrences(input, key, t, n - 1);
        let prev = assoc_upto(input, key, n - 1);
        let p = input.type_paths@[n - 1];
        if is_assoc(input, p) && p.first@ == key {
            assert(assoc_upto(input, key, n).drop_last() =~= prev);
        }
    }
}

proof fn lemma_grouped_upto_occurrences(input: DeriveInputRepr, keys: Seq<Seq<char>>, t: Seq<Tok>, j: int)
    requires
        0 <= j <= keys.len(),
    ensures
        occurrences(grouped_upto(input, keys, j), t)
            == keys_uses(input, keys, t, input.type_paths@.len() as int, j),
    decreases j,
{
    let n = input.type_paths@.len() as int;
    if j > 0 {
        lemma_grouped_upto_occurrences(input, keys, t, j - 1);
        lemma_occurrences_add(grouped_upto(input, keys, j - 1), assoc_upto(input, keys[j - 1], n), t);
        lemma_assoc_upto_occurrences(input, keys[j - 1], t, n);
    } else {
        assert(grouped_upto(input, keys, j).len() == 0);
    }
}

/// One more path type adds to each key's count what it adds to that key.
proof fn lemma_keys_uses_step(input: DeriveInputRepr, keys: Seq<Seq<char>>, t: Seq<Tok>, n: int, j: int)
    requires
        0 <= n < input.type_paths@.len(),
        0 <= j <= keys.len(),
    ensures
        keys_uses(input, keys, t, n + 1, j) == keys_uses(input, keys, t, n, j)
            + (if is_assoc(input, input.type_paths@[n]) && stream_view(input.type_paths@[n].tokens@) == t {
                key_count(keys, input.type_paths@[n].first@, j)
            } else {
                0nat
            }),
    decreases j,
{
    if j > 0 {
        lemma_keys_uses_step(input, keys, t, n, j - 1);
    }
}

/// In a list without repeats, a key occurs once or not at all.
proof fn lemma_key_count_distinct(keys: Seq<Seq<char>>, f: Seq<char>, j: int)
    requires
        0 <= j <= keys.len(),
        forall|a: int, b: int| 0 <= a < b < keys.len() ==> keys[a] != keys[b],
    ensures
        key_count(keys, f, j) == (if exists|i: int| 0 <= i < j && keys[i] == f { 1nat } else { 0nat }),
    decreases j,
{
    if j > 0 {
        lemma_key_count_distinct(keys, f, j - 1);
        if keys[j - 1] == f {
            assert(!exists|i: int| 0 <= i < j - 1 && keys[i] == f);
        }
        if exists|i: int| 0 <= i < j && keys[i] == f {
            let i = choose|i: int| 0 <= i < j && keys[i] == f;
            if i < j - 1 {
                assert(exists|i: int| 0 <= i < j - 1 && keys[i] == f);
            }
        }
    }
}

/// The count over the first `j` keys of a list does not change when a key
/// is added at its end.
proof fn lemma_keys_uses_push(input: DeriveInputRepr, keys: Seq<Seq<char>>, f: Seq<char>, t: Seq<Tok>, n: int, j: int)
    requires
        0 <= j <= keys.len(),
    ensures
        keys_uses(input, keys.push(f), t, n, j) == keys_uses(input, keys, t, n, j),
    decreases j,
{
    if j > 0 {
        lemma_keys_uses_push(input, keys, f, t, n, j - 1);
        assert(keys.push(f)[j - 1] == keys[j - 1]);
    }
}

/// A key with no associated type among the first `n` path types counts
/// nothing there.
proof fn lemma_key_uses_none(input: DeriveInputRepr, key: Seq<char>, t: Seq<Tok>, n: int)
    requires
        0 <= n <= input.type_paths@.len(),
        !exists|k: int| 0 <= k < n && is_assoc(input, #[trigger] input.type_paths@[k]) && input.type_paths@[k].first@ == key,
    ensures
        key_uses(input, key, t, n) == 0,
    decreases n,
{
    if n > 0 {
        lemma_key_uses_none(input, key, t, n - 1);
    }
}

/// The keys never repeat.
proof fn lemma_keys_upto_distinct(input: DeriveInputRepr, n: int)
    ensures
        forall|a: int, b: int| 0 <= a < b < keys_upto(input, n).len() ==> keys_upto(input, n)[a] != keys_upto(input, n)[b],
    decreases n,
{
    if n > 0 && n <= input.type_paths@.len() {
        lemma_keys_upto_distinct(input, n - 1);
        let prev = keys_upto(input, n - 1);
        let p = input.type_paths@[n - 1];
        if is_assoc(input, p) && !prev.contains(p.first@) {
            let k = keys_upto(input, n);
            assert forall|a: int, b: int| 0 <= a < b < k.len() implies k[a] != k[b] by {
                if b == prev.len() {
                    assert(k[a] == prev[a]);
                    if k[a] == k[b] {
                        assert(prev.contains(p.first@));
                    }
                } else {
                    assert(k[a] == prev[a] && k[b] == prev[b]);
                }
            }
        }
    }
}

/// Summed over the keys met so far, the counts per key are the count of
/// all associated types written `t`.
proof fn lemma_keys_uses_total(input: DeriveInputRepr, t: Seq<Tok>, n: int)
    requires
        0 <= n <= input.type_paths@.len(),
    ensures
        keys_uses(input, keys_upto(input, n), t, n, keys_upto(input, n).len() as int) == assoc_uses(input, t, n),
    decreases n,
{
    if n > 0 {
        lemma_keys_uses_total(input, t, n - 1);
        let m = n - 1;
        let k = keys_upto(input, m);
        let p = input.type_paths@[m];
        let f = p.first@;
        let hit = is_assoc(input, p) && stream_view(p.tokens@) == t;
        lemma_keys_upto_distinct(input, m);
        lemma_keys_uses_step(input, k, t, m, k.len() as int);
        lemma_key_count_distinct(k, f, k.len() as int);
        if is_assoc(input, p) && !k.contains(f) {
            assert(keys_upto(input, n) == k.push(f));
            assert(!exists|i: int| 0 <= i < k.len() && k[i] == f);
            lemma_keys_uses_push(input, k, f, t, n, k.len() as int);
            lemma_keys_upto_contains(input, m, f);
            lemma_key_uses_none(input, f, t, m);
            assert(k.push(f)[k.len() as int] == f);
            assert(keys_uses(input, k.push(f), t, n, (k.len() + 1) as int)
                == keys_uses(input, k.push(f), t, n, k.len() as int) + key_uses(input, f, t, n));
        } else {
            assert(keys_upto(input, n) == k);
            if is_assoc(input, p) {
                let i = choose|i: int| 0 <= i < k.len() && k[i] == f;
                assert(exists|i: int| 0 <= i < k.len() && k[i] == f);
            }
        }
    }
}

/// The `where` clause of the generated impl keeps one `Debug` bound per use:
/// each type is bounded as many times as a path type written that way, of
/// two segments or more and starting with a type parameter, is met in the
/// item.
pub proof fn where_clause_keeps_each_use(input: DeriveInputRepr, t: Seq<Tok>)
    ensures
        occurrences(where_types(input), t) == assoc_uses(input, t, input.type_paths@.len() as int),
{
    let n = input.type_paths@.len() as int;
    let keys = keys_upto(input, n);
    lemma_grouped_upto_occurrences(input, keys, t, keys.len() as int);
    lemma_keys_uses_total(input, t, n);
}

/// The `Debug` bounds of the generated impl: a type parameter that a
/// field's type starts with is bounded; one that is met only inside
/// `PhantomData`, or only through its associated types, is not; one met
/// neither inside `PhantomData` nor through an associated type is bounded
/// wherever it is used (for example inside `Vec<T>`); a lifetime or a
/// constant parameter gets no bound.
pub proof fn debug_bound_rules(input: DeriveInputRepr, fields: Seq<FieldRepr>, plan: DebugPlan, i: int)
    requires
        debug_plan_of(input, fields, plan),
        0 <= i < input.generics@.len(),
    ensures
        input.generics@[i] matches GenericParamRepr::Type(n) && used_directly(fields, n@) ==> plan.bounded@[i],
        input.generics@[i] matches GenericParamRepr::Type(n) && !used_directly(fields, n@)
            && (in_phantom(fields, n@) || has_assoc(input, n@)) ==> !plan.bounded@[i],
        !(input.generics@[i] is Type) ==> !plan.bounded@[i],
        input.generics@[i] matches GenericParamRepr::Type(n) && !in_phantom(fields, n@) && !has_assoc(input, n@)
            ==> plan.bounded@[i],
        input.generics@[i] matches GenericParamRepr::Type(n) ==> (plan.bounded@[i] <==> (used_directly(fields, n@)
            || !(in_phantom(fields, n@) || has_assoc(input, n@)))),
{
    assert(plan.bounded@[i] == match input.generics@[i] {
        GenericParamRepr::Type(n) => gets_bound(input, fields, n@),
        _ => false,
    });
}

/// Whether `t` is one of `v`.
fn contains_text(v: &Vec<String>, t: &String) -> (r: bool)
    ensures
        r == texts(v@).contains(t@),
{
    let mut i: usize = 0;
    while i < v.len()
        invariant
            i <= v.len(),
            forall|j: int| 0 <= j < i ==> v@[j]@ != t@,
        decreases v.len() - i,
    {
        if v[i] == *t {
            proof {
                assert(texts(v@)[i as int] == t@);
            }
            return true;
        }
        i = i + 1;
    }
    proof {
        if texts(v@).contains(t@) {
            let k = choose|k: int| 0 <= k < texts(v@).len() && texts(v@)[k] == t@;
            assert(v@[k]@ == t@);
        }
    }
    false
}

/// The first segment of a field's type, as [`field_head`] says.
fn head_of(f: &FieldRepr) -> (r: Option<&String>)
    requires
        f.ty.path matches Some(segs) ==> segs@.len() > 0,
    ensures
        match r {
            Option::Some(h) => field_head(*f) == Some(h@),
            Option::None => field_head(*f) is None,
        },
{
    match &f.ty.path {
        Some(segs) => Some(&segs[0].ident),
        None => None,
    }
}

/// The parameter of a field's `PhantomData`, as [`phantom_param`] says.
pub fn get_phantomdata_generic_type_name(f: &FieldRepr) -> (r: Option<&String>)
    ensures
        match r {
            Option::Some(h) => phantom_param(*f) == Some(h@),
            Option::None => phantom_param(*f) is None,
        },
{
    match &f.ty.path {
        Some(segs) => {
            if segs.len() == 0 || !text_is(&segs[segs.len() - 1].ident, "PhantomData") {
                return None;
            }
            match &segs[segs.len() - 1].arguments {
                PathArgsRepr::AngleBracketed(args) => {
                    if args.len() == 0 {
                        return None;
                    }
                    match &args[0] {
                        GenericArgRepr::Type { path_head: Some(h), .. } => Some(h),
                        _ => None,
                    }
                },
                _ => None,
            }
        },
        None => None,
    }
}

/// The first segment of a field's type, as [`field_head`] says.
pub fn get_field_type_name(f: &FieldRepr) -> (r: Option<String>)
    requires
        f.ty.path matches Some(segs) ==> segs@.len() > 0,
    ensures
        match r {
            Option::Some(h) => field_head(*f) == Some(h@),
            Option::None => field_head(*f) is None,
        },
{
    match head_of(f) {
        Some(h) => Some(h.clone()),
        None => None,
    }
}

/// Whether `name` gets a `Debug` bound, as [`gets_bound`] says.
fn bound_for(input: &DeriveInputRepr, fields: &Vec<FieldRepr>, name: &String) -> (r: bool)
    requires
        fields_well_formed(fields@),
    ensures
        r == gets_bound(*input, fields@, name@),
{
    let mut direct = false;
    let mut phantom = false;
    let mut i: usize = 0;
    while i < fields.len()
        invariant
            i <= fields.len(),
            fields_well_formed(fields@),
            direct == exists|j: int| 0 <= j < i && field_head(#[trigger] fields@[j]) == Some(name@),
            phantom == exists|j: int| 0 <= j < i && phantom_param(#[trigger] fields@[j]) == Some(name@),
        decreases fields.len() - i,
    {
        let f = &fields[i];
        assert(fields_well_formed(fields@) ==> (f.ty.path matches Some(segs) ==> segs@.len() > 0));
        match head_of(f) {
            Some(h) => {
                if *h == *name {
                    direct = true;
                }
            },
            None => {},
        }
        match get_phantomdata_generic_type_name(f) {
            Some(h) => {
                if *h == *name {
                    phantom = true;
                }
            },
            None => {},
        }
        i = i + 1;
    }
    let assoc = uses_assoc(input, name);
    !((phantom || assoc) && !direct)
}

/// Whether `name` is a type parameter, as [`is_type_param`] says.
fn type_param(input: &DeriveInputRepr, name: &String) -> (r: bool)
    ensures
        r == is_type_param(*input, name@),
{
    let mut i: usize = 0;
    while i < input.generics.len()
        invariant
            i <= input.generics.len(),
            forall|j: int| 0 <= j < i ==> !(#[trigger] input.generics@[j] matches GenericParamRepr::Type(n) && n@ == name@),
        decreases input.generics.len() - i,
    {
        match &input.generics[i] {
            GenericParamRepr::Type(n) => {
                if *n == *name {
                    return true;
                }
            },
            _ => {},
        }
        i = i + 1;
    }
    false
}

/// Whether a path type met is an associated type, as [`is_assoc`] says.
fn assoc_path(input: &DeriveInputRepr, p: &TypePathRepr) -> (r: bool)
    ensures
        r == is_assoc(*input, *p),
{
    p.segment_count >= 2 && type_param(input, &p.first)
}

/// Whether `input` uses an associated type of `name`, as [`has_assoc`]
/// says.
fn uses_assoc(input: &DeriveInputRepr, name: &String) -> (r: bool)
    ensures
        r == has_assoc(*input, name@),
{
    let mut i: usize = 0;
    while i < input.type_paths.len()
        invariant
            i <= input.type_paths.len(),
            forall|j: int| 0 <= j < i ==> !(is_assoc(*input, #[trigger] input.type_paths@[j]) && input.type_paths@[j].first@ == name@),
        decreases input.type_paths.len() - i,
    {
        let p = &input.type_paths[i];
        if assoc_path(input, p) && p.first == *name {
            return true;
        }
        i = i + 1;
    }
    false
}

/// The type parameters with associated types used in `input`, as
/// [`keys_upto`] says for all path types.
fn assoc_keys(input: &DeriveInputRepr) -> (r: Vec<String>)
    ensures
        texts(r@) == keys_upto(*input, input.type_paths@.len() as int),
{
    let mut keys: Vec<String> = Vec::new();
    let mut i: usize = 0;
    while i < input.type_paths.len()
        invariant
            i <= input.type_paths.len(),
            texts(keys@) == keys_upto(*input, i as int),
        decreases input.type_paths.len() - i,
    {
        let p = &input.type_paths[i];
        if assoc_path(input, p) && !contains_text(&keys, &p.first) {
            let ghost before = keys@;
            keys.push(p.first.clone());
            proof {
                assert(texts(keys@) =~= texts(before).push(p.first@));
            }
        }
        i = i + 1;
    }
    keys
}

/// The associated types used in `input`, grouped as [`where_types`] says.
pub fn get_generic_associated_types(input: &DeriveInputRepr) -> (r: Vec<Vec<TokenTree>>)
    ensures
        streams_view(r@) == where_types(*input),
{
    let keys = assoc_keys(input);
    let ghost k = texts(keys@);
    let ghost n = input.type_paths@.len() as int;
    let mut out: Vec<Vec<TokenTree>> = Vec::new();
    let mut j: usize = 0;
    while j < keys.len()
        invariant
            j <= keys.len(),
            k == texts(keys@),
            n == input.type_paths@.len(),
            streams_view(out@) == grouped_upto(*input, k, j as int),
        decreases keys.len() - j,
    {
        let key = &keys[j];
        let ghost start = streams_view(out@);
        let mut i: usize = 0;
        while i < input.type_paths.len()
            invariant
                i <= input.type_paths.len(),
                j < keys.len(),
                k == texts(keys@),
                n == input.type_paths@.len(),
                *key == keys@[j as int],
                start == grouped_upto(*input, k, j as int),
                streams_view(out@) == start + assoc_upto(*input, k[j as int], i as int),
            decreases input.type_paths.len() - i,
        {
            let p = &input.type_paths[i];
            if assoc_path(input, p) && p.first == *key {
                let ghost before = out@;
                out.push(copy_stream(&p.tokens));
                proof {
                    assert(streams_view(out@) =~= streams_view(before).push(stream_view(p.tokens@)));
                }
            }
            i = i + 1;
        }
        proof {
            assert(grouped_upto(*input, k, j + 1) == grouped_upto(*input, k, j as int) + assoc_upto(*input, k[j as int], n));
        }
        j = j + 1;
    }
    out
}


/// The named fields of `input`, or the error for an item that is no struct
/// with named fields.
pub fn get_fields_from_derive_input(input: &DeriveInputRepr) -> (r: Result<&Vec<FieldRepr>, SynError>)
    ensures
        match r {
            Ok(fs) => named_fields(*input) == Some(fs@),
            Err(x) => named_fields(*input) is None && x@ == not_struct_error(*input),
        },
{
    match &input.data {
        DataRepr::Struct { kind: FieldsKind::Named, fields } => Ok(fields),
        _ => Err(SynError {
            message: String::from_str("Must define on a Struct, not Enum"),
            start: input.first_span,
            end: input.last_span,
        }),
    }
}

/// Whether the named fields of `input`, if it has them, are well formed.
pub open spec fn input_well_formed(input: DeriveInputRepr) -> bool {
    named_fields(input) matches Some(fs) ==> fields_well_formed(fs)
}

/// The printed fields of `input`, or the first error among their formats.
pub fn generate_debug_trait_core(input: &DeriveInputRepr) -> (r: Result<Vec<DebugField>, SynError>)
    requires
        input_well_formed(*input),
    ensures
        match r {
            Ok(fs) => debug_error(*input) is None && fs@.len() == named_fields(*input).unwrap().len()
                && forall|i: int| 0 <= i < fs@.len() ==> {
                    &&& (#[trigger] fs@[i]).name.text@ == named_fields(*input).unwrap()[i].ident.unwrap().text@
                    &&& fs@[i].name.span == named_fields(*input).unwrap()[i].ident.unwrap().span
                    &&& fs@[i].format@ == field_format(named_fields(*input).unwrap()[i])
                },
            Err(x) => debug_error(*input) == Some(x@),
        },
{
    let fields = match get_fields_from_derive_input(input) {
        Ok(fs) => fs,
        Err(x) => {
            return Err(x);
        },
    };
    let ghost fsv = fields@;
    let mut out: Vec<DebugField> = Vec::new();
    let mut i: usize = 0;
    while i < fields.len()
        invariant
            i <= fields.len(),
            fsv == fields@,
            named_fields(*input) == Some(fsv),
            fields_well_formed(fsv),
            fields_error(fsv, 0) == fields_error(fsv, i as int),
            out@.len() == i,
            forall|j: int| 0 <= j < i ==> {
                &&& (#[trigger] out@[j]).name.text@ == fsv[j].ident.unwrap().text@
                &&& out@[j].name.span == fsv[j].ident.unwrap().span
                &&& out@[j].format@ == field_format(fsv[j])
            },
        decreases fields.len() - i,
    {
        let f = &fields[i];
        let fmt = match get_custom_format_fields(f) {
            Ok(Some(v)) => v,
            Ok(None) => String::from_str("{:?}"),
            Err(x) => {
                return Err(x);
            },
        };
        let name = match &f.ident {
            Some(id) => IdentRepr { text: id.text.clone(), span: id.span },
            None => IdentRepr { text: String::new(), span: Span::call_site() },
        };
        out.push(DebugField { name, format: fmt });
        i = i + 1;
    }
    Ok(out)
}

/// The `Debug` impl that `CustomDebug` generates for `input`, or the error
/// it reports.
pub fn generate_debug_trait(input: &DeriveInputRepr) -> (r: Result<DebugPlan, SynError>)
    requires
        input_well_formed(*input),
    ensures
        match r {
            Ok(plan) => debug_error(*input) is None && debug_plan_of(*input, named_fields(*input).unwrap(), plan)
                && forall|i: int| 0 <= i < input.generics@.len() && (#[trigger] input.generics@[i] matches GenericParamRepr::Type(n)
                    && !in_phantom(named_fields(*input).unwrap(), n@) && !has_assoc(*input, n@)) ==> plan.bounded@[i],
            Err(x) => debug_error(*input) == Some(x@),
        },
{
    let printed = match generate_debug_trait_core(input) {
        Ok(fs) => fs,
        Err(x) => {
            return Err(x);
        },
    };
    let fields = match get_fields_from_derive_input(input) {
        Ok(fs) => fs,
        Err(x) => {
            return Err(x);
        },
    };
    let mut bounded: Vec<bool> = Vec::new();
    let mut i: usize = 0;
    while i < input.generics.len()
        invariant
            i <= input.generics.len(),
            named_fields(*input) == Some(fields@),
            fields_well_formed(fields@),
            bounded@.len() == i,
            forall|j: int| 0 <= j < i ==> (#[trigger] bounded@[j]) == match input.generics@[j] {
                GenericParamRepr::Type(n) => gets_bound(*input, fields@, n@),
                _ => false,
            },
        decreases input.generics.len() - i,
    {
        let b = match &input.generics[i] {
            GenericParamRepr::Type(n) => bound_for(input, fields, n),
            _ => false,
        };
        bounded.push(b);
        i = i + 1;
    }
    let where_types = get_generic_associated_types(input);
    let name = IdentRepr { text: input.ident.text.clone(), span: input.ident.span };
    Ok(DebugPlan { name, fields: printed, bounded, where_types })
}

/// The `Debug` impl that `CustomDebug` generates for `input`, or the error
/// it reports.
pub fn do_expand(input: &DeriveInputRepr) -> (r: Result<DebugPlan, SynError>)
    requires
        input_well_formed(*input),
    ensures
        match r {
            Ok(plan) => debug_error(*input) is None && debug_plan_of(*input, named_fields(*input).unwrap(), plan)
                && forall|i: int| 0 <= i < input.generics@.len() && (#[trigger] input.generics@[i] matches GenericParamRepr::Type(n)
                    && !in_phantom(named_fields(*input).unwrap(), n@) && !has_assoc(*input, n@)) ==> plan.bounded@[i],
            Err(x) => debug_error(*input) == Some(x@),
        },
{
    generate_debug_trait(input)
}

} // verus!
