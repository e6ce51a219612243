use macro_workshop::builder::{build_of, each_arg_of, proc_builder, try_proc_builder, ty_inner_type, EachArgument,
    FieldMethods};
use macro_workshop::custom_debug::{do_expand, generate_debug_trait_core, get_custom_format_fields,
    get_field_type_name, get_fields_from_derive_input, get_generic_associated_types,
    get_phantomdata_generic_type_name};
use macro_workshop::customer_model::{default_new, field_counter, getters};
use macro_workshop::derive_input::{AttrRepr, AttrStyle, DataRepr, DeriveInputRepr, FieldRepr, FieldsKind,
    GenericArgRepr, GenericParamRepr, IdentRepr, MetaRepr, PathArgsRepr, PathSegmentRepr, TypePathRepr, TypeRepr};
use macro_workshop::example::{assert_debug, Field, Trait};
use macro_workshop::tokens::{Delimiter, LineColumn, Spacing, Span, TokenTree};
use quote::ToTokens;
use syn::visit::Visit;

fn span_of(s: proc_macro2::Span) -> Span {
    let a = s.start();
    let b = s.end();
    Span { id: 1, start: LineColumn { line: a.line, column: a.column }, end: LineColumn { line: b.line, column: b.column } }
}

fn convert(ts: proc_macro2::TokenStream) -> Vec<TokenTree> {
    ts.into_iter().map(convert_tree).collect()
}

fn convert_tree(t: proc_macro2::TokenTree) -> TokenTree {
    match t {
        proc_macro2::TokenTree::Group(g) => TokenTree::Group {
            delimiter: match g.delimiter() {
                proc_macro2::Delimiter::Parenthesis => Delimiter::Parenthesis,
                proc_macro2::Delimiter::Brace => Delimiter::Brace,
                proc_macro2::Delimiter::Bracket => Delimiter::Bracket,
                proc_macro2::Delimiter::None => Delimiter::Invisible,
            },
            stream: convert(g.stream()),
            span: span_of(g.span()),
            span_open: span_of(g.span_open()),
        },
        proc_macro2::TokenTree::Ident(i) => TokenTree::Ident { text: i.to_string(), span: span_of(i.span()) },
        proc_macro2::TokenTree::Punct(p) => TokenTree::Punct {
            ch: p.as_char(),
            spacing: if p.spacing() == proc_macro2::Spacing::Joint { Spacing::Joint } else { Spacing::Alone },
            span: span_of(p.span()),
        },
        proc_macro2::TokenTree::Literal(l) => TokenTree::Literal { text: l.to_string(), span: span_of(l.span()) },
    }
}

fn render(v: &[TokenTree]) -> String {
    let mut parts: Vec<String> = Vec::new();
    for t in v {
        parts.push(match t {
            TokenTree::Group { delimiter, stream, .. } => {
                let inner = render(stream);
                let (open, close) = match delimiter {
                    Delimiter::Parenthesis => ("(", ")"),
                    Delimiter::Brace => ("{", "}"),
                    Delimiter::Bracket => ("[", "]"),
                    Delimiter::Invisible => ("«", "»"),
                };
                if inner.is_empty() { format!("{} {}", open, close) } else { format!("{} {} {}", open, inner, close) }
            },
            TokenTree::Ident { text, .. } => text.clone(),
            TokenTree::Punct { ch, .. } => ch.to_string(),
            TokenTree::Literal { text, .. } => text.clone(),
        });
    }
    parts.join(" ")
}

fn ident_repr(i: &syn::Ident) -> IdentRepr {
    IdentRepr { text: i.to_string(), span: span_of(i.span()) }
}

fn type_repr(ty: &syn::Type) -> TypeRepr {
    let path = match ty {
        syn::Type::Path(tp) => Some(
            tp.path
                .segments
                .iter()
                .map(|s| PathSegmentRepr {
                    ident: s.ident.to_string(),
                    arguments: match &s.arguments {
                        syn::PathArguments::None => PathArgsRepr::NoArgs,
                        syn::PathArguments::AngleBracketed(a) => PathArgsRepr::AngleBracketed(
                            a.args
                                .iter()
                                .map(|g| match g {
                                    syn::GenericArgument::Type(t) => GenericArgRepr::Type {
                                        tokens: convert(t.to_token_stream()),
                                        path_head: match t {
                                            syn::Type::Path(p) => Some(p.path.segments[0].ident.to_string()),
                                            _ => None,
                                        },
                                    },
                                    _ => GenericArgRepr::Other,
                                })
                                .collect(),
                        ),
                        syn::PathArguments::Parenthesized(_) => PathArgsRepr::Parenthesized,
                    },
                })
                .collect(),
        ),
        _ => None,
    };
    TypeRepr { tokens: convert(ty.to_token_stream()), path }
}

fn attr_repr(a: &syn::Attribute) -> AttrRepr {
    let path = a.path();
    AttrRepr {
        style: match a.style {
            syn::AttrStyle::Outer => AttrStyle::Outer,
            syn::AttrStyle::Inner(_) => AttrStyle::Inner,
        },
        leading_colon: path.leading_colon.is_some(),
        path: path.segments.iter().map(|s| ident_repr(&s.ident)).collect(),
        meta: match &a.meta {
            syn::Meta::Path(_) => MetaRepr::Path,
            syn::Meta::List(l) => MetaRepr::List {
                span_open: span_of(l.delimiter.span().open()),
                span_close: span_of(l.delimiter.span().close()),
                tokens: convert(l.tokens.clone()),
            },
            syn::Meta::NameValue(nv) => MetaRepr::NameValue {
                eq_span: span_of(nv.eq_token.span),
                value: convert(nv.value.to_token_stream()),
            },
        },
    }
}

struct PathCollector {
    paths: Vec<TypePathRepr>,
}

impl<'ast> Visit<'ast> for PathCollector {
    fn visit_type_path(&mut self, p: &'ast syn::TypePath) {
        self.paths.push(TypePathRepr {
            segment_count: p.path.segments.len(),
            first: p.path.segments.first().map(|s| s.ident.to_string()).unwrap_or_default(),
            tokens: convert(p.to_token_stream()),
        });
        syn::visit::visit_type_path(self, p);
    }
}

fn derive_input(src: &str) -> DeriveInputRepr {
    let ts: proc_macro2::TokenStream = src.parse().unwrap();
    let toks: Vec<proc_macro2::TokenTree> = ts.clone().into_iter().collect();
    let d: syn::DeriveInput = syn::parse2(ts).unwrap();
    let mut collector = PathCollector { paths: Vec::new() };
    collector.visit_derive_input(&d);
    let fields_of = |fs: &syn::Fields| -> Vec<FieldRepr> {
        fs.iter()
            .map(|f| FieldRepr {
                ident: f.ident.as_ref().map(ident_repr),
                ty: type_repr(&f.ty),
                attrs: f.attrs.iter().map(attr_repr).collect(),
            })
            .collect()
    };
    DeriveInputRepr {
        ident: ident_repr(&d.ident),
        generics: d
            .generics
            .params
            .iter()
            .map(|g| match g {
                syn::GenericParam::Type(t) => GenericParamRepr::Type(t.ident.to_string()),
                syn::GenericParam::Lifetime(_) => GenericParamRepr::Lifetime,
                syn::GenericParam::Const(_) => GenericParamRepr::Const,
            })
            .collect(),
        data: match &d.data {
            syn::Data::Struct(s) => DataRepr::Struct {
                kind: match &s.fields {
                    syn::Fields::Named(_) => FieldsKind::Named,
                    syn::Fields::Unnamed(_) => FieldsKind::Unnamed,
                    syn::Fields::Unit => FieldsKind::Unit,
                },
                fields: fields_of(&s.fields),
            },
            syn::Data::Enum(_) => DataRepr::Enum,
            syn::Data::Union(_) => DataRepr::Union,
        },
        type_paths: collector.paths,
        first_span: span_of(toks.first().unwrap().span()),
        last_span: span_of(toks.last().unwrap().span()),
    }
}

fn fields(input: &DeriveInputRepr) -> &Vec<FieldRepr> {
    match &input.data {
        DataRepr::Struct { fields, .. } => fields,
        _ => panic!("not a struct"),
    }
}

fn col(s: Span) -> (usize, usize) {
    (s.start.column, s.end.column)
}

const COMMAND: &str = "pub struct Command {
    executable: String,
    #[builder(each = \"arg\")]
    args: Vec<String>,
    #[builder(each = \"env\")]
    env: Vec<String>,
    current_dir: Option<String>,
}";

#[test]
fn builder_plan_for_command() {
    let input = derive_input(COMMAND);
    let plan = proc_builder(&input);
    assert_eq!(plan.target.text, "Command");
    assert_eq!(plan.builder_name, "CommandBuilder");
    assert_eq!(
        plan.doc,
        "Implements the [builder pattern] for [`Command`].\n\n[builder pattern]: https://rust-lang-nursery.github.io/api-guidelines/type-safety.html#c-builder"
    );
    assert_eq!(plan.fields.len(), 4);

    let f = &plan.fields[0];
    assert_eq!(f.name.text, "executable");
    assert_eq!(f.unset_message, "executable is not set");
    assert_eq!(render(&f.ty), "String");
    assert!(f.wrapped && !f.collects);
    match &f.methods {
        FieldMethods::Setter(s) => {
            assert_eq!(render(&s.arg_ty), "String");
            assert!(s.wrap);
        },
        other => panic!("unexpected {:?}", other),
    }

    let f = &plan.fields[1];
    assert_eq!(f.name.text, "args");
    assert!(!f.wrapped && f.collects);
    match &f.methods {
        FieldMethods::SetterAndExtend(s, m) => {
            assert_eq!(render(&s.arg_ty), "Vec < String >");
            assert!(!s.wrap);
            assert_eq!(m.name, "arg");
            assert_eq!(render(&m.elem_ty), "String");
            assert_eq!(m.span.start.line, 3);
        },
        other => panic!("unexpected {:?}", other),
    }

    let f = &plan.fields[2];
    assert_eq!(f.name.text, "env");
    match &f.methods {
        FieldMethods::Extend(m) => {
            assert_eq!(m.name, "env");
            assert_eq!(render(&m.elem_ty), "String");
        },
        other => panic!("unexpected {:?}", other),
    }

    let f = &plan.fields[3];
    assert_eq!(f.name.text, "current_dir");
    assert!(!f.wrapped && !f.collects);
    match &f.methods {
        FieldMethods::Setter(s) => {
            assert_eq!(render(&s.arg_ty), "String");
            assert!(s.wrap);
        },
        other => panic!("unexpected {:?}", other),
    }
}

#[test]
fn builder_reports_wrong_attribute_arguments() {
    let input = derive_input("struct S {\n#[builder(eac = \"x\")]\nv: Vec<u8>,\n}");
    let plan = proc_builder(&input);
    match &plan.fields[0].methods {
        FieldMethods::SetterAndError(s, e) => {
            assert!(!s.wrap);
            assert_eq!(e.message, "expected `builder(each = \"...\")`");
            assert_eq!(e.start.start.line, 2);
            assert_eq!(col(e.start), (10, 13));
            assert_eq!(col(e.end), (10, 13));
        },
        other => panic!("unexpected {:?}", other),
    }
}

#[test]
fn builder_attribute_without_arguments_keeps_the_setter() {
    let input = derive_input("struct S { #[builder()] v: Vec<u8>, }");
    let plan = proc_builder(&input);
    let f = &plan.fields[0];
    assert!(!f.wrapped && f.collects);
    match &f.methods {
        FieldMethods::Setter(s) => {
            assert_eq!(render(&s.arg_ty), "Vec < u8 >");
            assert!(!s.wrap);
        },
        other => panic!("unexpected {:?}", other),
    }
}

#[test]
fn builder_needs_vec_for_each() {
    let input = derive_input("struct S { #[builder(each = \"x\")] v: String, }");
    assert!(try_proc_builder(&input).is_none());
    let input = derive_input(COMMAND);
    assert_eq!(try_proc_builder(&input).unwrap().fields.len(), 4);
    assert!(try_proc_builder(&derive_input("struct T(u8);")).is_none());
    assert!(try_proc_builder(&derive_input("enum E { A }")).is_none());
}

#[test]
fn builder_each_arguments() {
    let input = derive_input(
        "struct S {
#[builder = \"x\"] a: Vec<u8>,
#[builder] b: Vec<u8>,
#[builder(each = 1)] c: Vec<u8>,
#[builder(each = \"p\", each = \"q\",)] d: Vec<u8>,
#[builder(each \"p\")] e: Vec<u8>,
#[builder(each = \"p\" x)] f: Vec<u8>,
#[builder(each = \"a\\x62c\")] g: Vec<u8>,
}",
    );
    let fs = fields(&input);
    match each_arg_of(&fs[0].attrs[0]) {
        EachArgument::Invalid(a, b) => {
            assert_eq!(col(a), (10, 11));
            assert_eq!(col(b), (10, 11));
        },
        other => panic!("unexpected {:?}", other),
    }
    match each_arg_of(&fs[1].attrs[0]) {
        EachArgument::Invalid(a, b) => {
            assert_eq!(col(a), (2, 9));
            assert_eq!(col(b), (2, 9));
        },
        other => panic!("unexpected {:?}", other),
    }
    match each_arg_of(&fs[2].attrs[0]) {
        EachArgument::Invalid(a, b) => {
            assert_eq!(col(a), (17, 18));
            assert_eq!(col(b), (17, 18));
        },
        other => panic!("unexpected {:?}", other),
    }
    match each_arg_of(&fs[3].attrs[0]) {
        EachArgument::Given(v, sp) => {
            assert_eq!(v, "q");
            assert_eq!(col(sp), (29, 32));
        },
        other => panic!("unexpected {:?}", other),
    }
    match each_arg_of(&fs[4].attrs[0]) {
        EachArgument::Invalid(a, b) => {
            assert_eq!(col(a), (15, 18));
            assert_eq!(col(b), (15, 18));
        },
        other => panic!("unexpected {:?}", other),
    }
    match each_arg_of(&fs[5].attrs[0]) {
        EachArgument::Invalid(a, b) => {
            assert_eq!(col(a), (21, 22));
            assert_eq!(col(b), (21, 22));
        },
        other => panic!("unexpected {:?}", other),
    }
    match each_arg_of(&fs[6].attrs[0]) {
        EachArgument::Given(v, _) => assert_eq!(v, "abc"),
        other => panic!("unexpected {:?}", other),
    }
}

#[test]
fn builder_inner_types_and_attribute_places() {
    let input = derive_input(
        "struct S { a: Option<u8>, b: std::option::Option<u8>, c: Vec<String>, #[doc = \"x\"] #[builder] #[builder(each = \"y\")] d: u8, }",
    );
    let fs = fields(&input);
    assert_eq!(render(ty_inner_type("Option", &fs[0].ty).unwrap()), "u8");
    assert!(ty_inner_type("Option", &fs[1].ty).is_none());
    assert!(ty_inner_type("Option", &fs[2].ty).is_none());
    assert_eq!(render(ty_inner_type("Vec", &fs[2].ty).unwrap()), "String");
    assert_eq!(build_of(&fs[3]), Some(1));
    assert_eq!(build_of(&fs[0]), None);
}

#[test]
fn field_counter_counts_fields() {
    assert_eq!(field_counter(&derive_input("struct Example { field1: i32, field2: String }")), 2);
    assert_eq!(field_counter(&derive_input("struct T(u8, u8, u8);")), 3);
    assert_eq!(field_counter(&derive_input("struct U;")), 0);
    assert_eq!(field_counter(&derive_input("enum E { A, B }")), 0);
}

#[test]
fn default_new_names_the_struct() {
    let input = derive_input("struct Config { host: String }");
    let name = default_new(&input);
    assert_eq!(name.text, "Config");
    assert_eq!(col(name.span), (7, 13));
}

#[test]
fn getters_one_per_field() {
    let input = derive_input("struct Config { host: String, port: u16 }");
    let g = getters(&input);
    assert_eq!(g.len(), 2);
    assert_eq!(g[0].name.as_ref().unwrap().text, "host");
    assert_eq!(render(&g[0].ty), "String");
    assert_eq!(g[1].name.as_ref().unwrap().text, "port");
    assert_eq!(render(&g[1].ty), "u16");
    let t = getters(&derive_input("struct P(u8);"));
    assert!(t[0].name.is_none());
}

#[test]
fn debug_formats_and_bounds() {
    let input = derive_input(
        "struct GeekKindergarten<T> { blog: T, #[debug = \"0b{:08b}\"] ideawand: i32, com: bool, }",
    );
    let plan = do_expand(&input).unwrap();
    assert_eq!(plan.name.text, "GeekKindergarten");
    let names: Vec<&str> = plan.fields.iter().map(|f| f.name.text.as_str()).collect();
    assert_eq!(names, vec!["blog", "ideawand", "com"]);
    let formats: Vec<&str> = plan.fields.iter().map(|f| f.format.as_str()).collect();
    assert_eq!(formats, vec!["{:?}", "0b{:08b}", "{:?}"]);
    assert_eq!(plan.bounded, vec![true]);
    assert!(plan.where_types.is_empty());
}

#[test]
fn debug_phantom_parameter_is_not_bounded() {
    let input = derive_input(
        "pub struct Field<T, U, 'a, const N: usize> { marker: PhantomData<T>, string: S, #[debug = \"0b{:08b}\"] bitmask: u8, u: U, r: &'a u8 }",
    );
    let plan = do_expand(&input).unwrap();
    assert_eq!(plan.bounded, vec![false, true, false, false]);
}

#[test]
fn debug_associated_types_go_to_the_where_clause() {
    let input = derive_input(
        "pub struct Field<T: Trait> { values: Vec<T::Value>, blog: T::Value, ideawand: PhantomData<T::Value>, }",
    );
    let plan = do_expand(&input).unwrap();
    assert_eq!(plan.bounded, vec![true]);
    let w: Vec<String> = plan.where_types.iter().map(|t| render(t)).collect();
    assert_eq!(w, vec!["T : : Value", "T : : Value", "T : : Value"]);

    let input = derive_input("struct A<T: Trait, U: Trait> { a: Vec<U::X>, b: PhantomData<T::Y>, c: Box<U::Z>, }");
    let plan = do_expand(&input).unwrap();
    assert_eq!(plan.bounded, vec![false, false]);
    let w: Vec<String> = get_generic_associated_types(&input).iter().map(|t| render(t)).collect();
    assert_eq!(w, vec!["U : : X", "U : : Z", "T : : Y"]);
}

#[test]
fn debug_errors() {
    let input = derive_input("enum E { A, B }");
    let e = do_expand(&input).unwrap_err();
    assert_eq!(e.message, "Must define on a Struct, not Enum");
    assert_eq!(col(e.start), (0, 4));
    assert_eq!(col(e.end), (7, 15));
    assert!(get_fields_from_derive_input(&derive_input("struct T(u8);")).is_err());

    let input = derive_input("struct S { #[debug] a: u8 }");
    let e = do_expand(&input).unwrap_err();
    assert_eq!(e.message, "expected a value for this attribute: `debug = ...`");
    assert_eq!(col(e.start), (13, 18));

    let input = derive_input("struct S { a: u8, #[debug(x)] b: u8 }");
    let e = generate_debug_trait_core(&input).unwrap_err();
    assert_eq!(e.message, "expected `=`");
    assert_eq!(col(e.start), (25, 26));

    let input = derive_input("struct S { #[debug::more] a: u8 }");
    let e = do_expand(&input).unwrap_err();
    assert_eq!(e.message, "expected a value for this attribute: `debug::more = ...`");
}

#[test]
fn debug_format_attribute_values() {
    let input = derive_input(
        "struct S { #[debug = 5] #[debug = \"x\\ty\"] a: u8, #[doc = \"d\"] b: u8, #[debug = \"\\x41\"] #[debug = \"z\"] c: u8 }",
    );
    let fs = fields(&input);
    assert_eq!(get_custom_format_fields(&fs[0]).unwrap(), Some("x\ty".to_string()));
    assert_eq!(get_custom_format_fields(&fs[1]).unwrap(), None);
    assert_eq!(get_custom_format_fields(&fs[2]).unwrap(), Some("A".to_string()));
}

#[test]
fn debug_field_type_names() {
    let input = derive_input("struct S<T> { a: std::marker::PhantomData<T>, b: Vec<u8>, c: &'static str, d: PhantomData<&'static T> }");
    let fs = fields(&input);
    assert_eq!(get_phantomdata_generic_type_name(&fs[0]).map(|s| s.as_str()), Some("T"));
    assert_eq!(get_field_type_name(&fs[0]).as_deref(), Some("std"));
    assert_eq!(get_phantomdata_generic_type_name(&fs[1]), None);
    assert_eq!(get_field_type_name(&fs[1]).as_deref(), Some("Vec"));
    assert_eq!(get_field_type_name(&fs[2]), None);
    assert_eq!(get_phantomdata_generic_type_name(&fs[3]), None);
}

#[derive(Debug)]
struct Id;

impl Trait for Id {
    type Value = u8;
}

#[test]
fn example_field_is_debug() {
    assert_debug::<Field<Id>>();
}
