use macro_workshop::seq_expand::{try_seq, SeqMacroInput2};
use macro_workshop::tokens::{Delimiter, LineColumn, Spacing, Span, TokenTree};

fn span_of(s: proc_macro2::Span) -> Span {
    let a = s.start();
    let b = s.end();
    Span {
        id: 1,
        start: LineColumn { line: a.line, column: a.column },
        end: LineColumn { line: b.line, column: b.column },
    }
}

fn convert(ts: proc_macro2::TokenStream) -> Vec<TokenTree> {
    ts.into_iter().map(convert_tree).collect()
}

fn convert_tree(t: proc_macro2::TokenTree) -> TokenTree {
    match t {
        proc_macro2::TokenTree::Group(g) => TokenTree::Group {
            delimiter: match g.delimiter() {
                proc_macro2::Delimiter::Parenthesis => Delimiter::Parenthesis,
                proc_macro2::Delimiter::Brace => Delimiter::Brace,
                proc_macro2::Delimiter::Bracket => Delimiter::Bracket,
                proc_macro2::Delimiter::None => Delimiter::Invisible,
            },
            stream: convert(g.stream()),
            span: span_of(g.span()),
            span_open: span_of(g.span_open()),
        },
        proc_macro2::TokenTree::Ident(i) => TokenTree::Ident { text: i.to_string(), span: span_of(i.span()) },
        proc_macro2::TokenTree::Punct(p) => TokenTree::Punct {
            ch: p.as_char(),
            spacing: if p.spacing() == proc_macro2::Spacing::Joint { Spacing::Joint } else { Spacing::Alone },
            span: span_of(p.span()),
        },
        proc_macro2::TokenTree::Literal(l) => TokenTree::Literal { text: l.to_string(), span: span_of(l.span()) },
    }
}

fn tokens(src: &str) -> Vec<TokenTree> {
    convert(src.parse::<proc_macro2::TokenStream>().unwrap())
}

fn render(v: &[TokenTree]) -> String {
    let mut parts: Vec<String> = Vec::new();
    for t in v {
        parts.push(match t {
            TokenTree::Group { delimiter, stream, .. } => {
                let inner = render(stream);
                let (open, close) = match delimiter {
                    Delimiter::Parenthesis => ("(", ")"),
                    Delimiter::Brace => ("{", "}"),
                    Delimiter::Bracket => ("[", "]"),
                    Delimiter::Invisible => ("«", "»"),
                };
                if inner.is_empty() {
                    format!("{} {}", open, close)
                } else {
                    format!("{} {} {}", open, inner, close)
                }
            },
            TokenTree::Ident { text, .. } => text.clone(),
            TokenTree::Punct { ch, .. } => ch.to_string(),
            TokenTree::Literal { text, .. } => text.clone(),
        });
    }
    parts.join(" ")
}

fn expand(src: &str) -> Result<String, String> {
    match SeqMacroInput2::parse(&tokens(src)) {
        Ok(input) => {
            assert!(input.has_valid_range());
            Ok(render(&input.into_tokens()))
        },
        Err(e) => Err(e.message),
    }
}

#[test]
fn seq_replaces_suffix_and_variable() {
    assert_eq!(
        expand("N in 1..4 { fn f#N () -> u64 { N * 2 } }").unwrap(),
        "fn f1 ( ) - > u64 { 1 * 2 } fn f2 ( ) - > u64 { 2 * 2 } fn f3 ( ) - > u64 { 3 * 2 }"
    );
}

#[test]
fn seq_inclusive_range() {
    assert_eq!(expand("N in 1..=3 { N , }").unwrap(), "1 , 2 , 3 ,");
}

#[test]
fn seq_empty_range_gives_nothing() {
    assert_eq!(expand("N in 3..3 { N }").unwrap(), "");
    assert_eq!(expand("N in 5..2 { N }").unwrap(), "");
}

#[test]
fn seq_repeated_section_inside_each_copy() {
    assert_eq!(expand("N in 0..2 { #( a N )* ; }").unwrap(), "a 0 a 1 ; a 0 a 1 ;");
}

#[test]
fn seq_body_without_variable_is_repeated() {
    assert_eq!(expand("N in 0..3 { x [ y ] }").unwrap(), "x [ y ] x [ y ] x [ y ]");
}

#[test]
fn seq_parse_errors() {
    assert_eq!(expand("").unwrap_err(), "unexpected end of input, expected identifier");
    assert_eq!(expand("fn in 0..1 {}").unwrap_err(), "expected identifier, found keyword `fn`");
    assert_eq!(expand("N on 0..1 {}").unwrap_err(), "expected `in`");
    assert_eq!(expand("N in x..1 {}").unwrap_err(), "expected integer literal");
    assert_eq!(expand("N in 0 1 {}").unwrap_err(), "expected `..`");
    assert_eq!(expand("N in 0..").unwrap_err(), "unexpected end of input, expected integer literal");
    assert_eq!(expand("N in 0..1 x").unwrap_err(), "expected curly braces");
    assert_eq!(expand("N in 0..1 {} x").unwrap_err(), "unexpected token");
}

#[test]
fn seq_literal_values_read_by_syn() {
    let input = SeqMacroInput2::parse(&tokens("N in 0x2..1_0 { N }")).unwrap();
    assert_eq!(input.from.value, Ok(2));
    assert_eq!(input.to.value, Ok(10));
    let big = SeqMacroInput2::parse(&tokens("N in 0..99999999999999999999999 { N }")).unwrap();
    assert!(big.to.value.is_err());
    let neg = SeqMacroInput2::parse(&tokens("N in -1..2 { N }")).unwrap();
    assert_eq!(neg.from.text, "-1");
    assert!(neg.from.value.is_err());
}

#[test]
fn seq_substitutes_at_any_depth() {
    assert_eq!(expand("N in 0..2 { ( N [ N x ] ) }").unwrap(), "( 0 [ 0 x ] ) ( 1 [ 1 x ] )");
    assert_eq!(expand("N in 9..11 { N }").unwrap(), "9 10");
}

#[test]
fn seq_range_validity() {
    let ok = SeqMacroInput2::parse(&tokens("N in 0..3 { N }")).unwrap();
    assert!(ok.has_valid_range());
    let top = SeqMacroInput2::parse(&tokens("N in 0..=18446744073709551615 { N }")).unwrap();
    assert!(!top.has_valid_range());
    let below = SeqMacroInput2::parse(&tokens("N in 0..18446744073709551615 { }")).unwrap();
    assert!(below.has_valid_range());
    let big = SeqMacroInput2::parse(&tokens("N in 0..99999999999999999999999 { N }")).unwrap();
    assert!(!big.has_valid_range());
    let neg = SeqMacroInput2::parse(&tokens("N in -1..2 { N }")).unwrap();
    assert!(!neg.has_valid_range());
}

#[test]
fn seq_entry_point() {
    assert_eq!(render(&macro_workshop::seq_expand::seq(&tokens("N in 0..2 { x N }")).unwrap()), "x 0 x 1");
    assert_eq!(macro_workshop::seq_expand::seq(&tokens("N in 0..2")).unwrap_err().message, "unexpected end of input, expected curly braces");
    assert!(try_seq(&tokens("N in 0..=18446744073709551615 { }")).is_none());
    assert!(try_seq(&tokens("N in 0..1 { }")).unwrap().unwrap().is_empty());
}

#[test]
fn seq_pastes_at_any_depth() {
    assert_eq!(expand("N in 1..3 { f#N ( g # N ) N }").unwrap(), "f1 ( g1 ) 1 f2 ( g2 ) 2");
}

#[test]
fn seq_range_numbers_in_order() {
    assert_eq!(expand("N in 2..=4 { N }").unwrap(), "2 3 4");
    assert_eq!(expand("N in 2..4 { N }").unwrap(), "2 3");
}

#[test]
fn seq_section_repeats_once_per_number() {
    assert_eq!(expand("N in 1..3 { #( f#N , )* }").unwrap(), "f1 , f2 , f1 , f2 ,");
}
