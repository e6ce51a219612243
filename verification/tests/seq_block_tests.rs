use macro_workshop::seq_block::SeqMacroInput;
use macro_workshop::tokens::{Delimiter, LineColumn, Spacing, Span, TokenTree};

fn span_of(s: proc_macro2::Span) -> Span {
    let a = s.start();
    let b = s.end();
    Span { id: 1, start: LineColumn { line: a.line, column: a.column }, end: LineColumn { line: b.line, column: b.column } }
}

fn convert(ts: proc_macro2::TokenStream) -> Vec<TokenTree> {
    ts.into_iter().map(convert_tree).collect()
}

fn convert_tree(t: proc_macro2::TokenTree) -> TokenTree {
    match t {
        proc_macro2::TokenTree::Group(g) => TokenTree::Group {
            delimiter: match g.delimiter() {
                proc_macro2::Delimiter::Parenthesis => Delimiter::Parenthesis,
                proc_macro2::Delimiter::Brace => Delimiter::Brace,
                proc_macro2::Delimiter::Bracket => Delimiter::Bracket,
                proc_macro2::Delimiter::None => Delimiter::Invisible,
            },
            stream: convert(g.stream()),
            span: span_of(g.span()),
            span_open: span_of(g.span_open()),
        },
        proc_macro2::TokenTree::Ident(i) => TokenTree::Ident { text: i.to_string(), span: span_of(i.span()) },
        proc_macro2::TokenTree::Punct(p) => TokenTree::Punct {
            ch: p.as_char(),
            spacing: if p.spacing() == proc_macro2::Spacing::Joint { Spacing::Joint } else { Spacing::Alone },
            span: span_of(p.span()),
        },
        proc_macro2::TokenTree::Literal(l) => TokenTree::Literal { text: l.to_string(), span: span_of(l.span()) },
    }
}

fn tokens(src: &str) -> Vec<TokenTree> {
    convert(src.parse::<proc_macro2::TokenStream>().unwrap())
}

fn render(v: &[TokenTree]) -> String {
    let mut parts: Vec<String> = Vec::new();
    for t in v {
        parts.push(match t {
            TokenTree::Group { delimiter, stream, .. } => {
                let inner = render(stream);
                let (open, close) = match delimiter {
                    Delimiter::Parenthesis => ("(", ")"),
                    Delimiter::Brace => ("{", "}"),
                    Delimiter::Bracket => ("[", "]"),
                    Delimiter::Invisible => ("«", "»"),
                };
                if inner.is_empty() { format!("{} {}", open, close) } else { format!("{} {} {}", open, inner, close) }
            },
            TokenTree::Ident { text, .. } => text.clone(),
            TokenTree::Punct { ch, .. } => ch.to_string(),
            TokenTree::Literal { text, .. } => text.clone(),
        });
    }
    parts.join(" ")
}

fn parse(src: &str) -> Result<SeqMacroInput, String> {
    match SeqMacroInput::try_parse(&tokens(src)) {
        Some(Ok(v)) => Ok(v),
        Some(Err(e)) => Err(e.message),
        None => Err("end overflows".to_string()),
    }
}

#[test]
fn block_parse_reads_name_and_range() {
    let input = parse("N in 0..3 { a N }").unwrap();
    assert_eq!(input.name, "N");
    assert_eq!(input.start, 0);
    assert_eq!(input.end, 3);
    assert_eq!(render(&input.body), "a N");
    let input = parse("N in 1..=3 {}").unwrap();
    assert_eq!((input.start, input.end), (1, 4));
    let input = SeqMacroInput::parse(&tokens("I in 0x10..0b11 { }")).unwrap();
    assert_eq!((input.start, input.end), (16, 3));
}

#[test]
fn block_parse_errors() {
    assert_eq!(parse("N in 0..x {}").unwrap_err(), "expected integer literal");
    assert_eq!(parse("N in 0..99999999999999999999 {}").unwrap_err(), "number too large to fit in target type");
    assert_eq!(parse("N in 99999999999999999999..1 {}").unwrap_err(), "number too large to fit in target type");
    assert_eq!(parse("N in 99999999999999999999..1 x").unwrap_err(), "expected curly braces");
    assert_eq!(parse("N in 0 1 {}").unwrap_err(), "expected `..`");
    assert_eq!(parse("N in 0..1 {} x").unwrap_err(), "unexpected token");
    assert_eq!(parse("in in 0..1 {}").unwrap_err(), "expected identifier, found keyword `in`");
    assert_eq!(parse("N in 0..=18446744073709551615 {}").unwrap_err(), "end overflows");
}

#[test]
fn block_expand_pastes_and_numbers_places() {
    let input = parse("N in 0..1 {}").unwrap();
    let out = input.expand(&tokens("f#N N ( N ) x"), 5);
    assert_eq!(render(&out), "f5 3 ( 0 ) x");
    match &out[2] {
        TokenTree::Group { span, .. } => assert_eq!(*span, Span::call_site()),
        other => panic!("unexpected {:?}", other),
    }
    let out = input.expand(&tokens("f # N"), 5);
    assert_eq!(render(&out), "f # 2");
}

#[test]
fn block_walk_repeats_sections_and_braces_groups() {
    let input = parse("N in 0..2 {}").unwrap();
    let (out, found) = input.find_block_to_expand_and_do_expand(&tokens("#( a N )* b ( c ) [ d ] 'x e"));
    assert!(found);
    assert_eq!(render(&out), "a 1 a 1 b { c } { d } ' x e");
    let (out, found) = input.find_block_to_expand_and_do_expand(&tokens("a ( b # ( c )* ) d"));
    assert!(!found);
    assert_eq!(render(&out), "a { b c c } d");
    let (out, found) = input.find_block_to_expand_and_do_expand(&tokens("a ( b )"));
    assert!(!found);
    assert_eq!(render(&out), "a { b }");
}

#[test]
fn block_walk_stops_on_lone_apostrophe() {
    let input = parse("N in 0..2 {}").unwrap();
    let cs = Span::call_site();
    let body = vec![
        TokenTree::Ident { text: "a".to_string(), span: cs },
        TokenTree::Punct { ch: '\'', spacing: Spacing::Alone, span: cs },
    ];
    assert!(input.try_find_block_to_expand_and_do_expand(&body).is_none());
    let ok = vec![TokenTree::Ident { text: "a".to_string(), span: cs }];
    assert_eq!(render(&input.try_find_block_to_expand_and_do_expand(&ok).unwrap().0), "a");
}

#[test]
fn block_expand_without_name_keeps_tokens() {
    let input = parse("N in 0..1 {}").unwrap();
    let out = input.expand(&tokens("a ( b [ c ] ) d # e"), 7);
    assert_eq!(render(&out), "a ( b [ c ] ) d # e");
    match &out[1] {
        TokenTree::Group { span, stream, .. } => {
            assert_eq!(*span, Span::call_site());
            match &stream[1] {
                TokenTree::Group { span, .. } => assert_eq!(*span, Span::call_site()),
                other => panic!("unexpected {:?}", other),
            }
        },
        other => panic!("unexpected {:?}", other),
    }
}
