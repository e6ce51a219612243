//! Pieces of Rust syntax that the macros read: reserved words, integer
//! literals and delimited groups, at a parse position.

use vstd::prelude::*;
use crate::cursor::{Entry, EntryV, SynError, SynErrorV, entries_view, error_at, error_at_place, error_spanned, ident_after,
    ident_place, next_tok, skip_open, skip_open_at, span_of, whole_span};
use crate::literal::{int_literal, read_int_literal};
use crate::text::text_is;
use crate::tokens::{Delimiter, Span, Tok, TokenTree};

verus! {

/// The words that `syn` refuses as an identifier.
pub open spec fn is_reserved_word(t: Seq<char>) -> bool {
    t == "_"@ || t == "abstract"@ || t == "as"@ || t == "async"@ || t == "await"@ || t == "become"@
        || t == "box"@ || t == "break"@ || t == "const"@ || t == "continue"@ || t == "crate"@
        || t == "do"@ || t == "dyn"@ || t == "else"@ || t == "enum"@ || t == "extern"@
        || t == "false"@ || t == "final"@ || t == "fn"@ || t == "for"@ || t == "if"@
        || t == "impl"@ || t == "in"@ || t == "let"@ || t == "loop"@ || t == "macro"@
        || t == "match"@ || t == "mod"@ || t == "move"@ || t == "mut"@ || t == "override"@
        || t == "priv"@ || t == "pub"@ || t == "ref"@ || t == "return"@ || t == "Self"@
        || t == "self"@ || t == "static"@ || t == "struct"@ || t == "super"@ || t == "trait"@
        || t == "true"@ || t == "try"@ || t == "type"@ || t == "typeof"@ || t == "unsafe"@
        || t == "unsized"@ || t == "use"@ || t == "virtual"@ || t == "where"@ || t == "while"@
        || t == "yield"@
}

/// Whether `t` is a word that `syn` refuses as an identifier.
pub fn reserved_word(t: &String) -> (r: bool)
    ensures
        r == is_reserved_word(t@),
{
    text_is(t, "_") || text_is(t, "abstract") || text_is(t, "as") || text_is(t, "async")
        || text_is(t, "await") || text_is(t, "become") || text_is(t, "box") || text_is(t, "break")
        || text_is(t, "const") || text_is(t, "continue") || text_is(t, "crate") || text_is(t, "do")
        || text_is(t, "dyn") || text_is(t, "else") || text_is(t, "enum") || text_is(t, "extern")
        || text_is(t, "false") || text_is(t, "final") || text_is(t, "fn") || text_is(t, "for")
        || text_is(t, "if") || text_is(t, "impl") || text_is(t, "in") || text_is(t, "let")
        || text_is(t, "loop") || text_is(t, "macro") || text_is(t, "match") || text_is(t, "mod")
        || text_is(t, "move") || text_is(t, "mut") || text_is(t, "override") || text_is(t, "priv")
        || text_is(t, "pub") || text_is(t, "ref") || text_is(t, "return") || text_is(t, "Self")
        || text_is(t, "self") || text_is(t, "static") || text_is(t, "struct") || text_is(t, "super")
        || text_is(t, "trait") || text_is(t, "true") || text_is(t, "try") || text_is(t, "type")
        || text_is(t, "typeof") || text_is(t, "unsafe") || text_is(t, "unsized") || text_is(t, "use")
        || text_is(t, "virtual") || text_is(t, "where") || text_is(t, "while") || text_is(t, "yield")
}

/// An integer literal as read from the tokens: its text (with the sign when
/// it is negative), its reading, and the span range it covers.
#[derive(Debug)]
pub struct IntLit {
    pub text: String,
    pub value: Result<usize, String>,
    pub start: Span,
    pub end: Span,
}

/// The value of an [`IntLit`].
pub struct IntLitV {
    pub text: Seq<char>,
    pub value: Result<usize, Seq<char>>,
    pub start: Span,
    pub end: Span,
}

impl View for IntLit {
    type V = IntLitV;

    open spec fn view(&self) -> IntLitV {
        IntLitV {
            text: self.text@,
            value: match self.value {
                Ok(v) => Ok(v),
                Err(m) => Err(m@),
            },
            start: self.start,
            end: self.end,
        }
    }
}

/// The integer literal that a parser reads at `p`, with the place after it:
/// one literal token, or a `-` followed by one.
pub open spec fn int_lit_after(e: Seq<EntryV>, p: int) -> Option<(IntLitV, int)> {
    let q = skip_open(e, p);
    match next_tok(e, p) {
        Some(Tok::Literal { text, span }) => match int_literal(text) {
            Some(v) => Some((IntLitV { text, value: v, start: span, end: span }, q + 1)),
            None => None,
        },
        Some(Tok::Punct { ch, span, .. }) => if ch == '-' {
            match next_tok(e, q + 1) {
                Some(Tok::Literal { text, span: span2 }) => match int_literal(seq!['-'] + text) {
                    Some(v) => Some((
                        IntLitV { text: seq!['-'] + text, value: v, start: span, end: span2 },
                        skip_open(e, q + 1) + 1,
                    )),
                    None => None,
                },
                _ => None,
            }
        } else {
            None
        },
        _ => None,
    }
}

/// Reads the integer literal at `p`, as [`int_lit_after`] says.
pub fn int_lit_place(e: &Vec<Entry>, p: usize) -> (r: Option<(IntLit, usize)>)
    requires
        p <= e.len(),
    ensures
        match r {
            Option::Some((l, q)) => q <= e.len() && int_lit_after(entries_view(e@), p as int) == Some((l@, q as int)),
            Option::None => int_lit_after(entries_view(e@), p as int) is None,
        },
{
    let q = skip_open_at(e, p);
    if q >= e.len() {
        return None;
    }
    match &e[q] {
        Entry::Tok(TokenTree::Literal { text, span }) => {
            match read_int_literal(text.as_str()) {
                Some(v) => Some((IntLit { text: text.clone(), value: v, start: *span, end: *span }, q + 1)),
                None => None,
            }
        },
        Entry::Tok(TokenTree::Punct { ch, span, .. }) => {
            if *ch != '-' {
                return None;
            }
            let q2 = skip_open_at(e, q + 1);
            if q2 >= e.len() {
                return None;
            }
            match &e[q2] {
                Entry::Tok(TokenTree::Literal { text, span: span2 }) => {
                    let full = crate::text::join("-", text.as_str());
                    proof {
                        reveal_strlit("-");
                        assert(full@ =~= seq!['-'] + text@);
                    }
                    match read_int_literal(full.as_str()) {
                        Some(v) => Some((IntLit { text: full, value: v, start: *span, end: *span2 }, q2 + 1)),
                        None => None,
                    }
                },
                _ => None,
            }
        },
        _ => None,
    }
}

/// The contents of the group delimited by `d` that a parser sees at `p`,
/// with the place after it.
pub open spec fn group_after(e: Seq<EntryV>, p: int, d: Delimiter) -> Option<(Seq<Tok>, int)> {
    match next_tok(e, p) {
        Some(Tok::Group { delimiter, stream, .. }) => if delimiter == d {
            Some((stream, skip_open(e, p) + 1))
        } else {
            None
        },
        _ => None,
    }
}

/// The place of the group delimited by `d` at `p`, as [`group_after`] says.
pub fn group_place(e: &Vec<Entry>, p: usize, d: Delimiter) -> (r: Option<usize>)
    requires
        p <= e.len(),
    ensures
        match r {
            Option::Some(q) => q < e.len() && (e@[q as int] matches Entry::Tok(TokenTree::Group { stream, .. })
                && group_after(entries_view(e@), p as int, d) == Some((crate::tokens::stream_view(stream@), q + 1))),
            Option::None => group_after(entries_view(e@), p as int, d) is None,
        },
{
    let q = skip_open_at(e, p);
    if q >= e.len() {
        return None;
    }
    match &e[q] {
        Entry::Tok(TokenTree::Group { delimiter, .. }) => {
            if *delimiter == d {
                Some(q)
            } else {
                None
            }
        },
        _ => None,
    }
}

/// The error for a token left over after a complete parse, if any.
pub open spec fn leftover_error(e: Seq<EntryV>, p: int) -> Option<SynErrorV> {
    match next_tok(e, p) {
        Some(t) => Some(error_spanned(span_of(t), "unexpected token"@)),
        None => None,
    }
}

/// Reports a token left over at `p`, as [`leftover_error`] says.
pub fn leftover_at(e: &Vec<Entry>, p: usize) -> (r: Option<SynError>)
    requires
        p <= e.len(),
    ensures
        match r {
            Option::Some(x) => leftover_error(entries_view(e@), p as int) == Some(x@),
            Option::None => leftover_error(entries_view(e@), p as int) is None,
        },
{
    let q = skip_open_at(e, p);
    if q >= e.len() {
        return None;
    }
    match &e[q] {
        Entry::Tok(t) => {
            let s = whole_span(t);
            Some(SynError { message: String::from_str("unexpected token"), start: s, end: s })
        },
        _ => None,
    }
}


/// The loop variable and the keyword `in` at the start of a `seq!` input:
/// the variable's text and the place after `in`.
pub open spec fn name_in_after(e: Seq<EntryV>) -> Result<(Seq<char>, int), SynErrorV> {
    let cs = Span::spec_call_site();
    match ident_after(e, 0) {
        None => Err(error_at(e, 0, cs, "expected identifier"@)),
        Some((ident, p1)) => if is_reserved_word(ident) {
            Err(error_at(e, 0, cs, "expected identifier, found keyword `"@ + ident + "`"@))
        } else {
            match ident_after(e, p1) {
                Some((kw, p2)) => if kw == "in"@ {
                    Ok((ident, p2))
                } else {
                    Err(error_at(e, p1, cs, "expected `in`"@))
                },
                None => Err(error_at(e, p1, cs, "expected `in`"@)),
            }
        }
    }
}

/// Reads the loop variable and `in`, as [`name_in_after`] says.
pub fn name_in_place(e: &Vec<Entry>) -> (r: Result<(String, usize), SynError>)
    ensures
        match r {
            Ok((t, p)) => p <= e.len() && name_in_after(entries_view(e@)) == Ok::<(Seq<char>, int), SynErrorV>((t@, p as int)),
            Err(x) => name_in_after(entries_view(e@)) == Err::<(Seq<char>, int), SynErrorV>(x@),
        },
{
    let cs = Span::call_site();
    let q0 = match ident_place(e, 0) {
        Some(q) => q,
        None => {
            return Err(error_at_place(e, 0, cs, "expected identifier"));
        },
    };
    let ident = match &e[q0] {
        Entry::Tok(TokenTree::Ident { text, .. }) => text.clone(),
        _ => {
            return Err(error_at_place(e, 0, cs, "expected identifier"));
        },
    };
    if reserved_word(&ident) {
        let mut msg = String::from_str("expected identifier, found keyword `");
        msg.append(ident.as_str());
        msg.append("`");
        return Err(error_at_place(e, 0, cs, msg.as_str()));
    }
    let p1 = q0 + 1;
    let q1 = match ident_place(e, p1) {
        Some(q) => q,
        None => {
            return Err(error_at_place(e, p1, cs, "expected `in`"));
        },
    };
    let is_in = match &e[q1] {
        Entry::Tok(TokenTree::Ident { text, .. }) => text_is(text, "in"),
        _ => false,
    };
    if !is_in {
        return Err(error_at_place(e, p1, cs, "expected `in`"));
    }
    Ok((ident, q1 + 1))
}

/// The integer literal at `p`, or the error for its absence.
pub open spec fn int_lit_or_error(e: Seq<EntryV>, p: int) -> Result<(IntLitV, int), SynErrorV> {
    match int_lit_after(e, p) {
        Some(x) => Ok(x),
        None => Err(error_at(e, p, Span::spec_call_site(), "expected integer literal"@)),
    }
}

/// Reads the integer literal at `p`, as [`int_lit_or_error`] says.
pub fn int_lit_or_error_at(e: &Vec<Entry>, p: usize) -> (r: Result<(IntLit, usize), SynError>)
    requires
        p <= e.len(),
    ensures
        match r {
            Ok((l, q)) => q <= e.len() && int_lit_or_error(entries_view(e@), p as int) == Ok::<(IntLitV, int), SynErrorV>((l@, q as int)),
            Err(x) => int_lit_or_error(entries_view(e@), p as int) == Err::<(IntLitV, int), SynErrorV>(x@),
        },
{
    match int_lit_place(e, p) {
        Some(x) => Ok(x),
        None => Err(error_at_place(e, p, Span::call_site(), "expected integer literal")),
    }
}

/// The contents of the braced group at `p` with the place after it, or the
/// error for its absence.
pub open spec fn braces_or_error(e: Seq<EntryV>, p: int) -> Result<(Seq<Tok>, int), SynErrorV> {
    match group_after(e, p, Delimiter::Brace) {
        Some(x) => Ok(x),
        None => Err(error_at(e, p, Span::spec_call_site(), "expected curly braces"@)),
    }
}

/// Reads the braced group at `p`, as [`braces_or_error`] says.
pub fn braces_or_error_at(e: &Vec<Entry>, p: usize) -> (r: Result<(Vec<TokenTree>, usize), SynError>)
    requires
        p <= e.len(),
    ensures
        match r {
            Ok((g, q)) => q <= e.len() && braces_or_error(entries_view(e@), p as int)
                == Ok::<(Seq<Tok>, int), SynErrorV>((crate::tokens::stream_view(g@), q as int)),
            Err(x) => braces_or_error(entries_view(e@), p as int) == Err::<(Seq<Tok>, int), SynErrorV>(x@),
        },
{
    match group_place(e, p, Delimiter::Brace) {
        Some(q) => match &e[q] {
            Entry::Tok(TokenTree::Group { stream, .. }) => Ok((crate::tokens::copy_stream(stream), q + 1)),
            _ => Err(error_at_place(e, p, Span::call_site(), "expected curly braces")),
        },
        None => Err(error_at_place(e, p, Span::call_site(), "expected curly braces")),
    }
}

} // verus!
