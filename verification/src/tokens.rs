//! A plain-value model of a Rust token stream.

use vstd::prelude::*;

verus! {

/// A line and a column of a source position.
#[derive(Debug, Clone, Copy, PartialEq, Eq, Structural)]
pub struct LineColumn {
    pub line: usize,
    pub column: usize,
}

/// A source span: `id` names the span in the table of the caller that
/// built the tokens (`0` is the call site); `start` and `end` are its
/// source positions.
#[derive(Debug, Clone, Copy, PartialEq, Eq, Structural)]
pub struct Span {
    pub id: usize,
    pub start: LineColumn,
    pub end: LineColumn,
}

/// The delimiter of a group.
#[derive(Debug, Clone, Copy, PartialEq, Eq, Structural)]
pub enum Delimiter {
    Parenthesis,
    Brace,
    Bracket,
    Invisible,
}

/// Whether a punctuation character is joined to the next one.
#[derive(Debug, Clone, Copy, PartialEq, Eq, Structural)]
pub enum Spacing {
    Alone,
    Joint,
}

/// A token tree. `Ident::text` and `Literal::text` are the token as it is
/// printed (a raw identifier keeps its `r#`).
#[derive(Debug, PartialEq, Eq)]
pub enum TokenTree {
    Group { delimiter: Delimiter, stream: Vec<TokenTree>, span: Span, span_open: Span },
    Ident { text: String, span: Span },
    Punct { ch: char, spacing: Spacing, span: Span },
    Literal { text: String, span: Span },
}

/// The mathematical value of a token tree: texts become character
/// sequences and streams become sequences.
pub enum Tok {
    Group { delimiter: Delimiter, stream: Seq<Tok>, span: Span, span_open: Span },
    Ident { text: Seq<char>, span: Span },
    Punct { ch: char, spacing: Spacing, span: Span },
    Literal { text: Seq<char>, span: Span },
}

impl Span {
    /// The span of the macro call site.
    pub open spec fn spec_call_site() -> Span {
        Span { id: 0, start: LineColumn { line: 0, column: 0 }, end: LineColumn { line: 0, column: 0 } }
    }

    pub fn call_site() -> (s: Span)
        ensures
            s == Span::spec_call_site(),
    {
        Span { id: 0, start: LineColumn { line: 0, column: 0 }, end: LineColumn { line: 0, column: 0 } }
    }
}

/// The value of a token tree.
pub open spec fn tree_view(t: TokenTree) -> Tok
    decreases t,
{
    match t {
        TokenTree::Group { delimiter, stream, span, span_open } => Tok::Group {
            delimiter,
            stream: stream_view(stream@),
            span,
            span_open,
        },
        TokenTree::Ident { text, span } => Tok::Ident { text: text@, span },
        TokenTree::Punct { ch, spacing, span } => Tok::Punct { ch, spacing, span },
        TokenTree::Literal { text, span } => Tok::Literal { text: text@, span },
    }
}

/// The value of a sequence of token trees.
pub open spec fn stream_view(s: Seq<TokenTree>) -> Seq<Tok>
    decreases s,
{
    if s.len() == 0 {
        Seq::empty()
    } else {
        stream_view(s.drop_last()).push(tree_view(s.last()))
    }
}

impl View for TokenTree {
    type V = Tok;

    open spec fn view(&self) -> Tok {
        tree_view(*self)
    }
}

/// `stream_view` maps the sequence element by element.
pub broadcast proof fn lemma_stream_view(s: Seq<TokenTree>)
    ensures
        #[trigger] stream_view(s).len() == s.len(),
        forall|i: int| 0 <= i < s.len() ==> #[trigger] stream_view(s)[i] == tree_view(s[i]),
    decreases s.len(),
{
    if s.len() > 0 {
        lemma_stream_view(s.drop_last());
    }
}

/// The view of a concatenation is the concatenation of the views.
pub proof fn lemma_stream_view_add(a: Seq<TokenTree>, b: Seq<TokenTree>)
    ensures
        stream_view(a + b) == stream_view(a) + stream_view(b),
{
    broadcast use lemma_stream_view;
    assert(stream_view(a + b) =~= stream_view(a) + stream_view(b));
}

/// Copies a token stream.
pub fn copy_stream(s: &Vec<TokenTree>) -> (r: Vec<TokenTree>)
    ensures
        stream_view(r@) == stream_view(s@),
    decreases s@,
{
    let mut r: Vec<TokenTree> = Vec::new();
    let mut i: usize = 0;
    while i < s.len()
        invariant
            i <= s.len(),
            stream_view(r@) == stream_view(s@.take(i as int)),
        decreases s.len() - i,
    {
        let t = copy_tree(&s[i]);
        let ghost prev = r@;
        proof {
            assert(s@.take(i + 1).drop_last() =~= s@.take(i as int));
        }
        r.push(t);
        i = i + 1;
        proof {
            assert(r@.drop_last() =~= prev);
        }
    }
    proof {
        assert(s@.take(s.len() as int) =~= s@);
    }
    r
}

/// Copies a token tree.
pub fn copy_tree(t: &TokenTree) -> (r: TokenTree)
    ensures
        r@ == t@,
    decreases t,
{
    match t {
        TokenTree::Group { delimiter, stream, span, span_open } => {
            let inner = copy_stream(stream);
            TokenTree::Group { delimiter: *delimiter, stream: inner, span: *span, span_open: *span_open }
        },
        TokenTree::Ident { text, span } => TokenTree::Ident { text: text.clone(), span: *span },
        TokenTree::Punct { ch, spacing, span } => TokenTree::Punct { ch: *ch, spacing: *spacing, span: *span },
        TokenTree::Literal { text, span } => TokenTree::Literal { text: text.clone(), span: *span },
    }
}

impl Clone for TokenTree {
    fn clone(&self) -> (r: Self)
        ensures
            r@ == self@,
    {
        copy_tree(self)
    }
}

} // verus!
