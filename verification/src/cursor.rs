//! A parse position over a token stream, as a parser of Rust syntax sees it:
//! invisible groups are transparent; the opening of each one is a place
//! where the position can stop, and its end is a place that the position
//! passes over as soon as it gets there.

use vstd::prelude::*;
use crate::tokens::{Delimiter, Span, Spacing, Tok, TokenTree, tree_view, stream_view, lemma_stream_view};

verus! {

/// One place of a linearized stream: the opening of an invisible group
/// (with the span of its opening and of the whole group), its end (with the
/// span of the whole group), or any other token tree.
#[derive(Debug)]
pub enum Entry {
    Open { open: Span, whole: Span },
    Close(Span),
    Tok(TokenTree),
}

/// The value of an [`Entry`].
pub enum EntryV {
    Open { open: Span, whole: Span },
    Close(Span),
    Tok(Tok),
}

impl View for Entry {
    type V = EntryV;

    open spec fn view(&self) -> EntryV {
        match self {
            Entry::Open { open, whole } => EntryV::Open { open: *open, whole: *whole },
            Entry::Close(s) => EntryV::Close(*s),
            Entry::Tok(t) => EntryV::Tok(tree_view(*t)),
        }
    }
}

/// The values of a sequence of entries.
pub open spec fn entries_view(s: Seq<Entry>) -> Seq<EntryV> {
    s.map_values(|e: Entry| e@)
}

/// The linearization of a stream: invisible groups are replaced by their
/// opening, the linearization of their contents and their end.
pub open spec fn linearize(s: Seq<Tok>) -> Seq<EntryV>
    decreases s,
{
    if s.len() == 0 {
        Seq::empty()
    } else {
        linearize(s.drop_last()) + linearize_one(s.last())
    }
}

/// The linearization of one token tree.
pub open spec fn linearize_one(t: Tok) -> Seq<EntryV>
    decreases t,
{
    match t {
        Tok::Group { delimiter: Delimiter::Invisible, stream, span, span_open } => seq![EntryV::Open { open: span_open, whole: span }]
            + linearize(stream) + seq![EntryV::Close(span)],
        _ => seq![EntryV::Tok(t)],
    }
}

/// Appends the linearization of `s` to `out`.
pub fn linearize_into(s: &Vec<TokenTree>, out: &mut Vec<Entry>)
    ensures
        entries_view(final(out)@) == entries_view(old(out)@) + linearize(stream_view(s@)),
    decreases s@,
{
    let ghost start = entries_view(out@);
    let mut i: usize = 0;
    while i < s.len()
        invariant
            i <= s.len(),
            entries_view(out@) == start + linearize(stream_view(s@.take(i as int))),
        decreases s.len() - i,
    {
        let ghost before = entries_view(out@);
        proof {
            assert(s@.take(i + 1).drop_last() =~= s@.take(i as int));
            assert(s@.take(i + 1).last() == s@[i as int]);
        }
        match &s[i] {
            TokenTree::Group { delimiter: Delimiter::Invisible, stream, span, span_open } => {
                out.push(Entry::Open { open: *span_open, whole: *span });
                proof {
                    assert(entries_view(out@) =~= before + seq![EntryV::Open { open: *span_open, whole: *span }]);
                }
                linearize_into(stream, out);
                let ghost mid = entries_view(out@);
                out.push(Entry::Close(*span));
                proof {
                    assert(entries_view(out@) =~= mid + seq![EntryV::Close(*span)]);
                    assert(entries_view(out@) =~= before + linearize_one(tree_view(s@[i as int])));
                }
            },
            _ => {
                out.push(Entry::Tok(crate::tokens::copy_tree(&s[i])));
                proof {
                    assert(entries_view(out@) =~= before + linearize_one(tree_view(s@[i as int])));
                }
            },
        }
        proof {
            let sv = stream_view(s@.take(i as int));
            let x = tree_view(s@[i as int]);
            assert(stream_view(s@.take(i + 1)) == sv.push(x));
            assert(sv.push(x).drop_last() =~= sv);
            assert(linearize(sv.push(x)) == linearize(sv) + linearize_one(x));
        }
        i = i + 1;
    }
    proof {
        assert(s@.take(s.len() as int) =~= s@);
    }
}

/// The linearization of `s`.
pub fn linearized(s: &Vec<TokenTree>) -> (r: Vec<Entry>)
    ensures
        entries_view(r@) == linearize(stream_view(s@)),
{
    let mut r: Vec<Entry> = Vec::new();
    linearize_into(s, &mut r);
    proof {
        assert(entries_view(Seq::<Entry>::empty()) =~= Seq::<EntryV>::empty());
    }
    r
}



/// The first place at or after `p` that holds a token tree (the length of
/// `e` when there is none): where a parser reads the next token.
pub open spec fn skip_open(e: Seq<EntryV>, p: int) -> int
    decreases e.len() - p,
{
    if p >= e.len() {
        e.len() as int
    } else if !(e[p] is Tok) {
        skip_open(e, p + 1)
    } else {
        p
    }
}

/// The place that a parse position at `p` stands on: the ends of invisible
/// groups are passed over.
pub open spec fn land(e: Seq<EntryV>, p: int) -> int
    decreases e.len() - p,
{
    if p >= e.len() {
        e.len() as int
    } else if e[p] is Close {
        land(e, p + 1)
    } else {
        p
    }
}

/// The token that a parser sees at `p`: the first token tree at or after it.
pub open spec fn next_tok(e: Seq<EntryV>, p: int) -> Option<Tok> {
    let q = skip_open(e, p);
    if 0 <= q < e.len() {
        match e[q] {
            EntryV::Tok(t) => Some(t),
            _ => None,
        }
    } else {
        None
    }
}

/// The span of the opening of a token tree.
pub open spec fn open_span_of(t: Tok) -> Span {
    match t {
        Tok::Group { span_open, .. } => span_open,
        Tok::Ident { span, .. } => span,
        Tok::Punct { span, .. } => span,
        Tok::Literal { span, .. } => span,
    }
}

/// The span of a whole token tree.
pub open spec fn span_of(t: Tok) -> Span {
    match t {
        Tok::Group { span, .. } => span,
        Tok::Ident { span, .. } => span,
        Tok::Punct { span, .. } => span,
        Tok::Literal { span, .. } => span,
    }
}

/// The span that an error at the place `p` points to.
pub open spec fn span_at(e: Seq<EntryV>, p: int) -> Span {
    match e[p] {
        EntryV::Open { open, .. } => open,
        EntryV::Close(s) => s,
        EntryV::Tok(t) => open_span_of(t),
    }
}

/// The span of the input at `p`: the span an error there points to, or
/// `scope` at the end.
pub open spec fn input_span(e: Seq<EntryV>, p: int, scope: Span) -> Span {
    if land(e, p) >= e.len() {
        scope
    } else {
        span_at(e, land(e, p))
    }
}

/// The span of what comes just before the place `p`: a token tree, or the
/// whole invisible group that opens or ends there.
pub open spec fn prev_span(e: Seq<EntryV>, p: int) -> Span {
    match e[p - 1] {
        EntryV::Open { whole, .. } => whole,
        EntryV::Close(s) => s,
        EntryV::Tok(t) => span_of(t),
    }
}

/// An error message with the span range it points to.
#[derive(Debug)]
pub struct SynError {
    pub message: String,
    pub start: Span,
    pub end: Span,
}

/// The value of a [`SynError`].
pub struct SynErrorV {
    pub message: Seq<char>,
    pub start: Span,
    pub end: Span,
}

impl View for SynError {
    type V = SynErrorV;

    open spec fn view(&self) -> SynErrorV {
        SynErrorV { message: self.message@, start: self.start, end: self.end }
    }
}

/// The error with message `msg` raised at the place `p`, in a stream whose
/// end is reported at `scope`: at the end of the stream the message says so.
pub open spec fn error_at(e: Seq<EntryV>, p: int, scope: Span, msg: Seq<char>) -> SynErrorV {
    if land(e, p) >= e.len() {
        SynErrorV { message: "unexpected end of input, "@ + msg, start: scope, end: scope }
    } else {
        SynErrorV { message: msg, start: span_at(e, land(e, p)), end: span_at(e, land(e, p)) }
    }
}

/// An error with message `msg` at `span`.
pub open spec fn error_spanned(span: Span, msg: Seq<char>) -> SynErrorV {
    SynErrorV { message: msg, start: span, end: span }
}

/// The place after the punctuation `c` that a parser sees at `p`, where it
/// is there (an apostrophe is never seen as punctuation) and, if `joint`,
/// joined to the next character.
pub open spec fn punct_after(e: Seq<EntryV>, p: int, c: char, joint: bool) -> Option<int> {
    match next_tok(e, p) {
        Some(Tok::Punct { ch, spacing, .. }) => if ch == c && c != '\'' && (!joint || spacing == Spacing::Joint) {
            Some(skip_open(e, p) + 1)
        } else {
            None
        },
        _ => None,
    }
}

/// The place after the identifier that a parser sees at `p`, with its text.
pub open spec fn ident_after(e: Seq<EntryV>, p: int) -> Option<(Seq<char>, int)> {
    match next_tok(e, p) {
        Some(Tok::Ident { text, .. }) => Some((text, skip_open(e, p) + 1)),
        _ => None,
    }
}

/// Moves past the openings and ends of invisible groups.
pub fn skip_open_at(e: &Vec<Entry>, p: usize) -> (q: usize)
    requires
        p <= e.len(),
    ensures
        q == skip_open(entries_view(e@), p as int),
        p <= q <= e.len(),
        q < e.len() ==> e@[q as int] is Tok,
{
    let mut q = p;
    while q < e.len()
        invariant
            p <= q <= e.len(),
            skip_open(entries_view(e@), q as int) == skip_open(entries_view(e@), p as int),
        decreases e.len() - q,
    {
        match &e[q] {
            Entry::Tok(_) => {
                return q;
            },
            _ => {
                q = q + 1;
            },
        }
    }
    q
}

/// Passes over the ends of invisible groups.
pub fn land_at(e: &Vec<Entry>, p: usize) -> (q: usize)
    requires
        p <= e.len(),
    ensures
        q == land(entries_view(e@), p as int),
        p <= q <= e.len(),
        q < e.len() ==> !(e@[q as int] is Close),
{
    let mut q = p;
    while q < e.len()
        invariant
            p <= q <= e.len(),
            land(entries_view(e@), q as int) == land(entries_view(e@), p as int),
        decreases e.len() - q,
    {
        match &e[q] {
            Entry::Close(_) => {
                q = q + 1;
            },
            _ => {
                return q;
            },
        }
    }
    q
}

/// The span that an error at the place `p` points to, as [`span_at`] says.
pub fn span_at_place(e: &Vec<Entry>, p: usize) -> (s: Span)
    requires
        p < e.len(),
    ensures
        s == span_at(entries_view(e@), p as int),
{
    match &e[p] {
        Entry::Open { open, .. } => *open,
        Entry::Close(s) => *s,
        Entry::Tok(t) => open_span(t),
    }
}

/// The span of the input at `p`, as [`input_span`] says.
pub fn input_span_at(e: &Vec<Entry>, p: usize, scope: Span) -> (s: Span)
    requires
        p <= e.len(),
    ensures
        s == input_span(entries_view(e@), p as int, scope),
{
    let l = land_at(e, p);
    if l >= e.len() {
        scope
    } else {
        span_at_place(e, l)
    }
}

/// The span of what comes just before `p`, as [`prev_span`] says.
pub fn prev_span_at(e: &Vec<Entry>, p: usize) -> (s: Span)
    requires
        0 < p <= e.len(),
    ensures
        s == prev_span(entries_view(e@), p as int),
{
    match &e[p - 1] {
        Entry::Open { whole, .. } => *whole,
        Entry::Close(s) => *s,
        Entry::Tok(t) => whole_span(t),
    }
}

/// The span of the opening of a token tree.
pub fn open_span(t: &TokenTree) -> (s: Span)
    ensures
        s == open_span_of(t@),
{
    match t {
        TokenTree::Group { span_open, .. } => *span_open,
        TokenTree::Ident { span, .. } => *span,
        TokenTree::Punct { span, .. } => *span,
        TokenTree::Literal { span, .. } => *span,
    }
}

/// The span of a whole token tree.
pub fn whole_span(t: &TokenTree) -> (s: Span)
    ensures
        s == span_of(t@),
{
    match t {
        TokenTree::Group { span, .. } => *span,
        TokenTree::Ident { span, .. } => *span,
        TokenTree::Punct { span, .. } => *span,
        TokenTree::Literal { span, .. } => *span,
    }
}

/// The error with message `msg` raised at the place `p`.
pub fn error_at_place(e: &Vec<Entry>, p: usize, scope: Span, msg: &str) -> (r: SynError)
    requires
        p <= e.len(),
    ensures
        r@ == error_at(entries_view(e@), p as int, scope, msg@),
{
    let l = land_at(e, p);
    if l >= e.len() {
        SynError { message: crate::text::join("unexpected end of input, ", msg), start: scope, end: scope }
    } else {
        let s = span_at_place(e, l);
        SynError { message: String::from_str(msg), start: s, end: s }
    }
}

/// The place after the punctuation `c` at `p`, as [`punct_after`] says.
pub fn punct_after_at(e: &Vec<Entry>, p: usize, c: char, joint: bool) -> (r: Option<usize>)
    requires
        p <= e.len(),
    ensures
        match r {
            Option::Some(q) => punct_after(entries_view(e@), p as int, c, joint) == Some(q as int) && q <= e.len(),
            Option::None => punct_after(entries_view(e@), p as int, c, joint) is None,
        },
{
    let q = skip_open_at(e, p);
    if q >= e.len() {
        return None;
    }
    match &e[q] {
        Entry::Tok(TokenTree::Punct { ch, spacing, .. }) => {
            if *ch == c && c != '\'' && (!joint || *spacing == Spacing::Joint) {
                Some(q + 1)
            } else {
                None
            }
        },
        _ => None,
    }
}

/// The place of the identifier at `p`, as [`ident_after`] says.
pub fn ident_place(e: &Vec<Entry>, p: usize) -> (r: Option<usize>)
    requires
        p <= e.len(),
    ensures
        match r {
            Option::Some(q) => q < e.len() && (e@[q as int] matches Entry::Tok(TokenTree::Ident { text, .. })
                && ident_after(entries_view(e@), p as int) == Some((text@, q + 1))),
            Option::None => ident_after(entries_view(e@), p as int) is None,
        },
{
    let q = skip_open_at(e, p);
    if q >= e.len() {
        return None;
    }
    match &e[q] {
        Entry::Tok(TokenTree::Ident { .. }) => Some(q),
        _ => None,
    }
}

/// The span of an error for a missing punctuation at `p`: the punctuation
/// seen there, or else the span of the input there.
pub open spec fn punct_error_span(e: Seq<EntryV>, p: int, scope: Span) -> Span {
    match next_tok(e, p) {
        Some(Tok::Punct { ch, span, .. }) => if ch != '\'' {
            span
        } else {
            input_span(e, p, scope)
        },
        _ => input_span(e, p, scope),
    }
}

/// The span of an error for a missing punctuation, as [`punct_error_span`]
/// says.
pub fn punct_error_span_at(e: &Vec<Entry>, p: usize, scope: Span) -> (s: Span)
    requires
        p <= e.len(),
    ensures
        s == punct_error_span(entries_view(e@), p as int, scope),
{
    let q = skip_open_at(e, p);
    if q < e.len() {
        if let Entry::Tok(TokenTree::Punct { ch, span, .. }) = &e[q] {
            if *ch != '\'' {
                return *span;
            }
        }
    }
    input_span_at(e, p, scope)
}

/// Where the openings and ends after `p` end.
pub proof fn lemma_skip_open_range(e: Seq<EntryV>, p: int)
    requires
        0 <= p <= e.len(),
    ensures
        p <= skip_open(e, p) <= e.len(),
        skip_open(e, p) < e.len() ==> e[skip_open(e, p)] is Tok,
    decreases e.len() - p,
{
    if p < e.len() && !(e[p] is Tok) {
        lemma_skip_open_range(e, p + 1);
    }
}

/// Where the ends after `p` end; a position already passed over them stays.
pub proof fn lemma_land_range(e: Seq<EntryV>, p: int)
    requires
        0 <= p <= e.len(),
    ensures
        p <= land(e, p) <= e.len(),
        land(e, p) < e.len() ==> !(e[land(e, p)] is Close),
        land(e, land(e, p)) == land(e, p),
    decreases e.len() - p,
{
    if p < e.len() && e[p] is Close {
        lemma_land_range(e, p + 1);
    }
}

} // verus!
