//! An earlier form of the `seq!` expander: `N in A..B { body }` where only
//! the `#( ... )*` sections of the body are repeated (found by walking the
//! body as a parser does), or, without such a section, the whole body.

use vstd::prelude::*;
use crate::cursor::{Entry, EntryV, SynError, SynErrorV, entries_view, error_spanned, linearize, linearized,
    linearize_one, next_tok, punct_after, punct_after_at, skip_open, skip_open_at, land, land_at, lemma_skip_open_range, lemma_land_range};
use crate::seq_expand::{dots_after, dots_error_span, range_dots_at, dots_eq_after, lacks, lacks_tok, lemma_lacks_index};
use crate::syntax::{IntLit, IntLitV, braces_or_error, braces_or_error_at, group_after, group_place, int_lit_or_error,
    int_lit_or_error_at, leftover_at, leftover_error, name_in_after, name_in_place};
use crate::text::{decimal, decimal_reads_back, decimal_string, numeral_value};
use crate::tokens::{Delimiter, LineColumn, Span, Spacing, Tok, TokenTree, copy_tree, lemma_stream_view,
    lemma_stream_view_add, stream_view, tree_view};

verus! {

/// The parsed input of the block form of `seq!`.
#[derive(Debug)]
pub struct SeqMacroInput {
    pub name: String,
    pub start: usize,
    pub end: usize,
    pub body: Vec<TokenTree>,
}

/// The value of a [`SeqMacroInput`].
pub struct SeqBlockV {
    pub name: Seq<char>,
    pub start: usize,
    pub end: usize,
    pub body: Seq<Tok>,
}

impl View for SeqMacroInput {
    type V = SeqBlockV;

    open spec fn view(&self) -> SeqBlockV {
        SeqBlockV { name: self.name@, start: self.start, end: self.end, body: stream_view(self.body@) }
    }
}

/// The outcome of reading the block form of `seq!`: an input, an error, or
/// an inclusive range that ends at `usize::MAX`, whose end cannot be made
/// exclusive.
pub enum BlockParse {
    Parsed(SeqBlockV),
    Failed(SynErrorV),
    EndOverflow,
}

/// The error for a literal that cannot be read as a `usize`.
pub open spec fn value_error(l: IntLitV) -> SynErrorV {
    SynErrorV { message: l.value->Err_0, start: l.start, end: l.end }
}

/// The block form read from the place after the range's end literal.
pub open spec fn parse_block_tail(e: Seq<EntryV>, name: Seq<char>, start: IntLitV, inclusive: bool, end: usize, p: int) -> BlockParse {
    match braces_or_error(e, p) {
        Err(x) => BlockParse::Failed(x),
        Ok((body, p2)) => match start.value {
            Err(_) => BlockParse::Failed(value_error(start)),
            Ok(s) => if inclusive && end == usize::MAX {
                BlockParse::EndOverflow
            } else {
                match leftover_error(e, p2) {
                    Some(x) => BlockParse::Failed(x),
                    None => BlockParse::Parsed(SeqBlockV {
                        name,
                        start: s,
                        end: if inclusive { (end + 1) as usize } else { end },
                        body,
                    }),
                }
            },
        },
    }
}

/// The block form `N in A..B { body }` or `N in A..=B { body }` read from
/// the linearized tokens `e`: the end literal is read as a `usize` before
/// the body, the start literal after it; every token must be used.
pub open spec fn parse_block(e: Seq<EntryV>) -> BlockParse {
    match name_in_after(e) {
        Err(x) => BlockParse::Failed(x),
        Ok((name, p2)) => match int_lit_or_error(e, p2) {
            Err(x) => BlockParse::Failed(x),
            Ok((start, p3)) => match dots_after(e, p3) {
                None => BlockParse::Failed(error_spanned(dots_error_span(e, p3), "expected `..`"@)),
                Some(p4) => {
                    let inclusive = punct_after(e, p4, '=', false) is Some;
                    let p5 = if inclusive { punct_after(e, p4, '=', false).unwrap() } else { p4 };
                    match int_lit_or_error(e, p5) {
                        Err(x) => BlockParse::Failed(x),
                        Ok((end, p6)) => match end.value {
                            Err(_) => BlockParse::Failed(value_error(end)),
                            Ok(v) => parse_block_tail(e, name, start, inclusive, v, p6),
                        },
                    }
                },
            },
        },
    }
}

/// What a block expansion with the number `n` gives for `s` from the place
/// `idx` on.
///
/// A group is expanded inside and gets the call-site span. `x # N`, the three
/// tokens touching each other, becomes the identifier `x` followed by `n`; the
/// name `N` alone becomes the literal of its own place `idx` in the stream.
pub open spec fn block_expand_from(name: Seq<char>, s: Seq<Tok>, n: usize, idx: int) -> Seq<Tok>
    decreases s, s.len() + 3 - idx,
{
    if idx < 0 || idx >= s.len() {
        Seq::empty()
    } else {
        match s[idx] {
            Tok::Group { delimiter, stream, .. } => seq![Tok::Group {
                delimiter,
                stream: block_expand_from(name, stream, n, 0),
                span: Span::spec_call_site(),
                span_open: Span::spec_call_site(),
            }] + block_expand_from(name, s, n, idx + 1),
            Tok::Ident { text, span } => if idx + 2 < s.len() && joined_suffix(s[idx], s[idx + 1], s[idx + 2], name) {
                seq![Tok::Ident { text: text + decimal(n as nat), span }] + block_expand_from(name, s, n, idx + 3)
            } else if text == name {
                seq![Tok::Literal { text: decimal(idx as nat), span: Span::spec_call_site() }] + block_expand_from(name, s, n, idx + 1)
            } else {
                seq![s[idx]] + block_expand_from(name, s, n, idx + 1)
            },
            _ => seq![s[idx]] + block_expand_from(name, s, n, idx + 1),
        }
    }
}

/// Whether `a`, `b`, `c` are an identifier, `#` and the name `name`, each
/// ending where the next begins.
pub open spec fn joined_suffix(a: Tok, b: Tok, c: Tok, name: Seq<char>) -> bool {
    &&& a matches Tok::Ident { span: sa, .. }
    &&& b matches Tok::Punct { ch, span: sb, .. }
    &&& c matches Tok::Ident { text, span: sc }
    &&& ch == '#'
    &&& text == name
    &&& sa.end == sb.start
    &&& sb.end == sc.start
}

/// `g` expanded with each number from `i` up to `end`, one after the other.
pub open spec fn repeat_block(name: Seq<char>, g: Seq<Tok>, i: int, end: int) -> Seq<Tok>
    decreases end - i,
{
    if i >= end || i < 0 {
        Seq::empty()
    } else {
        block_expand_from(name, g, i as usize, 0) + repeat_block(name, g, i + 1, end)
    }
}


/// `t` with every group in it, itself included, given the call-site span.
pub open spec fn call_site_tok(t: Tok) -> Tok
    decreases t,
{
    match t {
        Tok::Group { delimiter, stream, .. } => Tok::Group {
            delimiter,
            stream: call_site_groups(stream),
            span: Span::spec_call_site(),
            span_open: Span::spec_call_site(),
        },
        _ => t,
    }
}

/// `s` with every group in it, at any depth, given the call-site span.
pub open spec fn call_site_groups(s: Seq<Tok>) -> Seq<Tok>
    decreases s,
{
    if s.len() == 0 {
        Seq::empty()
    } else {
        call_site_groups(s.drop_last()).push(call_site_tok(s.last()))
    }
}

/// Giving groups the call-site span maps a stream token by token.
pub proof fn lemma_call_site_groups_index(s: Seq<Tok>)
    ensures
        call_site_groups(s).len() == s.len(),
        forall|i: int| 0 <= i < s.len() ==> #[trigger] call_site_groups(s)[i] == call_site_tok(s[i]),
    decreases s.len(),
{
    if s.len() > 0 {
        lemma_call_site_groups_index(s.drop_last());
    }
}

/// A block expansion of a stream that holds the loop variable nowhere, from
/// `idx` on, is the stream from `idx` on with the spans of its groups changed.
proof fn lemma_block_expand_without_name(name: Seq<char>, s: Seq<Tok>, n: usize, idx: int)
    requires
        lacks(name, s),
        0 <= idx <= s.len(),
    ensures
        block_expand_from(name, s, n, idx) == call_site_groups(s).skip(idx),
    decreases s, s.len() - idx,
{
    lemma_call_site_groups_index(s);
    let g = call_site_groups(s);
    if idx >= s.len() {
        assert(g.skip(idx) =~= Seq::<Tok>::empty());
    } else {
        lemma_lacks_index(name, s);
        assert(lacks_tok(name, s[idx]));
        match s[idx] {
            Tok::Group { delimiter, stream, span, span_open } => {
                lemma_block_expand_without_name(name, stream, n, 0);
                assert(call_site_groups(stream).skip(0) =~= call_site_groups(stream));
            },
            Tok::Ident { text, span } => {
                if idx + 2 < s.len() {
                    assert(lacks_tok(name, s[idx + 2]));
                    assert(!joined_suffix(s[idx], s[idx + 1], s[idx + 2], name));
                }
            },
            _ => {},
        }
        lemma_block_expand_without_name(name, s, n, idx + 1);
        assert(g.skip(idx) =~= seq![g[idx]] + g.skip(idx + 1));
    }
}

/// A block expansion of a stream in which the loop variable occurs nowhere,
/// at any depth, gives the stream back with every group kept (delimiter and
/// contents) and given the call-site span; every other token is copied in
/// order, whatever the number.
pub proof fn block_expand_without_name(name: Seq<char>, ts: Seq<Tok>, n: usize)
    requires
        lacks(name, ts),
    ensures
        block_expand_from(name, ts, n, 0) == call_site_groups(ts),
{
    lemma_block_expand_without_name(name, ts, n, 0);
    assert(call_site_groups(ts).skip(0) =~= call_site_groups(ts));
}

/// How many tokens a block expansion gives does not depend on the number.
pub proof fn lemma_block_expand_len(name: Seq<char>, s: Seq<Tok>, n: usize, m: usize, idx: int)
    ensures
        block_expand_from(name, s, n, idx).len() == block_expand_from(name, s, m, idx).len(),
    decreases s, s.len() - idx,
{
    if 0 <= idx < s.len() {
        match s[idx] {
            Tok::Ident { text, span } => {
                if idx + 2 < s.len() && joined_suffix(s[idx], s[idx + 1], s[idx + 2], name) {
                    lemma_block_expand_len(name, s, n, m, idx + 3);
                } else {
                    lemma_block_expand_len(name, s, n, m, idx + 1);
                }
            },
            _ => {
                lemma_block_expand_len(name, s, n, m, idx + 1);
            },
        }
    }
}

/// Repeating a section over the numbers `start..end` gives one copy per
/// number, all of the same length, and the copy at `k` is the section
/// expanded with the number `start + k`.
pub proof fn repeat_block_copies(name: Seq<char>, g: Seq<Tok>, start: int, end: int, k: int)
    requires
        0 <= start,
        0 <= k < end - start,
        end <= usize::MAX + 1,
    ensures
        repeat_block(name, g, start, end).len() == (end - start) * block_expand_from(name, g, 0, 0).len(),
        repeat_block(name, g, start, end).subrange(
            k * block_expand_from(name, g, 0, 0).len(),
            (k + 1) * block_expand_from(name, g, 0, 0).len(),
        ) == block_expand_from(name, g, (start + k) as usize, 0),
    decreases end - start,
{
    let l = block_expand_from(name, g, 0, 0).len() as int;
    let b = block_expand_from(name, g, start as usize, 0);
    let r = repeat_block(name, g, start + 1, end);
    lemma_block_expand_len(name, g, start as usize, 0, 0);
    assert(repeat_block(name, g, start, end) == b + r);
    if start + 1 < end {
        repeat_block_copies(name, g, start + 1, end, 0);
        assert(r.len() == (end - start - 1) * l);
    } else {
        assert(r.len() == 0);
    }
    assert((end - start) * l == l + (end - start - 1) * l) by (nonlinear_arith);
    if k == 0 {
        assert((b + r).subrange(0, l) =~= b);
        assert(0 * l == 0 && (0 + 1) * l == l) by (nonlinear_arith);
    } else {
        repeat_block_copies(name, g, start + 1, end, k - 1);
        assert(k * l == l + (k - 1) * l && (k + 1) * l == l + k * l) by (nonlinear_arith);
        assert(0 <= (k - 1) * l) by (nonlinear_arith)
            requires
                k >= 1,
                l >= 0,
        ;
        assert(k * l <= (end - start - 1) * l) by (nonlinear_arith)
            requires
                k <= end - start - 1,
                l >= 0,
        ;
        let x = (k - 1) * l;
        assert(k * l == x + l && (k + 1) * l == x + l + l);
        assert(b.len() == l);
        assert((b + r).subrange(x + l, x + l + l) =~= r.subrange(x, x + l));
    }
}

/// A group is expanded with the same number as the stream around it: in
/// its place comes the group, with the call-site span, whose contents are
/// its own contents expanded with that number.
pub proof fn block_expand_group(name: Seq<char>, s: Seq<Tok>, n: usize, idx: int)
    requires
        0 <= idx < s.len(),
        s[idx] is Group,
    ensures
        match s[idx] {
            Tok::Group { delimiter, stream, .. } => block_expand_from(name, s, n, idx) == seq![Tok::Group {
                delimiter,
                stream: block_expand_from(name, stream, n, 0),
                span: Span::spec_call_site(),
                span_open: Span::spec_call_site(),
            }] + block_expand_from(name, s, n, idx + 1),
            _ => true,
        },
{
}

/// An identifier `x`, a `#` and the loop variable, each touching the next,
/// become one identifier: `x` followed by the base-10 numeral of the number.
pub proof fn block_expand_pastes(name: Seq<char>, s: Seq<Tok>, n: usize, idx: int)
    requires
        0 <= idx,
        idx + 2 < s.len(),
        joined_suffix(s[idx], s[idx + 1], s[idx + 2], name),
    ensures
        match s[idx] {
            Tok::Ident { text, span } => block_expand_from(name, s, n, idx)
                == seq![Tok::Ident { text: text + decimal(n as nat), span }] + block_expand_from(name, s, n, idx + 3)
                && numeral_value((text + decimal(n as nat)).skip(text.len() as int)) == n,
            _ => true,
        },
{
    match s[idx] {
        Tok::Ident { text, span } => {
            decimal_reads_back(n as nat);
            assert((text + decimal(n as nat)).skip(text.len() as int) =~= decimal(n as nat));
        },
        _ => {},
    }
}

/// The loop variable and the range of a walk over a body.
pub struct WalkCtx {
    pub name: Seq<char>,
    pub start: usize,
    pub end: usize,
}

/// The number of token trees in `t`, itself included.
pub open spec fn tok_size(t: Tok) -> nat
    decreases t,
{
    match t {
        Tok::Group { stream, .. } => 1 + stream_size(stream),
        _ => 1,
    }
}

/// The number of token trees in `s`, nested ones included.
pub open spec fn stream_size(s: Seq<Tok>) -> nat
    decreases s,
{
    if s.len() == 0 {
        0
    } else {
        stream_size(s.drop_last()) + tok_size(s.last())
    }
}

/// The size of one entry.
pub open spec fn entry_size(x: EntryV) -> nat {
    match x {
        EntryV::Open { .. } => 1,
        EntryV::Close(_) => 0,
        EntryV::Tok(t) => tok_size(t),
    }
}

/// The size of a sequence of entries.
pub open spec fn entries_size(e: Seq<EntryV>) -> nat
    decreases e.len(),
{
    if e.len() == 0 {
        0
    } else {
        entries_size(e.drop_last()) + entry_size(e.last())
    }
}

pub proof fn lemma_entries_size_add(a: Seq<EntryV>, b: Seq<EntryV>)
    ensures
        entries_size(a + b) == entries_size(a) + entries_size(b),
    decreases b.len(),
{
    if b.len() == 0 {
        assert(a + b =~= a);
    } else {
        lemma_entries_size_add(a, b.drop_last());
        assert((a + b).drop_last() =~= a + b.drop_last());
    }
}

pub proof fn lemma_linearize_size(s: Seq<Tok>)
    ensures
        entries_size(linearize(s)) == stream_size(s),
    decreases s,
{
    assert(entries_size(Seq::<EntryV>::empty()) == 0);
    if s.len() > 0 {
        lemma_linearize_size(s.drop_last());
        lemma_entries_size_add(linearize(s.drop_last()), linearize_one(s.last()));
        assert(linearize(s) == linearize(s.drop_last()) + linearize_one(s.last()));
        assert(stream_size(s) == stream_size(s.drop_last()) + tok_size(s.last()));
        match s.last() {
            Tok::Group { delimiter, stream, span, span_open } => {
                if delimiter == Delimiter::Invisible {
                    let o = seq![EntryV::Open { open: span_open, whole: span }];
                    let z = seq![EntryV::Close(span)];
                    lemma_linearize_size(stream);
                    lemma_entries_size_add(o, linearize(stream));
                    lemma_entries_size_add(o + linearize(stream), z);
                    assert(o.drop_last() =~= Seq::<EntryV>::empty());
                    assert(z.drop_last() =~= Seq::<EntryV>::empty());
                    assert(entries_size(o) == 1);
                    assert(entries_size(z) == 0);
                    assert(linearize_one(s.last()) == o + linearize(stream) + z);
                    assert(tok_size(s.last()) == 1 + stream_size(stream));
                } else {
                    assert(seq![EntryV::Tok(s.last())].drop_last() =~= Seq::<EntryV>::empty());
                    assert(entries_size(seq![EntryV::Tok(s.last())]) == tok_size(s.last()));
                    assert(linearize_one(s.last()) == seq![EntryV::Tok(s.last())]);
                }
            },
            _ => {
                assert(seq![EntryV::Tok(s.last())].drop_last() =~= Seq::<EntryV>::empty());
                assert(entries_size(seq![EntryV::Tok(s.last())]) == tok_size(s.last()));
                assert(linearize_one(s.last()) == seq![EntryV::Tok(s.last())]);
            },
        }
    }
}

pub proof fn lemma_entry_size_le(e: Seq<EntryV>, q: int)
    requires
        0 <= q < e.len(),
    ensures
        entry_size(e[q]) <= entries_size(e),
    decreases e.len(),
{
    if q < e.len() - 1 {
        lemma_entry_size_le(e.drop_last(), q);
    }
}

/// `# ( ... ) *` at `p`: the contents of the parentheses and the place after
/// the star.
pub open spec fn repeat_marker(e: Seq<EntryV>, p: int) -> Option<(Seq<Tok>, int)> {
    match punct_after(e, p, '#', false) {
        Some(p1) => match group_after(e, p1, Delimiter::Parenthesis) {
            Some((g, p2)) => match punct_after(e, p2, '*', false) {
                Some(p3) => Some((g, p3)),
                None => None,
            },
            None => None,
        },
        None => None,
    }
}

pub proof fn lemma_punct_after_range(e: Seq<EntryV>, p: int, c: char, joint: bool)
    requires
        0 <= p <= e.len(),
    ensures
        punct_after(e, p, c, joint) matches Some(q) ==> p < q <= e.len(),
{
    lemma_skip_open_range(e, p);
}

pub proof fn lemma_repeat_marker_range(e: Seq<EntryV>, p: int)
    requires
        0 <= p <= e.len(),
    ensures
        repeat_marker(e, p) matches Some((g, q)) ==> p < q <= e.len(),
{
    lemma_punct_after_range(e, p, '#', false);
    if let Some(p1) = punct_after(e, p, '#', false) {
        lemma_skip_open_range(e, p1);
        if let Some((g, p2)) = group_after(e, p1, Delimiter::Parenthesis) {
            lemma_punct_after_range(e, p2, '*', false);
        }
    }
}

/// The walk over the linearized body `e` from `p`: the tokens it gives and
/// whether it met a `# ( ... ) *` section; `None` where it comes to a place
/// it cannot read (a lone apostrophe, or only openings of invisible groups
/// left), from which it would never move on.
///
/// A `# ( ... ) *` section gives its contents expanded once for each number
/// of the range; a group (whatever its delimiter) gives a braced group with
/// the walk over its contents; a lifetime and any other token are kept.
pub open spec fn walk(c: WalkCtx, e: Seq<EntryV>, p0: int) -> Option<(Seq<Tok>, bool)>
    decreases entries_size(e), e.len() + 3 - p0,
{
    if p0 < 0 || p0 > e.len() || land(e, p0) >= e.len() {
        Some((Seq::empty(), false))
    } else {
        let p = land(e, p0);
        proof {
            lemma_land_range(e, p0);
        }
        let q = skip_open(e, p);
        match repeat_marker(e, p) {
            Some((g, p3)) => {
                proof {
                    lemma_repeat_marker_range(e, p);
                }
                match walk(c, e, p3) {
                    Some(r) => Some((repeat_block(c.name, g, c.start as int, c.end as int) + r.0, true)),
                    None => None,
                }
            },
            None => {
                proof {
                    lemma_skip_open_range(e, p);
                }
                if q >= e.len() {
                    None
                } else {
                    match e[q] {
                        EntryV::Tok(t) => match t {
                            Tok::Group { delimiter, stream, .. } => if delimiter == Delimiter::Invisible {
                                None
                            } else {
                                proof {
                                    lemma_linearize_size(stream);
                                    lemma_entry_size_le(e, q);
                                }
                                match walk(c, linearize(stream), 0) {
                                    Some(inner) => match walk(c, e, q + 1) {
                                        Some(r) => Some((seq![Tok::Group {
                                            delimiter: Delimiter::Brace,
                                            stream: inner.0,
                                            span: Span::spec_call_site(),
                                            span_open: Span::spec_call_site(),
                                        }] + r.0, r.1)),
                                        None => None,
                                    },
                                    None => None,
                                }
                            },
                            Tok::Punct { ch, spacing, .. } => if ch != '\'' {
                                match walk(c, e, q + 1) {
                                    Some(r) => Some((seq![t] + r.0, r.1)),
                                    None => None,
                                }
                            } else if spacing == Spacing::Joint {
                                match next_tok(e, q + 1) {
                                    Some(Tok::Ident { text, span }) => {
                                        proof {
                                            lemma_skip_open_range(e, q + 1);
                                        }
                                        match walk(c, e, skip_open(e, q + 1) + 1) {
                                            Some(r) => Some((seq![t, Tok::Ident { text, span }] + r.0, r.1)),
                                            None => None,
                                        }
                                    },
                                    _ => None,
                                }
                            } else {
                                None
                            },
                            _ => match walk(c, e, q + 1) {
                                Some(r) => Some((seq![t] + r.0, r.1)),
                                None => None,
                            },
                        },
                        _ => None,
                    }
                }
            },
        }
    }
}


/// Whether `a`, `b`, `c` are joined as [`joined_suffix`] says.
fn joined(a: &TokenTree, b: &TokenTree, c: &TokenTree, name: &String) -> (r: bool)
    ensures
        r == joined_suffix(tree_view(*a), tree_view(*b), tree_view(*c), name@),
{
    match (a, b, c) {
        (TokenTree::Ident { span: sa, .. }, TokenTree::Punct { ch, span: sb, .. }, TokenTree::Ident { text, span: sc }) => {
            *ch == '#' && *text == *name && sa.end == sb.start && sb.end == sc.start
        },
        _ => false,
    }
}

/// The outcome of reading the block form from `tokens`: `None` for an
/// inclusive range ending at `usize::MAX`.
fn parse_outcome(tokens: &Vec<TokenTree>) -> (r: Option<Result<SeqMacroInput, SynError>>)
    ensures
        match r {
            Option::None => parse_block(linearize(stream_view(tokens@))) is EndOverflow,
            Option::Some(Ok(v)) => parse_block(linearize(stream_view(tokens@))) == BlockParse::Parsed(v@),
            Option::Some(Err(x)) => parse_block(linearize(stream_view(tokens@))) == BlockParse::Failed(x@),
        },
{
    let e = linearized(tokens);
    let (name, p2) = match name_in_place(&e) {
        Ok(x) => x,
        Err(x) => {
            return Some(Err(x));
        },
    };
    let (start, p3) = match int_lit_or_error_at(&e, p2) {
        Ok(x) => x,
        Err(x) => {
            return Some(Err(x));
        },
    };
    let p4 = match punct_after_at(&e, p3, '.', true) {
        Some(a) => match punct_after_at(&e, a, '.', false) {
            Some(b) => b,
            None => {
                return Some(Err(crate::seq_expand::dots_error(&e, p3)));
            },
        },
        None => {
            return Some(Err(crate::seq_expand::dots_error(&e, p3)));
        },
    };
    let (inclusive, p5) = match punct_after_at(&e, p4, '=', false) {
        Some(q) => (true, q),
        None => (false, p4),
    };
    let (end_lit, p6) = match int_lit_or_error_at(&e, p5) {
        Ok(x) => x,
        Err(x) => {
            return Some(Err(x));
        },
    };
    let end = match end_lit.value {
        Ok(v) => v,
        Err(m) => {
            return Some(Err(SynError { message: m, start: end_lit.start, end: end_lit.end }));
        },
    };
    let (body, p7) = match braces_or_error_at(&e, p6) {
        Ok(x) => x,
        Err(x) => {
            return Some(Err(x));
        },
    };
    let start_v = match start.value {
        Ok(v) => v,
        Err(m) => {
            return Some(Err(SynError { message: m, start: start.start, end: start.end }));
        },
    };
    if inclusive && end == usize::MAX {
        return None;
    }
    match leftover_at(&e, p7) {
        Some(x) => Some(Err(x)),
        None => Some(Ok(SeqMacroInput { name, start: start_v, end: if inclusive { end + 1 } else { end }, body })),
    }
}

impl SeqMacroInput {
    /// Reads the block form `N in A..B { body }` from its tokens. An
    /// inclusive range ending at `usize::MAX` is left out: its end cannot be
    /// made exclusive.
    pub fn parse(tokens: &Vec<TokenTree>) -> (r: Result<SeqMacroInput, SynError>)
        requires
            !(parse_block(linearize(stream_view(tokens@))) is EndOverflow),
        ensures
            match r {
                Ok(v) => parse_block(linearize(stream_view(tokens@))) == BlockParse::Parsed(v@),
                Err(x) => parse_block(linearize(stream_view(tokens@))) == BlockParse::Failed(x@),
            },
    {
        match parse_outcome(tokens) {
            Some(r) => r,
            None => Err(SynError { message: String::new(), start: Span::call_site(), end: Span::call_site() }),
        }
    }

    /// Reads the block form as [`SeqMacroInput::parse`] does, or gives
    /// `None` for an inclusive range ending at `usize::MAX`.
    pub fn try_parse(tokens: &Vec<TokenTree>) -> (r: Option<Result<SeqMacroInput, SynError>>)
        ensures
            match r {
                Option::None => parse_block(linearize(stream_view(tokens@))) is EndOverflow,
                Option::Some(Ok(v)) => parse_block(linearize(stream_view(tokens@))) == BlockParse::Parsed(v@),
                Option::Some(Err(x)) => parse_block(linearize(stream_view(tokens@))) == BlockParse::Failed(x@),
            },
    {
        match parse_outcome(tokens) {
            Option::None => None,
            Option::Some(_) => Some(Self::parse(tokens)),
        }
    }

    /// `ts` expanded with the number `n`, as [`block_expand_from`] says.
    pub fn expand(&self, ts: &Vec<TokenTree>, n: usize) -> (r: Vec<TokenTree>)
        ensures
            stream_view(r@) == block_expand_from(self.name@, stream_view(ts@), n, 0),
        decreases ts@,
    {
        let ghost name = self.name@;
        let ghost sv = stream_view(ts@);
        proof {
            broadcast use lemma_stream_view;
        }
        let mut out: Vec<TokenTree> = Vec::new();
        let mut idx: usize = 0;
        while idx < ts.len()
            invariant
                idx <= ts.len(),
                name == self.name@,
                sv == stream_view(ts@),
                sv.len() == ts.len(),
                block_expand_from(name, sv, n, 0) == stream_view(out@) + block_expand_from(name, sv, n, idx as int),
            decreases ts.len() - idx,
        {
            proof {
                lemma_stream_view(ts@);
            }
            let ghost before = out@;
            let next: usize;
            match &ts[idx] {
                TokenTree::Group { delimiter, stream, .. } => {
                    proof {
                        assert(decreases_to!(ts@ => stream@)) by {
                            assert(decreases_to!(ts@ => ts@[idx as int]));
                        }
                    }
                    let inner = self.expand(stream, n);
                    let cs = Span::call_site();
                    out.push(TokenTree::Group { delimiter: *delimiter, stream: inner, span: cs, span_open: cs });
                    next = idx + 1;
                },
                TokenTree::Ident { text, span } => {
                    if ts.len() - idx > 2 && joined(&ts[idx], &ts[idx + 1], &ts[idx + 2], &self.name) {
                        let mut t = text.clone();
                        let d = decimal_string(n);
                        t.append(d.as_str());
                        out.push(TokenTree::Ident { text: t, span: *span });
                        next = idx + 3;
                    } else if *text == self.name {
                        out.push(TokenTree::Literal { text: decimal_string(idx), span: Span::call_site() });
                        next = idx + 1;
                    } else {
                        out.push(copy_tree(&ts[idx]));
                        next = idx + 1;
                    }
                },
                _ => {
                    out.push(copy_tree(&ts[idx]));
                    next = idx + 1;
                },
            }
            proof {
                assert(out@.drop_last() =~= before);
                assert(block_expand_from(name, sv, n, idx as int) == seq![tree_view(out@.last())] + block_expand_from(name, sv, n, next as int));
                assert(stream_view(out@) + block_expand_from(name, sv, n, next as int)
                    =~= stream_view(before) + (seq![tree_view(out@.last())] + block_expand_from(name, sv, n, next as int)));
            }
            idx = next;
        }
        proof {
            assert(stream_view(out@) + block_expand_from(name, sv, n, idx as int) =~= stream_view(out@));
        }
        out
    }

    /// The loop variable and range of this input.
    pub open spec fn walk_ctx(&self) -> WalkCtx {
        WalkCtx { name: self.name@, start: self.start, end: self.end }
    }

    /// `g` expanded once for each number of the range.
    fn repeat(&self, g: &Vec<TokenTree>) -> (r: Vec<TokenTree>)
        ensures
            stream_view(r@) == repeat_block(self.name@, stream_view(g@), self.start as int, self.end as int),
    {
        let ghost name = self.name@;
        let ghost gv = stream_view(g@);
        let mut out: Vec<TokenTree> = Vec::new();
        let mut i = self.start;
        while i < self.end
            invariant
                self.start <= i,
                name == self.name@,
                gv == stream_view(g@),
                repeat_block(name, gv, self.start as int, self.end as int) == stream_view(out@) + repeat_block(name, gv, i as int, self.end as int),
            decreases self.end - i,
        {
            let mut x = self.expand(g, i);
            let ghost before = out@;
            let ghost xs = x@;
            out.append(&mut x);
            proof {
                lemma_stream_view_add(before, xs);
                assert(stream_view(out@) + repeat_block(name, gv, i + 1, self.end as int)
                    =~= stream_view(before) + (stream_view(xs) + repeat_block(name, gv, i + 1, self.end as int)));
            }
            i = i + 1;
        }
        proof {
            assert(stream_view(out@) + repeat_block(name, gv, i as int, self.end as int) =~= stream_view(out@));
        }
        out
    }

    /// One step of the walk at `p0`: the tokens it gives, the place it
    /// moves on to, and whether it was a `# ( ... ) *` section; `None` where
    /// the walk cannot read on from `p0`.
    fn walk_step(&self, e: &Vec<Entry>, p0: usize) -> (r: Option<(Vec<TokenTree>, usize, bool)>)
        requires
            p0 <= e.len(),
            land(entries_view(e@), p0 as int) < e.len(),
        ensures
            match r {
                Option::None => walk(self.walk_ctx(), entries_view(e@), p0 as int) is None,
                Option::Some((out, next, m)) => {
                    &&& p0 < next <= e.len()
                    &&& (walk(self.walk_ctx(), entries_view(e@), p0 as int) is Some
                        <==> walk(self.walk_ctx(), entries_view(e@), next as int) is Some)
                    &&& walk(self.walk_ctx(), entries_view(e@), next as int) is Some ==>
                        walk(self.walk_ctx(), entries_view(e@), p0 as int).unwrap() == (stream_view(out@)
                            + walk(self.walk_ctx(), entries_view(e@), next as int).unwrap().0,
                            m || walk(self.walk_ctx(), entries_view(e@), next as int).unwrap().1)
                },
            },
        decreases entries_size(entries_view(e@)), 0int,
    {
        let ghost c = self.walk_ctx();
        let ghost ev = entries_view(e@);
        let p = land_at(e, p0);
        proof {
            lemma_land_range(ev, p0 as int);
            lemma_skip_open_range(ev, p as int);
            lemma_repeat_marker_range(ev, p as int);
            broadcast use lemma_stream_view;
        }
        let mut marker: Option<(usize, usize)> = None;
        if let Some(p1) = punct_after_at(e, p, '#', false) {
            if let Some(q1) = group_place(e, p1, Delimiter::Parenthesis) {
                if let Some(p3) = punct_after_at(e, q1 + 1, '*', false) {
                    marker = Some((q1, p3));
                }
            }
        }
        if let Some((q1, p3)) = marker {
            let g = match &e[q1] {
                Entry::Tok(TokenTree::Group { stream, .. }) => self.repeat(stream),
                _ => Vec::new(),
            };
            return Some((g, p3, true));
        }
        let q = skip_open_at(e, p);
        if q >= e.len() {
            return None;
        }
        let mut out: Vec<TokenTree> = Vec::new();
        match &e[q] {
            Entry::Tok(t) => {
                match t {
                    TokenTree::Group { delimiter, stream, .. } => {
                        if *delimiter == Delimiter::Invisible {
                            return None;
                        }
                        let inner_e = linearized(stream);
                        proof {
                            lemma_stream_view(stream@);
                            lemma_linearize_size(stream_view(stream@));
                            lemma_entry_size_le(ev, q as int);
                        }
                        let inner = match self.walk_at(&inner_e, 0) {
                            Some((inner, _)) => inner,
                            None => {
                                return None;
                            },
                        };
                        let cs = Span::call_site();
                        out.push(TokenTree::Group { delimiter: Delimiter::Brace, stream: inner, span: cs, span_open: cs });
                        proof {
                            lemma_stream_view(out@);
                            assert(stream_view(out@) =~= seq![tree_view(out@[0])]);
                        }
                        Some((out, q + 1, false))
                    },
                    TokenTree::Punct { ch, spacing, .. } => {
                        if *ch != '\'' {
                            out.push(copy_tree(t));
                            proof {
                                lemma_stream_view(out@);
                                assert(stream_view(out@) =~= seq![tree_view(out@[0])]);
                            }
                            Some((out, q + 1, false))
                        } else {
                            if *spacing != Spacing::Joint {
                                return None;
                            }
                            proof {
                                lemma_skip_open_range(ev, q + 1);
                            }
                            let q2 = skip_open_at(e, q + 1);
                            if q2 >= e.len() {
                                return None;
                            }
                            let is_ident = match &e[q2] {
                                Entry::Tok(TokenTree::Ident { .. }) => true,
                                _ => false,
                            };
                            if !is_ident {
                                return None;
                            }
                            out.push(copy_tree(t));
                            match &e[q2] {
                                Entry::Tok(t2) => {
                                    out.push(copy_tree(t2));
                                },
                                _ => {},
                            }
                            proof {
                                lemma_stream_view(out@);
                                assert(out@.drop_last().drop_last() =~= Seq::<TokenTree>::empty());
                                assert(stream_view(out@) =~= seq![tree_view(out@[0]), tree_view(out@[1])]);
                            }
                            Some((out, q2 + 1, false))
                        }
                    },
                    _ => {
                        out.push(copy_tree(t));
                        proof {
                            lemma_stream_view(out@);
                            assert(stream_view(out@) =~= seq![tree_view(out@[0])]);
                        }
                        Some((out, q + 1, false))
                    },
                }
            },
            _ => None,
        }
    }

    /// The walk over the linearized body `e` from `p0`, as [`walk`] says.
    fn walk_at(&self, e: &Vec<Entry>, p0: usize) -> (r: Option<(Vec<TokenTree>, bool)>)
        requires
            p0 <= e.len(),
        ensures
            match r {
                Option::None => walk(self.walk_ctx(), entries_view(e@), p0 as int) is None,
                Option::Some((out, found)) => walk(self.walk_ctx(), entries_view(e@), p0 as int)
                    == Some((stream_view(out@), found)),
            },
        decreases entries_size(entries_view(e@)), 1int,
    {
        let ghost c = self.walk_ctx();
        let ghost ev = entries_view(e@);
        let mut out: Vec<TokenTree> = Vec::new();
        let mut found = false;
        let mut p = p0;
        while land_at(e, p) < e.len()
            invariant
                p0 <= p <= e.len(),
                c == self.walk_ctx(),
                ev == entries_view(e@),
                walk(c, ev, p0 as int) is Some <==> walk(c, ev, p as int) is Some,
                walk(c, ev, p as int) is Some ==> walk(c, ev, p0 as int).unwrap() == (stream_view(out@)
                    + walk(c, ev, p as int).unwrap().0, found || walk(c, ev, p as int).unwrap().1),
            decreases e.len() - p,
        {
            let (mut head, next, m) = match self.walk_step(e, p) {
                Some(x) => x,
                None => {
                    return None;
                },
            };
            let ghost before = out@;
            let ghost hs = head@;
            out.append(&mut head);
            proof {
                lemma_stream_view_add(before, hs);
                if walk(c, ev, next as int) is Some {
                    assert(stream_view(out@) + walk(c, ev, next as int).unwrap().0
                        =~= stream_view(before) + (stream_view(hs) + walk(c, ev, next as int).unwrap().0));
                }
            }
            found = found || m;
            p = next;
        }
        proof {
            lemma_land_range(ev, p as int);
            assert(stream_view(out@) + walk(c, ev, p as int).unwrap().0 =~= stream_view(out@));
        }
        Some((out, found))
    }

    /// Walks over `tokens` as a parser does, expanding each `# ( ... ) *`
    /// section once for each number of the range and putting every group's
    /// walked contents in braces; also says whether it met such a section.
    /// Inputs on which the walk would never move on are left out.
    pub fn find_block_to_expand_and_do_expand(&self, tokens: &Vec<TokenTree>) -> (r: (Vec<TokenTree>, bool))
        requires
            walk(self.walk_ctx(), linearize(stream_view(tokens@)), 0) is Some,
        ensures
            (stream_view(r.0@), r.1) == walk(self.walk_ctx(), linearize(stream_view(tokens@)), 0).unwrap(),
    {
        match self.try_find_block_to_expand_and_do_expand(tokens) {
            Some(x) => x,
            None => (Vec::new(), false),
        }
    }

    /// The walk of [`Self::find_block_to_expand_and_do_expand`], or `None`
    /// for an input on which it would never move on (a lone `'`, or only
    /// the openings of invisible groups left).
    pub fn try_find_block_to_expand_and_do_expand(&self, tokens: &Vec<TokenTree>) -> (r: Option<(Vec<TokenTree>, bool)>)
        ensures
            match r {
                Option::None => walk(self.walk_ctx(), linearize(stream_view(tokens@)), 0) is None,
                Option::Some((out, found)) => walk(self.walk_ctx(), linearize(stream_view(tokens@)), 0)
                    == Some((stream_view(out@), found)),
            },
    {
        let e = linearized(tokens);
        self.walk_at(&e, 0)
    }
}

} // verus!
