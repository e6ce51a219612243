//! The `seq!` macro: `N in A..B { body }` repeats `body` once for each `N`
//! in the range, replacing `N` by the number, `name#N` by the identifier
//! `name` followed by the number, and expanding each `#( ... )*` section
//! once for each number of the range.

use vstd::prelude::*;
use crate::cursor::{Entry, EntryV, SynError, SynErrorV, entries_view, error_spanned, linearize, linearized,
    next_tok, punct_after, punct_after_at, punct_error_span, punct_error_span_at};
use crate::syntax::{IntLit, IntLitV, braces_or_error, braces_or_error_at, int_lit_or_error, int_lit_or_error_at,
    leftover_at, leftover_error, name_in_after, name_in_place};
use crate::text::{decimal, decimal_string};
use crate::tokens::{Delimiter, Span, Spacing, Tok, TokenTree, copy_stream, copy_tree, lemma_stream_view,
    lemma_stream_view_add, stream_view, tree_view};

verus! {

/// The parsed input of `seq!`.
#[derive(Debug)]
pub struct SeqMacroInput2 {
    pub from: IntLit,
    pub to: IntLit,
    pub inclusive: bool,
    pub ident: String,
    pub tt: Vec<TokenTree>,
}

/// The value of a [`SeqMacroInput2`].
pub struct SeqInputV {
    pub from: IntLitV,
    pub to: IntLitV,
    pub inclusive: bool,
    pub ident: Seq<char>,
    pub tt: Seq<Tok>,
}

impl View for SeqMacroInput2 {
    type V = SeqInputV;

    open spec fn view(&self) -> SeqInputV {
        SeqInputV { from: self.from@, to: self.to@, inclusive: self.inclusive, ident: self.ident@, tt: stream_view(self.tt@) }
    }
}

/// The span that an error for a missing `..` points to.
pub open spec fn dots_error_span(e: Seq<EntryV>, p: int) -> Span {
    punct_error_span(e, p, Span::spec_call_site())
}

/// `..=` at `p`: the place after it.
pub open spec fn dots_eq_after(e: Seq<EntryV>, p: int) -> Option<int> {
    match punct_after(e, p, '.', true) {
        Some(a) => match punct_after(e, a, '.', true) {
            Some(b) => punct_after(e, b, '=', false),
            None => None,
        },
        None => None,
    }
}

/// `..` at `p`: the place after it.
pub open spec fn dots_after(e: Seq<EntryV>, p: int) -> Option<int> {
    match punct_after(e, p, '.', true) {
        Some(a) => punct_after(e, a, '.', false),
        None => None,
    }
}

/// The input of `seq!` read from the place after the range operator.
pub open spec fn parse_seq_tail(e: Seq<EntryV>, ident: Seq<char>, from: IntLitV, inclusive: bool, p: int) -> Result<SeqInputV, SynErrorV> {
    match int_lit_or_error(e, p) {
        Err(x) => Err(x),
        Ok((to, p5)) => match braces_or_error(e, p5) {
            Err(x) => Err(x),
            Ok((tt, p6)) => match leftover_error(e, p6) {
                Some(x) => Err(x),
                None => Ok(SeqInputV { from, to, inclusive, ident, tt }),
            },
        },
    }
}

/// The input of `seq!`, `N in A..B { body }` or `N in A..=B { body }`, read
/// from the linearized tokens `e`; every token must be used.
pub open spec fn parse_seq_input(e: Seq<EntryV>) -> Result<SeqInputV, SynErrorV> {
    match name_in_after(e) {
        Err(x) => Err(x),
        Ok((ident, p2)) => match int_lit_or_error(e, p2) {
            Err(x) => Err(x),
            Ok((from, p3)) => match dots_eq_after(e, p3) {
                Some(p4) => parse_seq_tail(e, ident, from, true, p4),
                None => match dots_after(e, p3) {
                    Some(p4) => parse_seq_tail(e, ident, from, false, p4),
                    None => Err(error_spanned(dots_error_span(e, p3), "expected `..`"@)),
                },
            },
        },
    }
}

/// Reads `..=` (with `true`) or `..` (with `false`) at `p`, as
/// [`dots_eq_after`] and [`dots_after`] say, or gives the error for their
/// absence.
pub fn range_dots_at(e: &Vec<Entry>, p: usize) -> (r: Result<(bool, usize), SynError>)
    requires
        p <= e.len(),
    ensures
        match r {
            Ok((true, q)) => q <= e.len() && dots_eq_after(entries_view(e@), p as int) == Some(q as int),
            Ok((false, q)) => q <= e.len() && dots_eq_after(entries_view(e@), p as int) is None
                && dots_after(entries_view(e@), p as int) == Some(q as int),
            Err(x) => dots_eq_after(entries_view(e@), p as int) is None && dots_after(entries_view(e@), p as int) is None
                && x@ == error_spanned(dots_error_span(entries_view(e@), p as int), "expected `..`"@),
        },
{
    if let Some(a) = punct_after_at(e, p, '.', true) {
        if let Some(b) = punct_after_at(e, a, '.', true) {
            if let Some(c) = punct_after_at(e, b, '=', false) {
                return Ok((true, c));
            }
        }
    }
    if let Some(a) = punct_after_at(e, p, '.', true) {
        if let Some(b) = punct_after_at(e, a, '.', false) {
            return Ok((false, b));
        }
    }
    let span = dots_span(e, p);
    Err(SynError { message: String::from_str("expected `..`"), start: span, end: span })
}

impl SeqMacroInput2 {
    /// Parses the input of `seq!` from its tokens.
    pub fn parse(tokens: &Vec<TokenTree>) -> (r: Result<SeqMacroInput2, SynError>)
        ensures
            match r {
                Ok(v) => parse_seq_input(linearize(stream_view(tokens@))) == Ok::<SeqInputV, SynErrorV>(v@),
                Err(x) => parse_seq_input(linearize(stream_view(tokens@))) == Err::<SeqInputV, SynErrorV>(x@),
            },
    {
        let e = linearized(tokens);
        let (ident, p2) = match name_in_place(&e) {
            Ok(x) => x,
            Err(x) => {
                return Err(x);
            },
        };
        let (from, p3) = match int_lit_or_error_at(&e, p2) {
            Ok(x) => x,
            Err(x) => {
                return Err(x);
            },
        };
        let (inclusive, p4) = match range_dots_at(&e, p3) {
            Ok(x) => x,
            Err(x) => {
                return Err(x);
            },
        };
        let (to, p5) = match int_lit_or_error_at(&e, p4) {
            Ok(x) => x,
            Err(x) => {
                return Err(x);
            },
        };
        let (tt, p6) = match braces_or_error_at(&e, p5) {
            Ok(x) => x,
            Err(x) => {
                return Err(x);
            },
        };
        match leftover_at(&e, p6) {
            Some(x) => Err(x),
            None => Ok(SeqMacroInput2 { from, to, inclusive, ident, tt }),
        }
    }
}

/// The error for a missing `..` at `p`.
pub fn dots_error(e: &Vec<Entry>, p: usize) -> (r: SynError)
    requires
        p <= e.len(),
    ensures
        r@ == error_spanned(dots_error_span(entries_view(e@), p as int), "expected `..`"@),
{
    let span = dots_span(e, p);
    SynError { message: String::from_str("expected `..`"), start: span, end: span }
}

/// The span that an error for a missing `..` points to, as
/// [`dots_error_span`] says.
fn dots_span(e: &Vec<Entry>, p: usize) -> (s: Span)
    requires
        p <= e.len(),
    ensures
        s == dots_error_span(entries_view(e@), p as int),
{
    punct_error_span_at(e, p, Span::call_site())
}


/// What a pass over the body does: replace the loop variable by a given
/// number, or only look for places to repeat.
#[derive(Debug, Clone, Copy, PartialEq, Eq, Structural)]
pub enum Mode {
    ReplaceIdent(usize),
    ReplaceSequence,
}

/// The loop variable and the range `lo..hi` of an expansion.
pub struct SeqCtx {
    pub name: Seq<char>,
    pub lo: int,
    pub hi: int,
}

/// Whether both ends of the range of `v` can be read as `usize` and the
/// range end, made exclusive, still is one.
pub open spec fn input_range_ok(v: SeqInputV) -> bool {
    &&& v.from.value is Ok
    &&& v.to.value is Ok
    &&& !(v.inclusive && v.to.value == Ok::<usize, Seq<char>>(usize::MAX))
}

/// The loop variable and the range `lo..hi` of `v`.
pub open spec fn input_ctx(v: SeqInputV) -> SeqCtx {
    SeqCtx {
        name: v.ident,
        lo: match v.from.value { Ok(n) => n as int, Err(_) => 0 },
        hi: match v.to.value { Ok(n) => if v.inclusive { n + 1 } else { n as int }, Err(_) => 0 },
    }
}

/// The expansion of the input read as `v`.
pub open spec fn expansion(v: SeqInputV) -> Seq<Tok> {
    repeat_pass(input_ctx(v), v.tt, input_ctx(v).lo)
}

/// The stream of a parenthesized group.
pub open spec fn paren_stream(t: Tok) -> Option<Seq<Tok>> {
    match t {
        Tok::Group { delimiter: Delimiter::Parenthesis, stream, .. } => Some(stream),
        _ => None,
    }
}

/// Whether `t` is the punctuation `c`.
pub open spec fn is_punct(t: Tok, c: char) -> bool {
    t matches Tok::Punct { ch, .. } && ch == c
}

/// Whether `t` is the identifier `name`.
pub open spec fn is_ident(t: Tok, name: Seq<char>) -> bool {
    t matches Tok::Ident { text, .. } && text == name
}

/// What a pass does with the token at `i` of `s`: the tokens it gives,
/// whether it uses the two tokens after it too, and whether it replaced
/// anything.
///
/// A group is passed over inside. With `ReplaceIdent(n)`: the loop variable
/// becomes the literal `n`; `x # N` (the variable after `#`) becomes the
/// identifier `x` followed by `n`; `# ( ... ) *` becomes its contents passed
/// over once for each number of the range, in order.
pub open spec fn pass_step(c: SeqCtx, s: Seq<Tok>, i: int, mode: Mode) -> (Seq<Tok>, bool, bool)
    decreases s, s.len() - i, 0int,
{
    if i < 0 || i >= s.len() {
        (Seq::empty(), false, false)
    } else {
        let t = s[i];
        match t {
            Tok::Group { delimiter, stream, span, span_open } => {
                let inner = pass_from(c, stream, 0, mode);
                (seq![Tok::Group { delimiter, stream: inner.0, span, span_open }], false, inner.1)
            },
            Tok::Ident { text, span } => if text == c.name {
                match mode {
                    Mode::ReplaceIdent(n) => (seq![Tok::Literal { text: decimal(n as nat), span }], false, true),
                    Mode::ReplaceSequence => (seq![t], false, false),
                }
            } else {
                match mode {
                    Mode::ReplaceIdent(n) => if i + 2 < s.len() && is_punct(s[i + 1], '#') && is_ident(s[i + 2], c.name) {
                        (seq![Tok::Ident { text: text + decimal(n as nat), span }], true, true)
                    } else {
                        (seq![t], false, false)
                    },
                    Mode::ReplaceSequence => (seq![t], false, false),
                }
            },
            Tok::Punct { ch, .. } => if ch == '#' && mode is ReplaceIdent && i + 2 < s.len() && paren_stream(s[i + 1]) is Some && is_punct(s[i + 2], '*') {
                (repeat_pass(c, paren_stream(s[i + 1]).unwrap(), c.lo), true, true)
            } else {
                (seq![t], false, false)
            },
            _ => (seq![t], false, false),
        }
    }
}

/// One pass over `s` from `i` on: the tokens it gives, and whether it
/// replaced anything. Each token is handled as [`pass_step`] says.
pub open spec fn pass_from(c: SeqCtx, s: Seq<Tok>, i: int, mode: Mode) -> (Seq<Tok>, bool)
    decreases s, s.len() + 3 - i, 1int,
{
    if i < 0 || i >= s.len() {
        (Seq::empty(), false)
    } else {
        let step = pass_step(c, s, i, mode);
        let rest = pass_from(c, s, if step.1 { i + 3 } else { i + 1 }, mode);
        (step.0 + rest.0, step.2 || rest.1)
    }
}

/// `s` passed over with `ReplaceIdent(j)` for each `j` from `j` up to the end
/// of the range, the results one after the other.
pub open spec fn repeat_pass(c: SeqCtx, s: Seq<Tok>, j: int) -> Seq<Tok>
    decreases s, s.len() + 4, c.hi - j,
{
    if j >= c.hi || j < 0 {
        Seq::empty()
    } else {
        pass_from(c, s, 0, Mode::ReplaceIdent(j as usize)).0 + repeat_pass(c, s, j + 1)
    }
}

/// A pass that only looks for places to repeat leaves the tokens as they
/// are and reports no replacement.
pub proof fn lemma_sequence_pass_keeps(c: SeqCtx, s: Seq<Tok>, i: int)
    requires
        0 <= i <= s.len(),
    ensures
        pass_from(c, s, i, Mode::ReplaceSequence) == (s.skip(i), false),
    decreases s, s.len() - i,
{
    if i >= s.len() {
        assert(s.skip(i) =~= Seq::<Tok>::empty());
    } else {
        match s[i] {
            Tok::Group { delimiter, stream, span, span_open } => {
                lemma_sequence_pass_keeps(c, stream, 0);
                assert(stream.skip(0) =~= stream);
            },
            _ => {},
        }
        assert(pass_step(c, s, i, Mode::ReplaceSequence) == (seq![s[i]], false, false));
        lemma_sequence_pass_keeps(c, s, i + 1);
        assert(s.skip(i) =~= seq![s[i]] + s.skip(i + 1));
    }
}

/// `t` with each identifier `name` in it, at any depth, replaced by the
/// literal `n` (keeping the identifier's span).
pub open spec fn subst_tok(name: Seq<char>, t: Tok, n: nat) -> Tok
    decreases t,
{
    match t {
        Tok::Group { delimiter, stream, span, span_open } => Tok::Group {
            delimiter,
            stream: subst_stream(name, stream, n),
            span,
            span_open,
        },
        Tok::Ident { text, span } => if text == name {
            Tok::Literal { text: decimal(n), span }
        } else {
            t
        },
        _ => t,
    }
}

/// `s` with each identifier `name` in it, at any depth, replaced by the
/// literal `n`.
pub open spec fn subst_stream(name: Seq<char>, s: Seq<Tok>, n: nat) -> Seq<Tok>
    decreases s,
{
    if s.len() == 0 {
        Seq::empty()
    } else {
        subst_stream(name, s.drop_last(), n).push(subst_tok(name, s.last(), n))
    }
}

/// Whether `t` holds no `#` at any depth.
pub open spec fn hashless_tok(t: Tok) -> bool
    decreases t,
{
    match t {
        Tok::Group { stream, .. } => hashless(stream),
        Tok::Punct { ch, .. } => ch != '#',
        _ => true,
    }
}

/// Whether `s` holds no `#` at any depth.
pub open spec fn hashless(s: Seq<Tok>) -> bool
    decreases s,
{
    s.len() == 0 || (hashless(s.drop_last()) && hashless_tok(s.last()))
}

/// Whether `t` holds no identifier `name` at any depth.
pub open spec fn lacks_tok(name: Seq<char>, t: Tok) -> bool
    decreases t,
{
    match t {
        Tok::Group { stream, .. } => lacks(name, stream),
        Tok::Ident { text, .. } => text != name,
        _ => true,
    }
}

/// Whether `s` holds no identifier `name` at any depth.
pub open spec fn lacks(name: Seq<char>, s: Seq<Tok>) -> bool
    decreases s,
{
    s.len() == 0 || (lacks(name, s.drop_last()) && lacks_tok(name, s.last()))
}

/// The substitutions of `s` for each number from `j` up to `hi`, one after
/// the other.
pub open spec fn substituted_range(name: Seq<char>, s: Seq<Tok>, j: int, hi: int) -> Seq<Tok>
    decreases hi - j,
{
    if j >= hi || j < 0 {
        Seq::empty()
    } else {
        subst_stream(name, s, j as nat) + substituted_range(name, s, j + 1, hi)
    }
}

/// `s` written `k` times.
pub open spec fn repeated(s: Seq<Tok>, k: int) -> Seq<Tok>
    decreases k,
{
    if k <= 0 {
        Seq::empty()
    } else {
        s + repeated(s, k - 1)
    }
}

/// A substitution maps a stream token by token.
pub proof fn lemma_subst_index(name: Seq<char>, s: Seq<Tok>, n: nat)
    ensures
        subst_stream(name, s, n).len() == s.len(),
        forall|i: int| 0 <= i < s.len() ==> #[trigger] subst_stream(name, s, n)[i] == subst_tok(name, s[i], n),
    decreases s.len(),
{
    if s.len() > 0 {
        lemma_subst_index(name, s.drop_last(), n);
    }
}

/// A stream holds no `#` exactly when none of its tokens does.
pub proof fn lemma_hashless_index(s: Seq<Tok>)
    ensures
        hashless(s) <==> forall|i: int| 0 <= i < s.len() ==> #[trigger] hashless_tok(s[i]),
    decreases s.len(),
{
    if s.len() > 0 {
        lemma_hashless_index(s.drop_last());
        if forall|i: int| 0 <= i < s.len() ==> #[trigger] hashless_tok(s[i]) {
            assert forall|i: int| 0 <= i < s.drop_last().len() implies #[trigger] hashless_tok(s.drop_last()[i]) by {
                assert(s.drop_last()[i] == s[i]);
            }
            assert(hashless_tok(s[s.len() - 1]));
        }
        if hashless(s) {
            assert forall|i: int| 0 <= i < s.len() implies #[trigger] hashless_tok(s[i]) by {
                if i < s.len() - 1 {
                    assert(s.drop_last()[i] == s[i]);
                }
            }
        }
    }
}

/// A stream holds no identifier `name` exactly when none of its tokens
/// does.
pub proof fn lemma_lacks_index(name: Seq<char>, s: Seq<Tok>)
    ensures
        lacks(name, s) <==> forall|i: int| 0 <= i < s.len() ==> #[trigger] lacks_tok(name, s[i]),
    decreases s.len(),
{
    if s.len() > 0 {
        lemma_lacks_index(name, s.drop_last());
        if forall|i: int| 0 <= i < s.len() ==> #[trigger] lacks_tok(name, s[i]) {
            assert forall|i: int| 0 <= i < s.drop_last().len() implies #[trigger] lacks_tok(name, s.drop_last()[i]) by {
                assert(s.drop_last()[i] == s[i]);
            }
            assert(lacks_tok(name, s[s.len() - 1]));
        }
        if lacks(name, s) {
            assert forall|i: int| 0 <= i < s.len() implies #[trigger] lacks_tok(name, s[i]) by {
                if i < s.len() - 1 {
                    assert(s.drop_last()[i] == s[i]);
                }
            }
        }
    }
}

/// On a body with no `#`, a pass with the number `n` replaces the loop
/// variable by `n` at any depth and changes nothing else.
pub proof fn lemma_pass_substitutes(c: SeqCtx, s: Seq<Tok>, i: int, n: usize)
    requires
        0 <= i <= s.len(),
        hashless(s),
    ensures
        pass_from(c, s, i, Mode::ReplaceIdent(n)).0 == subst_stream(c.name, s, n as nat).skip(i),
        pass_from(c, s, i, Mode::ReplaceIdent(n)).1 == exists|k: int| i <= k < s.len() && !lacks_tok(c.name, #[trigger] s[k]),
    decreases s, s.len() - i,
{
    lemma_subst_index(c.name, s, n as nat);
    let sub = subst_stream(c.name, s, n as nat);
    if i >= s.len() {
        assert(sub.skip(i) =~= Seq::<Tok>::empty());
    } else {
        lemma_hashless_index(s);
        assert(hashless_tok(s[i]));
        match s[i] {
            Tok::Group { delimiter, stream, span, span_open } => {
                lemma_pass_substitutes(c, stream, 0, n);
                lemma_subst_index(c.name, stream, n as nat);
                lemma_lacks_index(c.name, stream);
                assert(subst_stream(c.name, stream, n as nat).skip(0) =~= subst_stream(c.name, stream, n as nat));
                assert(pass_step(c, s, i, Mode::ReplaceIdent(n)).2 == !lacks_tok(c.name, s[i]));
            },
            Tok::Ident { text, span } => {
                if i + 2 < s.len() {
                    assert(hashless_tok(s[i + 1]));
                }
            },
            _ => {},
        }
        assert(pass_step(c, s, i, Mode::ReplaceIdent(n)).0 == seq![sub[i]]);
        assert(!pass_step(c, s, i, Mode::ReplaceIdent(n)).1);
        assert(pass_step(c, s, i, Mode::ReplaceIdent(n)).2 == !lacks_tok(c.name, s[i]));
        lemma_pass_substitutes(c, s, i + 1, n);
        assert(sub.skip(i) =~= seq![sub[i]] + sub.skip(i + 1));
        if !lacks_tok(c.name, s[i]) {
            assert(exists|k: int| i <= k < s.len() && !lacks_tok(c.name, #[trigger] s[k]));
        }
        if exists|k: int| i <= k < s.len() && !lacks_tok(c.name, #[trigger] s[k]) {
            let k = choose|k: int| i <= k < s.len() && !lacks_tok(c.name, #[trigger] s[k]);
            if k > i {
                assert(exists|k2: int| i + 1 <= k2 < s.len() && !lacks_tok(c.name, #[trigger] s[k2]));
            }
        }
    }
}

/// On a body with no `#`, the passes from the number `j` up to the end of
/// the range are the substitutions of those numbers.
pub proof fn lemma_repeat_substitutes(c: SeqCtx, s: Seq<Tok>, j: int)
    requires
        hashless(s),
        c.hi <= usize::MAX + 1,
    ensures
        repeat_pass(c, s, j) == substituted_range(c.name, s, j, c.hi),
    decreases c.hi - j,
{
    if j < c.hi && j >= 0 {
        lemma_pass_substitutes(c, s, 0, j as usize);
        assert(subst_stream(c.name, s, (j as usize) as nat).skip(0) =~= subst_stream(c.name, s, j as nat));
        lemma_repeat_substitutes(c, s, j + 1);
    }
}

/// Whether `s`, from the place `i` on and at any depth, holds no section
/// `# ( .. ) *`.
pub open spec fn no_section_from(s: Seq<Tok>, i: int) -> bool
    decreases s, s.len() - i,
{
    if i < 0 || i >= s.len() {
        true
    } else {
        let here = match s[i] {
            Tok::Group { stream, .. } => no_section_from(stream, 0),
            Tok::Punct { ch, .. } => !(ch == '#' && i + 2 < s.len() && paren_stream(s[i + 1]) is Some
                && is_punct(s[i + 2], '*')),
            _ => true,
        };
        here && no_section_from(s, i + 1)
    }
}

/// `s` from the place `i` on with, at any depth, each identifier `name`
/// replaced by the literal `n` and each `x # name` by the identifier `x`
/// followed by `n`.
pub open spec fn pasted_from(name: Seq<char>, s: Seq<Tok>, n: nat, i: int) -> Seq<Tok>
    decreases s, s.len() - i,
{
    if i < 0 || i >= s.len() {
        Seq::empty()
    } else {
        match s[i] {
            Tok::Group { delimiter, stream, span, span_open } => seq![Tok::Group {
                delimiter,
                stream: pasted_from(name, stream, n, 0),
                span,
                span_open,
            }] + pasted_from(name, s, n, i + 1),
            Tok::Ident { text, span } => if text == name {
                seq![Tok::Literal { text: decimal(n), span }] + pasted_from(name, s, n, i + 1)
            } else if i + 2 < s.len() && is_punct(s[i + 1], '#') && is_ident(s[i + 2], name) {
                seq![Tok::Ident { text: text + decimal(n), span }] + pasted_from(name, s, n, i + 3)
            } else {
                seq![s[i]] + pasted_from(name, s, n, i + 1)
            },
            _ => seq![s[i]] + pasted_from(name, s, n, i + 1),
        }
    }
}

/// The pastes of `s` for each number from `j` up to `hi`, one after the
/// other.
pub open spec fn pasted_range(name: Seq<char>, s: Seq<Tok>, j: int, hi: int) -> Seq<Tok>
    decreases hi - j,
{
    if j >= hi || j < 0 {
        Seq::empty()
    } else {
        pasted_from(name, s, j as nat, 0) + pasted_range(name, s, j + 1, hi)
    }
}

/// On a body with no `# ( .. ) *` section, a pass with the number `n`
/// replaces the loop variable and pastes `x # N` at any depth, and changes
/// nothing else.
pub proof fn lemma_pass_pastes(c: SeqCtx, s: Seq<Tok>, i: int, n: usize)
    requires
        0 <= i <= s.len(),
        no_section_from(s, i),
    ensures
        pass_from(c, s, i, Mode::ReplaceIdent(n)).0 == pasted_from(c.name, s, n as nat, i),
    decreases s, s.len() - i,
{
    if i < s.len() {
        match s[i] {
            Tok::Group { delimiter, stream, span, span_open } => {
                lemma_pass_pastes(c, stream, 0, n);
            },
            _ => {},
        }
        let st = pass_step(c, s, i, Mode::ReplaceIdent(n));
        if st.1 {
            lemma_no_section_skip(s, i + 1, i + 3);
            lemma_pass_pastes(c, s, i + 3, n);
        } else {
            lemma_pass_pastes(c, s, i + 1, n);
        }
    }
}

/// A stream with no section from `i` on has none from any later place on.
proof fn lemma_no_section_skip(s: Seq<Tok>, i: int, j: int)
    requires
        0 <= i <= j,
        no_section_from(s, i),
    ensures
        no_section_from(s, j),
    decreases j - i,
{
    if i < j && i < s.len() {
        lemma_no_section_skip(s, i + 1, j);
    }
}

/// On a body with no `# ( .. ) *` section, the passes from the number `j`
/// up to the end of the range are the pastes of those numbers.
proof fn lemma_repeat_pastes(c: SeqCtx, s: Seq<Tok>, j: int)
    requires
        no_section_from(s, 0),
        c.hi <= usize::MAX + 1,
    ensures
        repeat_pass(c, s, j) == pasted_range(c.name, s, j, c.hi),
    decreases c.hi - j,
{
    if j < c.hi && j >= 0 {
        lemma_pass_pastes(c, s, 0, j as usize);
        lemma_repeat_pastes(c, s, j + 1);
    }
}

/// A substitution of a name that a stream does not hold leaves the stream
/// as it is.
pub proof fn lemma_subst_absent(name: Seq<char>, s: Seq<Tok>, n: nat)
    requires
        lacks(name, s),
    ensures
        subst_stream(name, s, n) == s,
    decreases s,
{
    lemma_subst_index(name, s, n);
    lemma_lacks_index(name, s);
    assert forall|i: int| 0 <= i < s.len() implies #[trigger] subst_stream(name, s, n)[i] == s[i] by {
        assert(lacks_tok(name, s[i]));
        match s[i] {
            Tok::Group { delimiter, stream, span, span_open } => {
                lemma_subst_absent(name, stream, n);
            },
            _ => {},
        }
    }
    assert(subst_stream(name, s, n) =~= s);
}

/// Substitutions of a name that a stream does not hold give the stream once
/// per number.
pub proof fn lemma_substituted_range_absent(name: Seq<char>, s: Seq<Tok>, j: int, hi: int)
    requires
        lacks(name, s),
        0 <= j,
    ensures
        substituted_range(name, s, j, hi) == repeated(s, hi - j),
    decreases hi - j,
{
    if j < hi {
        lemma_subst_absent(name, s, j as nat);
        lemma_substituted_range_absent(name, s, j + 1, hi);
    }
}

impl SeqMacroInput2 {
    /// Whether both ends of the range can be read as `usize` and the range
    /// end, made exclusive, still is one.
    pub open spec fn range_ok(&self) -> bool {
        input_range_ok(self@)
    }

    /// The loop variable and the range of this input.
    pub open spec fn ctx(&self) -> SeqCtx {
        input_ctx(self@)
    }

    /// Whether the range of this input can be expanded, as [`Self::range_ok`]
    /// says.
    pub fn has_valid_range(&self) -> (r: bool)
        ensures
            r == self.range_ok(),
    {
        match (&self.from.value, &self.to.value) {
            (Ok(_), Ok(v)) => !(self.inclusive && *v == usize::MAX),
            _ => false,
        }
    }

    /// The range `lo..hi` as `usize` numbers.
    fn range(&self) -> (r: (usize, usize))
        requires
            self.range_ok(),
        ensures
            r.0 == self.ctx().lo,
            r.1 == self.ctx().hi,
    {
        let lo = match &self.from.value {
            Ok(v) => *v,
            Err(_) => 0,
        };
        let hi = match &self.to.value {
            Ok(v) => if self.inclusive { *v + 1 } else { *v },
            Err(_) => 0,
        };
        (lo, hi)
    }

    /// What one pass does with the token at `i` of `body`.
    fn expand_2(&self, body: &Vec<TokenTree>, i: usize, mode: Mode) -> (r: (Vec<TokenTree>, bool, bool))
        requires
            i < body.len(),
            self.range_ok(),
        ensures
            (stream_view(r.0@), r.1, r.2) == pass_step(self.ctx(), stream_view(body@), i as int, mode),
        decreases body@, 1int,
    {
        proof {
            broadcast use lemma_stream_view;
        }
        let ghost sv = stream_view(body@);
        let mut v: Vec<TokenTree> = Vec::new();
        match &body[i] {
            TokenTree::Group { delimiter, stream, span, span_open } => {
                proof {
                    assert(decreases_to!(body@ => stream@)) by {
                        assert(decreases_to!(body@ => body@[i as int]));
                    }
                }
                let (inner, m) = self.expand_pass(stream, mode);
                v.push(TokenTree::Group { delimiter: *delimiter, stream: inner, span: *span, span_open: *span_open });
                proof {
                    assert(stream_view(v@) =~= seq![tree_view(v@[0])]);
                }
                (v, false, m)
            },
            TokenTree::Ident { text, span } => {
                if *text == self.ident {
                    match mode {
                        Mode::ReplaceIdent(n) => {
                            v.push(TokenTree::Literal { text: decimal_string(n), span: *span });
                            proof {
                                assert(stream_view(v@) =~= seq![tree_view(v@[0])]);
                            }
                            (v, false, true)
                        },
                        Mode::ReplaceSequence => {
                            v.push(copy_tree(&body[i]));
                            proof {
                                assert(stream_view(v@) =~= seq![tree_view(v@[0])]);
                            }
                            (v, false, false)
                        },
                    }
                } else {
                    match mode {
                        Mode::ReplaceIdent(n) => {
                            if body.len() - i > 2 && punct_is(&body[i + 1], '#') && ident_is(&body[i + 2], &self.ident) {
                                let mut t = text.clone();
                                let d = decimal_string(n);
                                t.append(d.as_str());
                                v.push(TokenTree::Ident { text: t, span: *span });
                                proof {
                                    assert(stream_view(v@) =~= seq![tree_view(v@[0])]);
                                }
                                (v, true, true)
                            } else {
                                v.push(copy_tree(&body[i]));
                                proof {
                                    assert(stream_view(v@) =~= seq![tree_view(v@[0])]);
                                }
                                (v, false, false)
                            }
                        },
                        Mode::ReplaceSequence => {
                            v.push(copy_tree(&body[i]));
                            proof {
                                assert(stream_view(v@) =~= seq![tree_view(v@[0])]);
                            }
                            (v, false, false)
                        },
                    }
                }
            },
            TokenTree::Punct { ch, .. } => {
                let replacing = match mode {
                    Mode::ReplaceIdent(_) => true,
                    Mode::ReplaceSequence => false,
                };
                if *ch == '#' && replacing && body.len() - i > 2 && punct_is(&body[i + 2], '*') {
                    match &body[i + 1] {
                        TokenTree::Group { delimiter: Delimiter::Parenthesis, stream, .. } => {
                            proof {
                                assert(decreases_to!(body@ => stream@)) by {
                                    assert(decreases_to!(body@ => body@[i + 1]));
                                }
                            }
                            let r = self.repeat(stream);
                            return (r, true, true);
                        },
                        _ => {},
                    }
                }
                v.push(copy_tree(&body[i]));
                proof {
                    assert(stream_view(v@) =~= seq![tree_view(v@[0])]);
                }
                (v, false, false)
            },
            TokenTree::Literal { .. } => {
                v.push(copy_tree(&body[i]));
                proof {
                    assert(stream_view(v@) =~= seq![tree_view(v@[0])]);
                }
                (v, false, false)
            },
        }
    }

    /// One pass over `body`, as [`pass_from`] says.
    fn expand_pass(&self, body: &Vec<TokenTree>, mode: Mode) -> (r: (Vec<TokenTree>, bool))
        requires
            self.range_ok(),
        ensures
            (stream_view(r.0@), r.1) == pass_from(self.ctx(), stream_view(body@), 0, mode),
        decreases body@, 2int,
    {
        let ghost c = self.ctx();
        let ghost sv = stream_view(body@);
        proof {
            broadcast use lemma_stream_view;
        }
        let mut out: Vec<TokenTree> = Vec::new();
        let mut mutated = false;
        let mut i: usize = 0;
        while i < body.len()
            invariant
                i <= body.len() + 2,
                self.range_ok(),
                c == self.ctx(),
                sv == stream_view(body@),
                sv.len() == body.len(),
                pass_from(c, sv, 0, mode) == (stream_view(out@) + pass_from(c, sv, i as int, mode).0,
                    mutated || pass_from(c, sv, i as int, mode).1),
            decreases body.len() - i,
        {
            let (mut head, three, m) = self.expand_2(body, i, mode);
            let ghost before = out@;
            let ghost heads = head@;
            let ghost headv = stream_view(head@);
            out.append(&mut head);
            proof {
                lemma_stream_view_add(before, heads);
            }
            mutated = mutated || m;
            i = if three { i + 3 } else { i + 1 };
            proof {
                assert(stream_view(out@) + pass_from(c, sv, i as int, mode).0 =~= stream_view(before) + (headv + pass_from(c, sv, i as int, mode).0));
            }
        }
        proof {
            assert(stream_view(out@) + pass_from(c, sv, i as int, mode).0 =~= stream_view(out@));
        }
        (out, mutated)
    }

    /// `s` passed over once for each number of the range, as [`repeat_pass`]
    /// says from the start of the range.
    fn repeat(&self, s: &Vec<TokenTree>) -> (r: Vec<TokenTree>)
        requires
            self.range_ok(),
        ensures
            stream_view(r@) == repeat_pass(self.ctx(), stream_view(s@), self.ctx().lo),
        decreases s@, 3int,
    {
        let ghost c = self.ctx();
        let ghost sv = stream_view(s@);
        let (lo, hi) = self.range();
        let mut out: Vec<TokenTree> = Vec::new();
        let mut j = lo;
        while j < hi
            invariant
                lo <= j,
                self.range_ok(),
                c == self.ctx(),
                sv == stream_view(s@),
                hi == c.hi,
                repeat_pass(c, sv, lo as int) == stream_view(out@) + repeat_pass(c, sv, j as int),
            decreases hi - j,
        {
            let (mut x, _) = self.expand_pass(s, Mode::ReplaceIdent(j));
            let ghost before = out@;
            let ghost xs = x@;
            let ghost xv = stream_view(x@);
            out.append(&mut x);
            proof {
                lemma_stream_view_add(before, xs);
                assert(stream_view(out@) + repeat_pass(c, sv, j + 1) =~= stream_view(before) + (xv + repeat_pass(c, sv, j + 1)));
            }
            j = j + 1;
        }
        proof {
            assert(stream_view(out@) + repeat_pass(c, sv, j as int) =~= stream_view(out@));
        }
        out
    }

    /// The expansion of `body`: a first pass that only looks for places to
    /// repeat, then `body` once for each number of the range.
    pub fn expand(&self, body: &Vec<TokenTree>) -> (r: Vec<TokenTree>)
        requires
            self.range_ok(),
        ensures
            stream_view(r@) == repeat_pass(self.ctx(), stream_view(body@), self.ctx().lo),
    {
        let (out, mutated) = self.expand_pass(body, Mode::ReplaceSequence);
        proof {
            lemma_sequence_pass_keeps(self.ctx(), stream_view(body@), 0);
        }
        if mutated {
            return out;
        }
        self.repeat(body)
    }

    /// The expansion of the body of this input.
    pub fn into_tokens(&self) -> (r: Vec<TokenTree>)
        requires
            self.range_ok(),
        ensures
            stream_view(r@) == repeat_pass(self.ctx(), self@.tt, self.ctx().lo),
    {
        let body = copy_stream(&self.tt);
        self.expand(&body)
    }
}

/// What `seq!` gives for `tokens`: the expansion of the input read from
/// them, or the error of reading it. An input whose range does not fit in
/// `usize` is left out; [`try_seq`] takes every input and tells that case
/// apart.
pub fn seq(tokens: &Vec<TokenTree>) -> (r: Result<Vec<TokenTree>, SynError>)
    requires
        parse_seq_input(linearize(stream_view(tokens@))) matches Ok(v) ==> input_range_ok(v),
    ensures
        match r {
            Ok(out) => parse_seq_input(linearize(stream_view(tokens@))) matches Ok(v)
                && stream_view(out@) == expansion(v),
            Err(x) => parse_seq_input(linearize(stream_view(tokens@))) == Err::<SeqInputV, SynErrorV>(x@),
        },
{
    match try_seq(tokens) {
        Some(r) => r,
        None => {
            proof {
                assert(false);
            }
            Ok(Vec::new())
        },
    }
}

/// What `seq!` gives for `tokens`, as [`seq`] says, or `None` where the
/// input is read but its range does not fit in `usize`.
pub fn try_seq(tokens: &Vec<TokenTree>) -> (r: Option<Result<Vec<TokenTree>, SynError>>)
    ensures
        match r {
            Option::None => parse_seq_input(linearize(stream_view(tokens@))) matches Ok(v) && !input_range_ok(v),
            Option::Some(Ok(out)) => parse_seq_input(linearize(stream_view(tokens@))) matches Ok(v)
                && input_range_ok(v) && stream_view(out@) == expansion(v),
            Option::Some(Err(x)) => parse_seq_input(linearize(stream_view(tokens@))) == Err::<SeqInputV, SynErrorV>(x@),
        },
{
    match SeqMacroInput2::parse(tokens) {
        Ok(input) => {
            if input.has_valid_range() {
                Some(Ok(input.into_tokens()))
            } else {
                None
            }
        },
        Err(x) => Some(Err(x)),
    }
}

/// The numbers of an expansion: with both ends read as `usize` (and the end
/// of an inclusive range below `usize::MAX`), the range starts at the first
/// literal and stops before the second, or at it when the range is written
/// `..=`; the body is passed over once for each of them, in increasing order.
pub proof fn seq_range_numbers(input: SeqMacroInput2, body: Seq<Tok>)
    requires
        input.range_ok(),
    ensures
        input.ctx().lo == input.from.value->Ok_0,
        input.ctx().hi == input.to.value->Ok_0 + (if input.inclusive { 1int } else { 0int }),
        input.ctx().lo < input.ctx().hi ==> repeat_pass(input.ctx(), body, input.ctx().lo)
            == pass_from(input.ctx(), body, 0, Mode::ReplaceIdent(input.from.value->Ok_0)).0
                + repeat_pass(input.ctx(), body, input.ctx().lo + 1),
{
}

/// Over an empty range (an end at or before the start) `seq!` expands any
/// body to nothing.
pub proof fn seq_empty_range_gives_nothing(input: SeqMacroInput2, body: Seq<Tok>)
    requires
        input.range_ok(),
        input.ctx().hi <= input.ctx().lo,
    ensures
        repeat_pass(input.ctx(), body, input.ctx().lo) == Seq::<Tok>::empty(),
{
}

/// For a body with no `#`, `seq!` gives the body once for each number of
/// the range, in order, with the loop variable replaced at any depth by the
/// number.
pub proof fn seq_substitutes_each_number(input: SeqMacroInput2, body: Seq<Tok>)
    requires
        input.range_ok(),
        hashless(body),
    ensures
        repeat_pass(input.ctx(), body, input.ctx().lo)
            == substituted_range(input.ctx().name, body, input.ctx().lo, input.ctx().hi),
{
    lemma_repeat_substitutes(input.ctx(), body, input.ctx().lo);
}

/// For a body with no `# ( .. ) *` section at any depth, `seq!` gives the
/// body once for each number of the range, in order, with the loop
/// variable replaced by the number and each `x # N` pasted into the
/// identifier `x` followed by the number, at any depth.
pub proof fn seq_pastes_each_number(input: SeqMacroInput2, body: Seq<Tok>)
    requires
        input.range_ok(),
        no_section_from(body, 0),
    ensures
        repeat_pass(input.ctx(), body, input.ctx().lo)
            == pasted_range(input.ctx().name, body, input.ctx().lo, input.ctx().hi),
{
    lemma_repeat_pastes(input.ctx(), body, input.ctx().lo);
}

/// A section `# ( g ) *` met by a pass with a number uses its three tokens
/// and gives `g` passed over once for each number of the range, in order;
/// where `g` holds no section itself, that is `g` once per number with the
/// loop variable replaced and `x # N` pasted, at any depth.
pub proof fn seq_section_repeats(c: SeqCtx, s: Seq<Tok>, i: int, n: usize, g: Seq<Tok>)
    requires
        0 <= i,
        i + 2 < s.len(),
        is_punct(s[i], '#'),
        paren_stream(s[i + 1]) == Some(g),
        is_punct(s[i + 2], '*'),
    ensures
        pass_step(c, s, i, Mode::ReplaceIdent(n)) == (repeat_pass(c, g, c.lo), true, true),
        pass_step(c, s, i, Mode::ReplaceSequence) == (seq![s[i]], false, false),
        no_section_from(g, 0) && c.hi <= usize::MAX + 1 ==> repeat_pass(c, g, c.lo) == pasted_range(c.name, g, c.lo, c.hi),
{
    if no_section_from(g, 0) && c.hi <= usize::MAX + 1 {
        lemma_repeat_pastes(c, g, c.lo);
    }
}

/// A pass moves on by one token, or by three where the token begins a
/// paste `x # N` or a section `# ( .. ) *` (the two tokens it also uses are
/// there). What it gives is what that step gives followed by the rest, and
/// it reports a replacement when the step or the rest does, so a replacement
/// once reported stays reported; a step reports one only when it replaces
/// with a number or is a group in which a replacement was made.
pub proof fn seq_pass_steps(c: SeqCtx, s: Seq<Tok>, i: int, mode: Mode)
    requires
        0 <= i < s.len(),
    ensures
        pass_step(c, s, i, mode).1 ==> i + 2 < s.len(),
        pass_from(c, s, i, mode) == (pass_step(c, s, i, mode).0
            + pass_from(c, s, if pass_step(c, s, i, mode).1 { i + 3 } else { i + 1 }, mode).0,
            pass_step(c, s, i, mode).2
            || pass_from(c, s, if pass_step(c, s, i, mode).1 { i + 3 } else { i + 1 }, mode).1),
        pass_step(c, s, i, mode).2 ==> pass_from(c, s, i, mode).1,
        pass_step(c, s, i, mode).2 ==> (mode is ReplaceIdent || s[i] is Group),
{
}

/// On a body with no `#`, a pass with a number reports a replacement
/// exactly when the loop variable occurs in the body at any depth, and gives
/// the body with it replaced; a pass that only looks for places to repeat
/// gives the body back and reports none.
pub proof fn seq_pass_flag_meaning(c: SeqCtx, s: Seq<Tok>, n: usize)
    requires
        hashless(s),
    ensures
        pass_from(c, s, 0, Mode::ReplaceIdent(n)).1 == !lacks(c.name, s),
        pass_from(c, s, 0, Mode::ReplaceIdent(n)).0 == subst_stream(c.name, s, n as nat),
        pass_from(c, s, 0, Mode::ReplaceSequence) == (s, false),
{
    lemma_pass_substitutes(c, s, 0, n);
    lemma_lacks_index(c.name, s);
    lemma_sequence_pass_keeps(c, s, 0);
    assert(subst_stream(c.name, s, n as nat).skip(0) =~= subst_stream(c.name, s, n as nat));
    assert(s.skip(0) =~= s);
    if !lacks(c.name, s) {
        let k = choose|k: int| 0 <= k < s.len() && !lacks_tok(c.name, #[trigger] s[k]);
        assert(exists|k: int| 0 <= k < s.len() && !lacks_tok(c.name, #[trigger] s[k]));
    }
}

/// A body that holds neither the loop variable nor `#` is repeated as it
/// is, once for each number of the range.
pub proof fn seq_plain_body_repeats(input: SeqMacroInput2, body: Seq<Tok>)
    requires
        input.range_ok(),
        hashless(body),
        lacks(input.ctx().name, body),
    ensures
        repeat_pass(input.ctx(), body, input.ctx().lo) == repeated(body, input.ctx().hi - input.ctx().lo),
{
    lemma_repeat_substitutes(input.ctx(), body, input.ctx().lo);
    lemma_substituted_range_absent(input.ctx().name, body, input.ctx().lo, input.ctx().hi);
}

/// Whether `t` is the punctuation `c`.
fn punct_is(t: &TokenTree, c: char) -> (r: bool)
    ensures
        r == is_punct(tree_view(*t), c),
{
    match t {
        TokenTree::Punct { ch, .. } => *ch == c,
        _ => false,
    }
}

/// Whether `t` is the identifier `name`.
fn ident_is(t: &TokenTree, name: &String) -> (r: bool)
    ensures
        r == is_ident(tree_view(*t), name@),
{
    match t {
        TokenTree::Ident { text, .. } => *text == *name,
        _ => false,
    }
}

} // verus!
