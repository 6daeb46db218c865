//! Writing a comprehension out as an iterator chain, and the whole way from
//! source text to that chain.
//!
//! The innermost (last) clause maps its elements with `flat_map` over the
//! `Option` that the conditions give; each clause around it produces the inner
//! iterator with `filter_map` and flattens it:
//!
//! ```text
//! into_iter(s1).filter_map(move|p1|{(true && (c1)).then(|| into_iter(s2).flat_map(
//!     move|p2|{(true).then(|| mapping)}))}).flatten()
//! ```

use crate::comp::grammar::{decomposes, parse, Comprehension, ComprehensionView, ClauseView, ForIfClause};
use crate::comp::syntax::{parses_as_pattern, pattern_ok};
use crate::comp::token::{lex, lexed, render, render_tokens, tokens_view, TokenView};
use vstd::prelude::*;
use vstd::string::*;

verus! {

/// `(true && (c1) && (c2) ...` without its closing parenthesis: the
/// conjunction of the conditions.
pub open spec fn guard_text(cs: Seq<Seq<TokenView>>) -> Seq<char>
    decreases cs.len(),
{
    if cs.len() == 0 {
        "(true"@
    } else {
        guard_text(cs.drop_last()) + " && ("@ + render(cs.last()) + ")"@
    }
}

/// The start of a clause up to its yielded value: the sequence, the adaptor,
/// the pattern and the guard.
pub open spec fn clause_head(c: ClauseView, adaptor: Seq<char>) -> Seq<char> {
    "core::iter::IntoIterator::into_iter("@ + render(c.sequence) + adaptor + render(c.pattern)
        + "|{"@ + guard_text(c.conditions) + ").then(|| "@
}

/// The innermost clause, yielding the mapping.
pub open spec fn inner_clause_text(c: ClauseView, mapping: Seq<char>) -> Seq<char> {
    clause_head(c, ").flat_map(move|"@) + mapping + ")})"@
}

/// A clause around `inner`, flattening the iterators that `inner` gives.
pub open spec fn outer_clause_text(c: ClauseView, inner: Seq<char>) -> Seq<char> {
    clause_head(c, ").filter_map(move|"@) + inner + ")}).flatten()"@
}

/// The clauses `cs`, outermost first, around the mapping.
pub open spec fn nested_text(cs: Seq<ClauseView>, mapping: Seq<char>) -> Seq<char>
    decreases cs.len(),
{
    if cs.len() <= 1 {
        inner_clause_text(cs[0], mapping)
    } else {
        outer_clause_text(cs[0], nested_text(cs.drop_first(), mapping))
    }
}

/// The Rust source text that a comprehension expands to.
pub open spec fn expansion(c: ComprehensionView) -> Seq<char> {
    nested_text(c.clauses, render(c.mapping))
}

/// A clause's guard is the conjunction of all of its conditions: with none
/// it is `(true`, and each further condition `c` appends exactly ` && (c)`,
/// however many come before it.
pub proof fn lemma_guard_conjoins_every_condition(cs: Seq<Seq<TokenView>>, c: Seq<TokenView>)
    ensures
        guard_text(Seq::<Seq<TokenView>>::empty()) == "(true"@,
        guard_text(cs.push(c)) == guard_text(cs) + " && ("@ + render(c) + ")"@,
{
    assert(cs.push(c).drop_last() =~= cs);
    assert(cs.push(c).last() == c);
}

/// A comprehension of one clause maps the elements of its sequence, bound by
/// its pattern, that pass its guard.
pub proof fn lemma_single_clause_text(c: ClauseView, mapping: Seq<char>)
    ensures
        nested_text(seq![c], mapping) == "core::iter::IntoIterator::into_iter("@ + render(
            c.sequence,
        ) + ").flat_map(move|"@ + render(c.pattern) + "|{"@ + guard_text(c.conditions)
            + ").then(|| "@ + mapping + ")})"@,
{
    assert(seq![c][0] == c);
}

/// The first of several clauses is the outermost: the text starts with its
/// sequence, binds its pattern, keeps only the elements that pass its own
/// guard, and for each of them yields what the remaining clauses, alone and
/// in order, yield.
pub proof fn lemma_first_clause_outermost(cs: Seq<ClauseView>, mapping: Seq<char>)
    requires
        cs.len() >= 2,
    ensures
        nested_text(cs, mapping) == "core::iter::IntoIterator::into_iter("@ + render(
            cs[0].sequence,
        ) + ").filter_map(move|"@ + render(cs[0].pattern) + "|{"@ + guard_text(cs[0].conditions)
            + ").then(|| "@ + nested_text(cs.drop_first(), mapping) + ")}).flatten()"@,
{
}

fn guard(conditions: &Vec<Vec<crate::comp::token::Token>>) -> (r: String)
    ensures
        r@ == guard_text(crate::comp::grammar::pieces_view(conditions@)),
{
    let ghost cs = crate::comp::grammar::pieces_view(conditions@);
    let mut out = String::from_str("(true");
    let n = conditions.len();
    let mut i: usize = 0;
    assert(cs.subrange(0, 0) =~= Seq::<Seq<TokenView>>::empty());
    while i < n
        invariant
            n == conditions.len(),
            cs == crate::comp::grammar::pieces_view(conditions@),
            i <= n,
            out@ == guard_text(cs.subrange(0, i as int)),
        decreases n - i,
    {
        assert(cs.subrange(0, i + 1).drop_last() =~= cs.subrange(0, i as int));
        out.append(" && (");
        let text = render_tokens(&conditions[i]);
        out.append(text.as_str());
        out.append(")");
        i = i + 1;
    }
    assert(cs.subrange(0, n as int) =~= cs);
    out
}

fn clause_head_text(c: &ForIfClause, adaptor: &str) -> (r: String)
    ensures
        r@ == clause_head(c@, adaptor@),
{
    let mut out = String::from_str("core::iter::IntoIterator::into_iter(");
    let sequence = render_tokens(&c.sequence);
    out.append(sequence.as_str());
    out.append(adaptor);
    let pattern = render_tokens(&c.pattern);
    out.append(pattern.as_str());
    out.append("|{");
    let g = guard(&c.conditions);
    out.append(g.as_str());
    out.append(").then(|| ");
    out
}

/// Writes a well-formed comprehension out as the Rust source text of its
/// iterator chain.
pub fn generate(c: &Comprehension) -> (r: String)
    requires
        c@.clauses.len() > 0,
    ensures
        r@ == expansion(c@),
{
    let ghost cs = c@.clauses;
    let n = c.clauses.len();
    let mapping = render_tokens(&c.mapping);
    let mut out = clause_head_text(&c.clauses[n - 1], ").flat_map(move|");
    out.append(mapping.as_str());
    out.append(")})");
    proof {
        assert(cs.subrange(n - 1, n as int).len() == 1);
        assert(cs.subrange(n - 1, n as int)[0] == cs[n - 1]);
    }
    let mut q = n - 1;
    while q > 0
        invariant
            n == c.clauses.len(),
            cs == c@.clauses,
            q < n,
            mapping@ == render(c@.mapping),
            out@ == nested_text(cs.subrange(q as int, n as int), mapping@),
        decreases q,
    {
        let ghost inner = out@;
        let mut next = clause_head_text(&c.clauses[q - 1], ").filter_map(move|");
        next.append(out.as_str());
        next.append(")}).flatten()");
        proof {
            let s = cs.subrange(q - 1, n as int);
            assert(s.drop_first() =~= cs.subrange(q as int, n as int));
            assert(s[0] == cs[q - 1]);
        }
        out = next;
        q = q - 1;
    }
    proof {
        assert(cs.subrange(0, n as int) =~= cs);
    }
    out
}

/// Each clause's pattern is a Rust pattern.
pub open spec fn patterns_valid(c: ComprehensionView) -> bool {
    forall|q: int|
        0 <= q < c.clauses.len() ==> parses_as_pattern(render(#[trigger] c.clauses[q].pattern))
}

/// Checks that each clause's pattern is a Rust pattern.
pub fn validate(c: &Comprehension) -> (r: bool)
    ensures
        r == patterns_valid(c@),
{
    let ghost cs = c@.clauses;
    let n = c.clauses.len();
    let mut q: usize = 0;
    while q < n
        invariant
            n == c.clauses.len(),
            cs == c@.clauses,
            q <= n,
            forall|x: int| 0 <= x < q ==> parses_as_pattern(render(#[trigger] cs[x].pattern)),
        decreases n - q,
    {
        assert(cs[q as int] == c.clauses@[q as int]@);
        if !pattern_ok(&c.clauses[q].pattern) {
            assert(!parses_as_pattern(render(cs[q as int].pattern)));
            return false;
        }
        q = q + 1;
    }
    true
}

/// Why a text is not a comprehension.
#[derive(PartialEq, Eq, Structural, Clone, Copy, Debug)]
pub enum CompError {
    /// The text is not Rust tokens.
    Lex,
    /// The tokens do not split into an expression and `for`/`in`/`if`
    /// clauses.
    Grammar,
    /// A clause's pattern is not a Rust pattern.
    Syntax,
}

impl CompError {
    /// The text that the error displays.
    pub fn message(&self) -> (r: String)
        ensures
            r@ == match self {
                CompError::Lex => "comprehension: the input is not Rust tokens"@,
                CompError::Grammar =>
                    "comprehension: expected `mapping for pattern in sequence (if condition)*`"@,
                CompError::Syntax => "comprehension: a pattern is not a Rust pattern"@,
            },
    {
        match self {
            CompError::Lex => String::from_str("comprehension: the input is not Rust tokens"),
            CompError::Grammar => String::from_str(
                "comprehension: expected `mapping for pattern in sequence (if condition)*`",
            ),
            CompError::Syntax => String::from_str(
                "comprehension: a pattern is not a Rust pattern",
            ),
        }
    }
}

/// What expanding the tokens `t` gives: the expansion of the comprehension
/// they are written as, where each of its patterns is a Rust pattern.
pub open spec fn expands_tokens_to(t: Seq<TokenView>, r: Result<Seq<char>, CompError>) -> bool {
    match r {
        Ok(text) => exists|c: ComprehensionView|
            decomposes(c, t) && patterns_valid(c) && text == expansion(c),
        Err(CompError::Grammar) => forall|c: ComprehensionView| !decomposes(c, t),
        Err(CompError::Syntax) => exists|c: ComprehensionView|
            decomposes(c, t) && !patterns_valid(c),
        Err(CompError::Lex) => false,
    }
}

pub open spec fn result_view(r: Result<String, CompError>) -> Result<Seq<char>, CompError> {
    match r {
        Ok(s) => Ok(s@),
        Err(e) => Err(e),
    }
}

/// Expands the tokens of a comprehension into the Rust source text of its
/// iterator chain.
pub fn expand_tokens(ts: &Vec<crate::comp::token::Token>) -> (r: Result<String, CompError>)
    ensures
        expands_tokens_to(tokens_view(ts@), result_view(r)),
{
    match parse(ts) {
        None => Err(CompError::Grammar),
        Some(c) => {
            if validate(&c) {
                Ok(generate(&c))
            } else {
                Err(CompError::Syntax)
            }
        },
    }
}

/// What expanding the source text `text` gives.
pub open spec fn expands_to(text: Seq<char>, r: Result<Seq<char>, CompError>) -> bool {
    match lexed(text) {
        None => r == Err::<Seq<char>, CompError>(CompError::Lex),
        Some(t) => expands_tokens_to(t, r),
    }
}

/// Expands the Rust source text of a comprehension, as written between the
/// brackets of `comp![...]`, into the Rust source text of its iterator chain.
pub fn expand(text: &str) -> (r: Result<String, CompError>)
    ensures
        expands_to(text@, result_view(r)),
{
    match lex(text) {
        None => Err(CompError::Lex),
        Some(ts) => expand_tokens(&ts),
    }
}

} // verus!
