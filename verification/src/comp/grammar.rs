//! The grammar of comprehensions over top-level tokens:
//!
//! ```text
//! comprehension: mapping for_if_clause+
//! for_if_clause: 'for' pattern 'in' sequence ('if' condition)*
//! ```
//!
//! A pattern runs to the next top-level `in`.  The mapping, a sequence and a
//! condition are expressions, and `syn` decides where each ends: it runs to the
//! last place where it may end (before a top-level `for`, for the mapping;
//! before a top-level `if` or `for`, for a sequence or a condition; or at the
//! end) at which `syn` accepts the tokens from its start as one expression.

use crate::comp::syntax::{expression_ok, parses_as_expression};
use crate::comp::token::{render, lemma_keyword_kinds, kind, kind_of, kw_for, kw_if, kw_in, tokens_view, Kind, Token, TokenView};
use vstd::prelude::*;

verus! {

/// One `for pattern in sequence (if condition)*` clause.
pub struct ForIfClause {
    pub pattern: Vec<Token>,
    pub sequence: Vec<Token>,
    pub conditions: Vec<Vec<Token>>,
}

/// A comprehension: the mapping, then its clauses, outermost first.
pub struct Comprehension {
    pub mapping: Vec<Token>,
    pub clauses: Vec<ForIfClause>,
}

pub struct ClauseView {
    pub pattern: Seq<TokenView>,
    pub sequence: Seq<TokenView>,
    pub conditions: Seq<Seq<TokenView>>,
}

pub struct ComprehensionView {
    pub mapping: Seq<TokenView>,
    pub clauses: Seq<ClauseView>,
}

pub open spec fn pieces_view(v: Seq<Vec<Token>>) -> Seq<Seq<TokenView>> {
    v.map_values(|p: Vec<Token>| tokens_view(p@))
}

pub open spec fn clauses_view(v: Seq<ForIfClause>) -> Seq<ClauseView> {
    v.map_values(|c: ForIfClause| c@)
}

impl View for ForIfClause {
    type V = ClauseView;

    open spec fn view(&self) -> ClauseView {
        ClauseView {
            pattern: tokens_view(self.pattern@),
            sequence: tokens_view(self.sequence@),
            conditions: pieces_view(self.conditions@),
        }
    }
}

impl View for Comprehension {
    type V = ComprehensionView;

    open spec fn view(&self) -> ComprehensionView {
        ComprehensionView { mapping: tokens_view(self.mapping@), clauses: clauses_view(self.clauses@) }
    }
}

/// No token of `piece` has the role `k`.
pub open spec fn free_of(piece: Seq<TokenView>, k: Kind) -> bool {
    forall|x: int| 0 <= x < piece.len() ==> kind(#[trigger] piece[x]) != k
}

/// A clause's pattern: some tokens, with no top-level `in`.
pub open spec fn clause_wf(c: ClauseView) -> bool {
    c.pattern.len() > 0 && free_of(c.pattern, Kind::In)
}

pub open spec fn clauses_wf(cs: Seq<ClauseView>) -> bool {
    forall|q: int| 0 <= q < cs.len() ==> clause_wf(#[trigger] cs[q])
}

/// At least one clause, each with a pattern.
pub open spec fn comprehension_wf(c: ComprehensionView) -> bool {
    &&& c.clauses.len() > 0
    &&& clauses_wf(c.clauses)
}

/// The tokens `if c1 if c2 ...`.
pub open spec fn conditions_tokens(cs: Seq<Seq<TokenView>>) -> Seq<TokenView>
    decreases cs.len(),
{
    if cs.len() == 0 {
        Seq::empty()
    } else {
        seq![kw_if()] + cs[0] + conditions_tokens(cs.drop_first())
    }
}

/// The tokens of one clause.
pub open spec fn clause_tokens(c: ClauseView) -> Seq<TokenView> {
    seq![kw_for()] + c.pattern + seq![kw_in()] + c.sequence + conditions_tokens(c.conditions)
}

pub open spec fn clauses_tokens(cs: Seq<ClauseView>) -> Seq<TokenView>
    decreases cs.len(),
{
    if cs.len() == 0 {
        Seq::empty()
    } else {
        clause_tokens(cs[0]) + clauses_tokens(cs.drop_first())
    }
}

/// The tokens that a comprehension is written as.
pub open spec fn comprehension_tokens(c: ComprehensionView) -> Seq<TokenView> {
    c.mapping + clauses_tokens(c.clauses)
}

/// Where a search for a top-level keyword stops.
#[derive(PartialEq, Eq, Structural, Clone, Copy, Debug)]
pub enum Stop {
    AtFor,
    AtIn,
    AtIfOrFor,
}

pub open spec fn stops(s: Stop, k: Kind) -> bool {
    match s {
        Stop::AtFor => k == Kind::For,
        Stop::AtIn => k == Kind::In,
        Stop::AtIfOrFor => k == Kind::If || k == Kind::For,
    }
}

/// An expression may end at `k`: at the end of the tokens, or before a token
/// that stops it.
pub open spec fn may_end(t: Seq<TokenView>, k: int, s: Stop) -> bool {
    k == t.len() || (0 <= k < t.len() && stops(s, kind(t[k])))
}

/// The expression that starts at `a` ends at `b`: the last place where it
/// may end at which `syn` accepts the tokens from `a` as one expression.
#[verifier::opaque]
pub open spec fn longest_expression(t: Seq<TokenView>, a: int, b: int, s: Stop) -> bool {
    &&& 0 <= a < b <= t.len()
    &&& may_end(t, b, s)
    &&& parses_as_expression(render(t.subrange(a, b)))
    &&& forall|k: int|
        b < k <= t.len() && may_end(t, k, s) ==> !parses_as_expression(
            render(#[trigger] t.subrange(a, k)),
        )
}

/// The conditions standing from `k` on are each as long as `syn` lets them
/// be.
pub open spec fn conditions_longest(t: Seq<TokenView>, k: int, cs: Seq<Seq<TokenView>>) -> bool
    decreases cs.len(),
{
    cs.len() == 0 || (longest_expression(t, k + 1, k + 1 + cs[0].len(), Stop::AtIfOrFor)
        && conditions_longest(t, k + 1 + cs[0].len(), cs.drop_first()))
}

/// The sequence and the conditions of the clause standing at `i` are each as
/// long as `syn` lets them be.
pub open spec fn clause_longest(t: Seq<TokenView>, i: int, c: ClauseView) -> bool {
    let j = i + 1 + c.pattern.len();
    let k = j + 1 + c.sequence.len();
    longest_expression(t, j + 1, k, Stop::AtIfOrFor) && conditions_longest(t, k, c.conditions)
}

/// The clauses standing from `i` on are each read as `syn` lets them be.
pub open spec fn clauses_longest(t: Seq<TokenView>, i: int, cs: Seq<ClauseView>) -> bool
    decreases cs.len(),
{
    cs.len() == 0 || (clause_longest(t, i, cs[0]) && clauses_longest(
        t,
        i + clause_tokens(cs[0]).len(),
        cs.drop_first(),
    ))
}

/// `c` is the comprehension written as the tokens `t`: its mapping, its
/// sequences and its conditions each as long as `syn` lets them be, its
/// patterns running to the next `in`.
pub open spec fn decomposes(c: ComprehensionView, t: Seq<TokenView>) -> bool {
    &&& comprehension_wf(c)
    &&& comprehension_tokens(c) == t
    &&& longest_expression(t, 0, c.mapping.len() as int, Stop::AtFor)
    &&& clauses_longest(t, c.mapping.len() as int, c.clauses)
}

pub proof fn lemma_conditions_push(cs: Seq<Seq<TokenView>>, c: Seq<TokenView>)
    ensures
        conditions_tokens(cs.push(c)) == conditions_tokens(cs) + seq![kw_if()] + c,
    decreases cs.len(),
{
    if cs.len() == 0 {
        assert(cs.push(c).drop_first() =~= Seq::<Seq<TokenView>>::empty());
        assert(cs.push(c)[0] == c);
        assert(conditions_tokens(Seq::<Seq<TokenView>>::empty()) =~= Seq::<TokenView>::empty());
        assert(conditions_tokens(cs.push(c)) =~= seq![kw_if()] + c);
    } else {
        assert(cs.push(c).drop_first() =~= cs.drop_first().push(c));
        lemma_conditions_push(cs.drop_first(), c);
        assert(conditions_tokens(cs.push(c)) =~= conditions_tokens(cs) + seq![kw_if()] + c);
    }
}

pub proof fn lemma_clauses_push(cs: Seq<ClauseView>, c: ClauseView)
    ensures
        clauses_tokens(cs.push(c)) == clauses_tokens(cs) + clause_tokens(c),
    decreases cs.len(),
{
    if cs.len() == 0 {
        assert(cs.push(c).drop_first() =~= Seq::<ClauseView>::empty());
        assert(cs.push(c)[0] == c);
        assert(clauses_tokens(Seq::<ClauseView>::empty()) =~= Seq::<TokenView>::empty());
        assert(clauses_tokens(cs.push(c)) =~= clause_tokens(c));
    } else {
        assert(cs.push(c).drop_first() =~= cs.drop_first().push(c));
        lemma_clauses_push(cs.drop_first(), c);
        assert(clauses_tokens(cs.push(c)) =~= clauses_tokens(cs) + clause_tokens(c));
    }
}

pub proof fn lemma_conditions_longest_push(
    t: Seq<TokenView>,
    k: int,
    cs: Seq<Seq<TokenView>>,
    c: Seq<TokenView>,
)
    ensures
        conditions_longest(t, k, cs.push(c)) == (conditions_longest(t, k, cs) && longest_expression(
            t,
            k + conditions_tokens(cs).len() + 1,
            k + conditions_tokens(cs).len() + 1 + c.len(),
            Stop::AtIfOrFor,
        )),
    decreases cs.len(),
{
    if cs.len() == 0 {
        assert(cs.push(c).drop_first() =~= Seq::<Seq<TokenView>>::empty());
        assert(cs.push(c)[0] == c);
        assert(conditions_tokens(cs) =~= Seq::<TokenView>::empty());
        assert(conditions_longest(t, k + 1 + c.len(), Seq::<Seq<TokenView>>::empty()));
        assert(conditions_longest(t, k, cs));
    } else {
        assert(cs.push(c).drop_first() =~= cs.drop_first().push(c));
        assert(cs.push(c)[0] == cs[0]);
        lemma_conditions_longest_push(t, k + 1 + cs[0].len(), cs.drop_first(), c);
        assert(conditions_tokens(cs).len() == 1 + cs[0].len() + conditions_tokens(
            cs.drop_first(),
        ).len());
    }
}

pub proof fn lemma_clauses_longest_push(t: Seq<TokenView>, i: int, cs: Seq<ClauseView>, c: ClauseView)
    ensures
        clauses_longest(t, i, cs.push(c)) == (clauses_longest(t, i, cs) && clause_longest(
            t,
            i + clauses_tokens(cs).len(),
            c,
        )),
    decreases cs.len(),
{
    if cs.len() == 0 {
        assert(cs.push(c).drop_first() =~= Seq::<ClauseView>::empty());
        assert(cs.push(c)[0] == c);
        assert(clauses_tokens(cs) =~= Seq::<TokenView>::empty());
        assert(clauses_longest(t, i + clause_tokens(c).len(), Seq::<ClauseView>::empty()));
        assert(clauses_longest(t, i, cs));
    } else {
        assert(cs.push(c).drop_first() =~= cs.drop_first().push(c));
        assert(cs.push(c)[0] == cs[0]);
        lemma_clauses_longest_push(t, i + clause_tokens(cs[0]).len(), cs.drop_first(), c);
        assert(clauses_tokens(cs).len() == clause_tokens(cs[0]).len() + clauses_tokens(
            cs.drop_first(),
        ).len());
    }
}

/// The expression that starts at `a` and ends at `b` is accepted by `syn`,
/// and ends where an expression may.
pub proof fn lemma_longest_parses(t: Seq<TokenView>, a: int, b: int, s: Stop)
    requires
        longest_expression(t, a, b, s),
    ensures
        0 <= a < b <= t.len(),
        may_end(t, b, s),
        parses_as_expression(render(t.subrange(a, b))),
{
    reveal(longest_expression);
}

/// At most one place ends the expression that starts at `a`.
pub proof fn lemma_longest_unique(t: Seq<TokenView>, a: int, b1: int, b2: int, s: Stop)
    requires
        longest_expression(t, a, b1, s),
        longest_expression(t, a, b2, s),
    ensures
        b1 == b2,
{
    reveal(longest_expression);
    if b1 < b2 {
        assert(!parses_as_expression(render(t.subrange(a, b2))));
    } else if b2 < b1 {
        assert(!parses_as_expression(render(t.subrange(a, b1))));
    }
}

/// The tokens of `t` from `i` on are the clause `c`, read as `syn` lets it
/// be, then the clauses `rest`.
pub open spec fn clause_at(t: Seq<TokenView>, i: int, c: ClauseView, rest: Seq<ClauseView>) -> bool {
    &&& 0 <= i <= t.len()
    &&& clause_wf(c)
    &&& t.subrange(i, t.len() as int) == clause_tokens(c) + clauses_tokens(rest)
    &&& clause_longest(t, i, c)
}

/// Clauses are written as some tokens, the first one `for`, exactly when
/// there is a clause.
pub proof fn lemma_clauses_start(cs: Seq<ClauseView>)
    ensures
        cs.len() == 0 ==> clauses_tokens(cs).len() == 0,
        cs.len() > 0 ==> clauses_tokens(cs).len() > 0 && clauses_tokens(cs)[0] == kw_for(),
{
    if cs.len() > 0 {
        assert(clause_tokens(cs[0])[0] == kw_for());
    }
}

/// Where conditions and then clauses stand at `k`, the token at `k` is `if`
/// exactly when a condition is left; where none is, it is `for` or the end.
pub proof fn lemma_after_conditions(
    t: Seq<TokenView>,
    k: int,
    cs: Seq<Seq<TokenView>>,
    rest: Seq<ClauseView>,
)
    requires
        0 <= k <= t.len(),
        t.subrange(k, t.len() as int) == conditions_tokens(cs) + clauses_tokens(rest),
    ensures
        (k < t.len() && kind(t[k]) == Kind::If) == (cs.len() > 0),
        cs.len() == 0 ==> t.subrange(k, t.len() as int) == clauses_tokens(rest),
        cs.len() == 0 ==> (k < t.len()) == (rest.len() > 0),
        cs.len() == 0 && k < t.len() ==> kind(t[k]) == Kind::For,
        may_end(t, k, Stop::AtIfOrFor),
{
    lemma_keyword_kinds();
    lemma_clauses_start(rest);
    let u = t.subrange(k, t.len() as int);
    if cs.len() > 0 {
        assert(conditions_tokens(cs)[0] == kw_if());
        assert((conditions_tokens(cs) + clauses_tokens(rest)).len() > 0);
        assert(u.len() == t.len() - k);
        assert(k < t.len());
        assert(u[0] == kw_if());
        assert(t[k] == u[0]);
    } else {
        assert(conditions_tokens(cs) =~= Seq::<TokenView>::empty());
        assert(u =~= clauses_tokens(rest));
        if k < t.len() {
            assert(t[k] == u[0]);
        }
    }
}

/// How a clause lies in the tokens: where its `in` stands, where its
/// sequence ends, and what follows.
pub proof fn lemma_clause_layout(t: Seq<TokenView>, i: int, c: ClauseView, rest: Seq<ClauseView>)
    requires
        0 <= i <= t.len(),
        clause_wf(c),
        t.subrange(i, t.len() as int) == clause_tokens(c) + clauses_tokens(rest),
    ensures
        ({
            let j = i + 1 + c.pattern.len();
            let k = j + 1 + c.sequence.len();
            &&& k <= t.len()
            &&& kind(t[i]) == Kind::For
            &&& t.subrange(i + 1, j) == c.pattern
            &&& first_stop(t, i + 1, j, Stop::AtIn)
            &&& t.subrange(j + 1, k) == c.sequence
            &&& t.subrange(k, t.len() as int) == conditions_tokens(c.conditions) + clauses_tokens(
                rest,
            )
        }),
{
    lemma_keyword_kinds();
    let p = c.pattern;
    let s = c.sequence;
    let ct = conditions_tokens(c.conditions);
    let b = clauses_tokens(rest);
    let u = t.subrange(i, t.len() as int);
    let a = seq![kw_for()] + p + seq![kw_in()] + s + ct;
    assert(u == a + b);
    let j = i + 1 + p.len();
    let k = j + 1 + s.len();
    assert(u.len() == t.len() - i);
    assert(t[i] == u[0]);
    assert forall|x: int| 0 <= x < p.len() implies t[i + 1 + x] == p[x] by {
        assert(t[i + 1 + x] == u[1 + x]);
    }
    assert(t.subrange(i + 1, j) =~= p);
    assert(t[j] == u[1 + p.len() as int]);
    assert forall|x: int| i + 1 <= x < j implies !stops(Stop::AtIn, kind(#[trigger] t[x])) by {
        assert(t[x] == p[x - (i + 1)]);
    }
    assert forall|x: int| 0 <= x < s.len() implies t[j + 1 + x] == s[x] by {
        assert(t[j + 1 + x] == u[2 + p.len() as int + x]);
    }
    assert(t.subrange(j + 1, k) =~= s);
    assert forall|x: int| 0 <= x < t.len() - k implies t.subrange(k, t.len() as int)[x] == (ct
        + b)[x] by {
        assert(t[k + x] == u[2 + p.len() as int + s.len() as int + x]);
    }
    assert(t.subrange(k, t.len() as int) =~= ct + b);
}

/// How the first of some conditions lies in the tokens.
pub proof fn lemma_condition_layout(
    t: Seq<TokenView>,
    k: int,
    cs: Seq<Seq<TokenView>>,
    rest: Seq<ClauseView>,
)
    requires
        0 <= k <= t.len(),
        cs.len() > 0,
        t.subrange(k, t.len() as int) == conditions_tokens(cs) + clauses_tokens(rest),
    ensures
        ({
            let m = k + 1 + cs[0].len();
            &&& m <= t.len()
            &&& kind(t[k]) == Kind::If
            &&& t.subrange(k + 1, m) == cs[0]
            &&& t.subrange(m, t.len() as int) == conditions_tokens(cs.drop_first())
                + clauses_tokens(rest)
        }),
{
    lemma_keyword_kinds();
    let c = cs[0];
    let ct = conditions_tokens(cs.drop_first());
    let b = clauses_tokens(rest);
    let u = t.subrange(k, t.len() as int);
    assert(u == seq![kw_if()] + c + ct + b);
    let m = k + 1 + c.len();
    assert(t[k] == u[0]);
    assert forall|x: int| 0 <= x < c.len() implies t[k + 1 + x] == c[x] by {
        assert(t[k + 1 + x] == u[1 + x]);
    }
    assert(t.subrange(k + 1, m) =~= c);
    assert forall|x: int| 0 <= x < t.len() - m implies t.subrange(m, t.len() as int)[x] == (ct
        + b)[x] by {
        assert(t[m + x] == u[1 + c.len() as int + x]);
    }
    assert(t.subrange(m, t.len() as int) =~= ct + b);
}

/// No token of `t` in `[from, to)` stops a search.
pub open spec fn none_stop(t: Seq<TokenView>, from: int, to: int, s: Stop) -> bool {
    forall|x: int| from <= x < to ==> !stops(s, kind(#[trigger] t[x]))
}

/// `r` is where a search of `t` from `from` stops: the first token that
/// stops it, or the end.
pub open spec fn first_stop(t: Seq<TokenView>, from: int, r: int, s: Stop) -> bool {
    &&& from <= r <= t.len()
    &&& none_stop(t, from, r, s)
    &&& r < t.len() ==> stops(s, kind(t[r]))
}

pub proof fn lemma_first_stop_unique(t: Seq<TokenView>, from: int, r: int, e: int, s: Stop)
    requires
        first_stop(t, from, r, s),
        first_stop(t, from, e, s),
    ensures
        r == e,
{
    if r < e {
        assert(!stops(s, kind(t[r])));
    } else if e < r {
        assert(!stops(s, kind(t[e])));
    }
}

/// The first position at or after `from` where a search stops.
pub fn find(ts: &Vec<Token>, from: usize, s: Stop) -> (r: usize)
    requires
        from <= ts.len(),
    ensures
        first_stop(tokens_view(ts@), from as int, r as int, s),
{
    let ghost t = tokens_view(ts@);
    let n = ts.len();
    let mut i = from;
    while i < n
        invariant
            n == ts.len(),
            t == tokens_view(ts@),
            from <= i <= n,
            none_stop(t, from as int, i as int, s),
        decreases n - i,
    {
        if stops_at(ts, i, s) {
            return i;
        }
        i = i + 1;
    }
    i
}

fn stops_at(ts: &Vec<Token>, i: usize, s: Stop) -> (r: bool)
    requires
        i < ts.len(),
    ensures
        r == stops(s, kind(tokens_view(ts@)[i as int])),
{
    let k = kind_of(&ts[i]);
    match s {
        Stop::AtFor => k == Kind::For,
        Stop::AtIn => k == Kind::In,
        Stop::AtIfOrFor => k == Kind::If || k == Kind::For,
    }
}

/// The tokens in `[a, b)`.
pub fn slice(ts: &Vec<Token>, a: usize, b: usize) -> (r: Vec<Token>)
    requires
        a <= b <= ts.len(),
    ensures
        tokens_view(r@) == tokens_view(ts@).subrange(a as int, b as int),
{
    let mut r: Vec<Token> = Vec::new();
    let mut i = a;
    while i < b
        invariant
            a <= i <= b <= ts.len(),
            r@.len() == i - a,
            forall|x: int| 0 <= x < r@.len() ==> (#[trigger] r@[x])@ == ts@[a + x]@,
        decreases b - i,
    {
        r.push(ts[i].clone());
        i = i + 1;
    }
    assert(tokens_view(r@) =~= tokens_view(ts@).subrange(a as int, b as int));
    r
}

/// Where the expression that starts at `a` ends, or `None` where `syn`
/// accepts no tokens from `a` up to a place where it may end.
pub fn longest(ts: &Vec<Token>, a: usize, s: Stop) -> (r: Option<usize>)
    requires
        a <= ts.len(),
    ensures
        match r {
            Some(b) => longest_expression(tokens_view(ts@), a as int, b as int, s),
            None => forall|b: int|
                a < b <= ts.len() && may_end(tokens_view(ts@), b, s) ==> !parses_as_expression(
                    render(#[trigger] tokens_view(ts@).subrange(a as int, b)),
                ),
        },
{
    let ghost t = tokens_view(ts@);
    let n = ts.len();
    let mut k = n;
    while k > a
        invariant
            n == ts.len(),
            t == tokens_view(ts@),
            a <= k <= n,
            forall|b: int|
                k < b <= n && may_end(t, b, s) ==> !parses_as_expression(
                    render(#[trigger] t.subrange(a as int, b)),
                ),
        decreases k,
    {
        let ends = k == n || stops_at(ts, k, s);
        if ends {
            let piece = slice(ts, a, k);
            if expression_ok(&piece) {
                proof {
                    reveal(longest_expression);
                }
                return Some(k);
            }
        }
        k = k - 1;
    }
    None
}

/// What a clause standing at `i` agrees on with the pieces read so far:
/// its pattern and sequence, the first conditions, and what follows them from
/// `k` on.
pub open spec fn clause_read_so_far(
    t: Seq<TokenView>,
    k: int,
    c: ClauseView,
    rest: Seq<ClauseView>,
    pattern: Seq<TokenView>,
    sequence: Seq<TokenView>,
    conditions: Seq<Seq<TokenView>>,
) -> bool {
    let left = c.conditions.subrange(conditions.len() as int, c.conditions.len() as int);
    &&& c.pattern == pattern
    &&& c.sequence == sequence
    &&& conditions.len() <= c.conditions.len()
    &&& c.conditions.subrange(0, conditions.len() as int) == conditions
    &&& t.subrange(k, t.len() as int) == conditions_tokens(left) + clauses_tokens(rest)
    &&& conditions_longest(t, k, left)
}

/// Reads the clause that starts at `i`.  It returns the clause and where the
/// tokens after it start, or `None` where no clause, read as `syn` lets it be
/// and followed by clauses, stands there.
pub fn parse_clause(ts: &Vec<Token>, i: usize) -> (r: Option<(ForIfClause, usize)>)
    requires
        i <= ts.len(),
    ensures
        match r {
            Some((c, k)) => {
                &&& clause_wf(c@)
                &&& i < k <= ts.len()
                &&& tokens_view(ts@).subrange(i as int, k as int) == clause_tokens(c@)
                &&& clause_longest(tokens_view(ts@), i as int, c@)
                &&& (k < ts.len() ==> kind(tokens_view(ts@)[k as int]) == Kind::For)
                &&& forall|d: ClauseView, rest: Seq<ClauseView>|
                    #[trigger] clause_at(tokens_view(ts@), i as int, d, rest) ==> d == c@
            },
            None => forall|d: ClauseView, rest: Seq<ClauseView>|
                !#[trigger] clause_at(tokens_view(ts@), i as int, d, rest),
        },
{
    let ghost t = tokens_view(ts@);
    proof {
        lemma_keyword_kinds();
    }
    let n = ts.len();
    if i == n || !stops_at(ts, i, Stop::AtFor) {
        proof {
            assert forall|d: ClauseView, rest: Seq<ClauseView>|
                !#[trigger] clause_at(t, i as int, d, rest) by {
                if clause_at(t, i as int, d, rest) {
                    lemma_clause_layout(t, i as int, d, rest);
                }
            }
        }
        return None;
    }
    let j = find(ts, i + 1, Stop::AtIn);
    if j == n || j == i + 1 {
        proof {
            assert forall|d: ClauseView, rest: Seq<ClauseView>|
                !#[trigger] clause_at(t, i as int, d, rest) by {
                if clause_at(t, i as int, d, rest) {
                    lemma_clause_layout(t, i as int, d, rest);
                    lemma_first_stop_unique(
                        t,
                        i + 1,
                        j as int,
                        i + 1 + d.pattern.len(),
                        Stop::AtIn,
                    );
                }
            }
        }
        return None;
    }
    let pattern = slice(ts, i + 1, j);
    let ends = longest(ts, j + 1, Stop::AtIfOrFor);
    let k0 = match ends {
        Some(k0) => k0,
        None => {
            proof {
                assert forall|d: ClauseView, rest: Seq<ClauseView>|
                    !#[trigger] clause_at(t, i as int, d, rest) by {
                    if clause_at(t, i as int, d, rest) {
                        lemma_clause_layout(t, i as int, d, rest);
                        lemma_first_stop_unique(
                            t,
                            i + 1,
                            j as int,
                            i + 1 + d.pattern.len(),
                            Stop::AtIn,
                        );
                        let k = j + 1 + d.sequence.len();
                        lemma_longest_parses(t, j + 1, k, Stop::AtIfOrFor);
                    }
                }
            }
            return None;
        },
    };
    proof {
        lemma_longest_parses(t, j + 1, k0 as int, Stop::AtIfOrFor);
    }
    let sequence = slice(ts, j + 1, k0);
    proof {
        assert forall|d: ClauseView, rest: Seq<ClauseView>| #[trigger]
            clause_at(t, i as int, d, rest) implies clause_read_so_far(
            t,
            k0 as int,
            d,
            rest,
            tokens_view(pattern@),
            tokens_view(sequence@),
            Seq::empty(),
        ) by {
            lemma_clause_layout(t, i as int, d, rest);
            lemma_first_stop_unique(t, i + 1, j as int, i + 1 + d.pattern.len(), Stop::AtIn);
            lemma_longest_unique(
                t,
                j + 1,
                k0 as int,
                j + 1 + d.sequence.len(),
                Stop::AtIfOrFor,
            );
            assert(d.conditions.subrange(0, 0) =~= Seq::<Seq<TokenView>>::empty());
            assert(d.conditions.subrange(0, d.conditions.len() as int) =~= d.conditions);
        }
        assert(conditions_tokens(Seq::<Seq<TokenView>>::empty()) =~= Seq::<TokenView>::empty());
        assert(t.subrange(k0 as int, k0 as int) =~= Seq::<TokenView>::empty());
        assert(pieces_view(Seq::<Vec<Token>>::empty()) =~= Seq::<Seq<TokenView>>::empty());
    }
    let mut conditions: Vec<Vec<Token>> = Vec::new();
    let mut k = k0;
    while k < n && kind_of(&ts[k]) == Kind::If
        invariant
            n == ts.len(),
            t == tokens_view(ts@),
            i < j < k0 <= k <= n,
            kind(t[i as int]) == Kind::For,
            kind(t[j as int]) == Kind::In,
            tokens_view(pattern@) == t.subrange(i + 1, j as int),
            tokens_view(pattern@).len() > 0,
            free_of(tokens_view(pattern@), Kind::In),
            tokens_view(sequence@) == t.subrange(j + 1, k0 as int),
            longest_expression(t, j + 1, k0 as int, Stop::AtIfOrFor),
            t.subrange(k0 as int, k as int) == conditions_tokens(pieces_view(conditions@)),
            conditions_longest(t, k0 as int, pieces_view(conditions@)),
            may_end(t, k as int, Stop::AtIfOrFor),
            forall|d: ClauseView, rest: Seq<ClauseView>| #[trigger]
                clause_at(t, i as int, d, rest) ==> clause_read_so_far(
                    t,
                    k as int,
                    d,
                    rest,
                    tokens_view(pattern@),
                    tokens_view(sequence@),
                    pieces_view(conditions@),
                ),
        decreases n - k,
    {
        let ghost read = pieces_view(conditions@);
        proof {
            lemma_keyword_kinds();
            assert(kind(t[k as int]) == Kind::If);
        }
        let ends = longest(ts, k + 1, Stop::AtIfOrFor);
        let m = match ends {
            Some(m) => m,
            None => {
                proof {
                    assert forall|d: ClauseView, rest: Seq<ClauseView>|
                        !#[trigger] clause_at(t, i as int, d, rest) by {
                        if clause_at(t, i as int, d, rest) {
                            let left = d.conditions.subrange(
                                read.len() as int,
                                d.conditions.len() as int,
                            );
                            lemma_after_conditions(t, k as int, left, rest);
                            lemma_condition_layout(t, k as int, left, rest);
                            lemma_longest_parses(
                                t,
                                k + 1,
                                k + 1 + left[0].len(),
                                Stop::AtIfOrFor,
                            );
                        }
                    }
                }
                return None;
            },
        };
        proof {
            lemma_longest_parses(t, k + 1, m as int, Stop::AtIfOrFor);
        }
        let condition = slice(ts, k + 1, m);
        proof {
            assert forall|d: ClauseView, rest: Seq<ClauseView>| #[trigger]
                clause_at(t, i as int, d, rest) implies clause_read_so_far(
                t,
                m as int,
                d,
                rest,
                tokens_view(pattern@),
                tokens_view(sequence@),
                read.push(tokens_view(condition@)),
            ) by {
                let left = d.conditions.subrange(read.len() as int, d.conditions.len() as int);
                lemma_after_conditions(t, k as int, left, rest);
                lemma_condition_layout(t, k as int, left, rest);
                lemma_longest_unique(
                    t,
                    k + 1,
                    m as int,
                    k + 1 + left[0].len(),
                    Stop::AtIfOrFor,
                );
                assert(d.conditions.subrange(0, read.len() as int + 1) =~= read.push(
                    tokens_view(condition@),
                ));
                assert(left.drop_first() =~= d.conditions.subrange(
                    read.len() as int + 1,
                    d.conditions.len() as int,
                ));
            }
            lemma_conditions_push(read, tokens_view(condition@));
            lemma_conditions_longest_push(t, k0 as int, read, tokens_view(condition@));
            assert(t[k as int] == kw_if());
            assert(t.subrange(k0 as int, m as int) =~= t.subrange(k0 as int, k as int) + seq![
                kw_if(),
            ] + t.subrange(k + 1, m as int));
        }
        conditions.push(condition);
        proof {
            assert(pieces_view(conditions@) =~= read.push(tokens_view(condition@)));
        }
        k = m;
    }
    let clause = ForIfClause { pattern, sequence, conditions };
    proof {
        let cv = clause@;
        assert(t[i as int] == kw_for());
        assert(t[j as int] == kw_in());
        assert(t.subrange(i as int, k as int) =~= seq![kw_for()] + cv.pattern + seq![kw_in()]
            + cv.sequence + conditions_tokens(cv.conditions));
        assert forall|d: ClauseView, rest: Seq<ClauseView>| #[trigger]
            clause_at(t, i as int, d, rest) implies d == cv by {
            let read = pieces_view(conditions@);
            let left = d.conditions.subrange(read.len() as int, d.conditions.len() as int);
            lemma_after_conditions(t, k as int, left, rest);
            assert(d.conditions =~= read);
        }
    }
    Some((clause, k))
}

/// What a comprehension written as `t` agrees on with the pieces read so far:
/// its mapping, its first clauses, and the clauses written from `i` on.
pub open spec fn comprehension_read_so_far(
    t: Seq<TokenView>,
    i: int,
    c: ComprehensionView,
    mapping: Seq<TokenView>,
    clauses: Seq<ClauseView>,
) -> bool {
    let left = c.clauses.subrange(clauses.len() as int, c.clauses.len() as int);
    &&& c.mapping == mapping
    &&& clauses.len() <= c.clauses.len()
    &&& c.clauses.subrange(0, clauses.len() as int) == clauses
    &&& t.subrange(i, t.len() as int) == clauses_tokens(left)
    &&& clauses_longest(t, i, left)
}

/// Splits tokens into a comprehension.  It returns the one comprehension that
/// is written as the tokens, each expression as long as `syn` lets it be, or
/// `None` where there is none.
pub fn parse(ts: &Vec<Token>) -> (r: Option<Comprehension>)
    ensures
        match r {
            Some(c) => decomposes(c@, tokens_view(ts@)) && forall|d: ComprehensionView|
                #[trigger] decomposes(d, tokens_view(ts@)) ==> d == c@,
            None => forall|d: ComprehensionView| !#[trigger] decomposes(d, tokens_view(ts@)),
        },
{
    let ghost t = tokens_view(ts@);
    let n = ts.len();
    let ends = longest(ts, 0, Stop::AtFor);
    let i0 = match ends {
        Some(i0) => i0,
        None => {
            proof {
                assert forall|d: ComprehensionView| !#[trigger] decomposes(d, t) by {
                    if decomposes(d, t) {
                        lemma_longest_parses(t, 0, d.mapping.len() as int, Stop::AtFor);
                    }
                }
            }
            return None;
        },
    };
    proof {
        lemma_longest_parses(t, 0, i0 as int, Stop::AtFor);
    }
    if i0 == n {
        proof {
            assert forall|d: ComprehensionView| !#[trigger] decomposes(d, t) by {
                if decomposes(d, t) {
                    lemma_mapping_layout(t, d);
                    lemma_longest_unique(t, 0, i0 as int, d.mapping.len() as int, Stop::AtFor);
                }
            }
        }
        return None;
    }
    let mapping = slice(ts, 0, i0);
    proof {
        assert forall|d: ComprehensionView| #[trigger]
            decomposes(d, t) implies comprehension_read_so_far(
            t,
            i0 as int,
            d,
            tokens_view(mapping@),
            Seq::empty(),
        ) by {
            lemma_mapping_layout(t, d);
            lemma_longest_unique(t, 0, i0 as int, d.mapping.len() as int, Stop::AtFor);
            assert(d.clauses.subrange(0, 0) =~= Seq::<ClauseView>::empty());
            assert(d.clauses.subrange(0, d.clauses.len() as int) =~= d.clauses);
        }
        assert(clauses_view(Seq::<ForIfClause>::empty()) =~= Seq::<ClauseView>::empty());
        assert(clauses_tokens(Seq::<ClauseView>::empty()) =~= Seq::<TokenView>::empty());
        assert(t.subrange(0, i0 as int) =~= tokens_view(mapping@) + Seq::<TokenView>::empty());
    }
    let mut clauses: Vec<ForIfClause> = Vec::new();
    let mut i = i0;
    while i < n
        invariant
            n == ts.len(),
            t == tokens_view(ts@),
            0 < i0 <= i <= n,
            i0 < n,
            i == i0 || clauses@.len() > 0,
            tokens_view(mapping@) == t.subrange(0, i0 as int),
            longest_expression(t, 0, i0 as int, Stop::AtFor),
            clauses_wf(clauses_view(clauses@)),
            clauses_longest(t, i0 as int, clauses_view(clauses@)),
            t.subrange(0, i as int) == tokens_view(mapping@) + clauses_tokens(
                clauses_view(clauses@),
            ),
            forall|d: ComprehensionView| #[trigger]
                decomposes(d, t) ==> comprehension_read_so_far(
                    t,
                    i as int,
                    d,
                    tokens_view(mapping@),
                    clauses_view(clauses@),
                ),
        decreases n - i,
    {
        let ghost read = clauses_view(clauses@);
        let parsed = parse_clause(ts, i);
        match parsed {
            None => {
                proof {
                    assert forall|d: ComprehensionView| !#[trigger] decomposes(d, t) by {
                        if decomposes(d, t) {
                            let left = d.clauses.subrange(
                                read.len() as int,
                                d.clauses.len() as int,
                            );
                            lemma_clauses_start(left);
                            assert(clause_wf(d.clauses[read.len() as int]));
                            assert(left[0] == d.clauses[read.len() as int]);
                            assert(clause_at(t, i as int, left[0], left.drop_first()));
                        }
                    }
                }
                return None;
            },
            Some((clause, k)) => {
                proof {
                    assert forall|d: ComprehensionView| #[trigger]
                        decomposes(d, t) implies comprehension_read_so_far(
                        t,
                        k as int,
                        d,
                        tokens_view(mapping@),
                        read.push(clause@),
                    ) by {
                        let left = d.clauses.subrange(read.len() as int, d.clauses.len() as int);
                        lemma_clauses_start(left);
                        assert(clause_wf(d.clauses[read.len() as int]));
                        assert(left[0] == d.clauses[read.len() as int]);
                        assert(clause_at(t, i as int, left[0], left.drop_first()));
                        assert(left[0] == clause@);
                        assert(d.clauses.subrange(0, read.len() as int + 1) =~= read.push(
                            clause@,
                        ));
                        assert(left.drop_first() =~= d.clauses.subrange(
                            read.len() as int + 1,
                            d.clauses.len() as int,
                        ));
                        let a = clause_tokens(left[0]);
                        let b = clauses_tokens(left.drop_first());
                        assert(t.subrange(i as int, n as int) == a + b);
                        assert(a == t.subrange(i as int, k as int));
                        assert forall|x: int| 0 <= x < n - k implies t.subrange(
                            k as int,
                            n as int,
                        )[x] == b[x] by {
                            assert(t[k + x] == t.subrange(i as int, n as int)[(k - i) + x]);
                        }
                        assert(t.subrange(k as int, n as int) =~= b);
                    }
                    lemma_clauses_push(read, clause@);
                    lemma_clauses_longest_push(t, i0 as int, read, clause@);
                    assert(t.subrange(0, k as int) =~= t.subrange(0, i as int) + t.subrange(
                        i as int,
                        k as int,
                    ));
                }
                clauses.push(clause);
                proof {
                    assert(clauses_view(clauses@) =~= read.push(clause@));
                }
                i = k;
            },
        }
    }
    let c = Comprehension { mapping, clauses };
    proof {
        assert(t.subrange(0, n as int) =~= t);
        assert forall|d: ComprehensionView| #[trigger] decomposes(d, t) implies d == c@ by {
            let read = clauses_view(clauses@);
            let left = d.clauses.subrange(read.len() as int, d.clauses.len() as int);
            lemma_clauses_start(left);
            assert(d.clauses =~= read);
        }
    }
    Some(c)
}

/// Where the mapping of a comprehension written as `t` ends: before the
/// first clause's `for`.
pub proof fn lemma_mapping_layout(t: Seq<TokenView>, d: ComprehensionView)
    requires
        decomposes(d, t),
    ensures
        d.mapping.len() < t.len(),
        t.subrange(0, d.mapping.len() as int) == d.mapping,
        t.subrange(d.mapping.len() as int, t.len() as int) == clauses_tokens(d.clauses),
        clause_at(t, d.mapping.len() as int, d.clauses[0], d.clauses.drop_first()),
{
    lemma_keyword_kinds();
    lemma_clauses_start(d.clauses);
    let m = d.mapping.len() as int;
    assert(t.subrange(0, m) =~= d.mapping);
    assert(t.subrange(m, t.len() as int) =~= clauses_tokens(d.clauses));
    assert(clause_wf(d.clauses[0]));
}

/// Conditions are read from the tokens in one way only.
pub proof fn lemma_conditions_unique(
    t: Seq<TokenView>,
    k: int,
    cs1: Seq<Seq<TokenView>>,
    rest1: Seq<ClauseView>,
    cs2: Seq<Seq<TokenView>>,
    rest2: Seq<ClauseView>,
)
    requires
        0 <= k <= t.len(),
        conditions_longest(t, k, cs1),
        conditions_longest(t, k, cs2),
        t.subrange(k, t.len() as int) == conditions_tokens(cs1) + clauses_tokens(rest1),
        t.subrange(k, t.len() as int) == conditions_tokens(cs2) + clauses_tokens(rest2),
    ensures
        cs1 == cs2,
        clauses_tokens(rest1) == clauses_tokens(rest2),
    decreases cs1.len(),
{
    lemma_after_conditions(t, k, cs1, rest1);
    lemma_after_conditions(t, k, cs2, rest2);
    if cs1.len() == 0 {
        assert(cs2.len() == 0);
        assert(cs1 =~= cs2);
    } else {
        lemma_condition_layout(t, k, cs1, rest1);
        lemma_condition_layout(t, k, cs2, rest2);
        lemma_longest_unique(
            t,
            k + 1,
            k + 1 + cs1[0].len(),
            k + 1 + cs2[0].len(),
            Stop::AtIfOrFor,
        );
        let m = k + 1 + cs1[0].len();
        lemma_conditions_unique(t, m, cs1.drop_first(), rest1, cs2.drop_first(), rest2);
        assert(cs1 =~= seq![cs1[0]] + cs1.drop_first());
        assert(cs2 =~= seq![cs2[0]] + cs2.drop_first());
    }
}

/// A clause is read from the tokens in one way only.
pub proof fn lemma_clause_unique(
    t: Seq<TokenView>,
    i: int,
    c1: ClauseView,
    rest1: Seq<ClauseView>,
    c2: ClauseView,
    rest2: Seq<ClauseView>,
)
    requires
        clause_at(t, i, c1, rest1),
        clause_at(t, i, c2, rest2),
    ensures
        c1 == c2,
        clauses_tokens(rest1) == clauses_tokens(rest2),
{
    lemma_clause_layout(t, i, c1, rest1);
    lemma_clause_layout(t, i, c2, rest2);
    lemma_first_stop_unique(
        t,
        i + 1,
        i + 1 + c1.pattern.len(),
        i + 1 + c2.pattern.len(),
        Stop::AtIn,
    );
    let j = i + 1 + c1.pattern.len();
    lemma_longest_unique(
        t,
        j + 1,
        j + 1 + c1.sequence.len(),
        j + 1 + c2.sequence.len(),
        Stop::AtIfOrFor,
    );
    let k = j + 1 + c1.sequence.len();
    lemma_conditions_unique(t, k, c1.conditions, rest1, c2.conditions, rest2);
}

/// Clauses are read from the tokens in one way only.
pub proof fn lemma_clauses_unique(t: Seq<TokenView>, i: int, cs1: Seq<ClauseView>, cs2: Seq<ClauseView>)
    requires
        0 <= i <= t.len(),
        clauses_wf(cs1),
        clauses_wf(cs2),
        clauses_longest(t, i, cs1),
        clauses_longest(t, i, cs2),
        t.subrange(i, t.len() as int) == clauses_tokens(cs1),
        t.subrange(i, t.len() as int) == clauses_tokens(cs2),
    ensures
        cs1 == cs2,
    decreases cs1.len(),
{
    lemma_clauses_start(cs1);
    lemma_clauses_start(cs2);
    if cs1.len() == 0 {
        assert(cs1 =~= cs2);
    } else {
        assert forall|q: int| 0 <= q < cs1.drop_first().len() implies clause_wf(
            #[trigger] cs1.drop_first()[q],
        ) by {
            assert(cs1.drop_first()[q] == cs1[q + 1]);
        }
        assert forall|q: int| 0 <= q < cs2.drop_first().len() implies clause_wf(
            #[trigger] cs2.drop_first()[q],
        ) by {
            assert(cs2.drop_first()[q] == cs2[q + 1]);
        }
        assert(clause_wf(cs1[0]));
        assert(clause_wf(cs2[0]));
        lemma_clause_unique(t, i, cs1[0], cs1.drop_first(), cs2[0], cs2.drop_first());
        let a = clause_tokens(cs1[0]);
        let k = i + a.len();
        assert forall|x: int| 0 <= x < t.len() - k implies t.subrange(k, t.len() as int)[x]
            == clauses_tokens(cs1.drop_first())[x] by {
            assert(t[k + x] == t.subrange(i, t.len() as int)[a.len() + x]);
        }
        assert(t.subrange(k, t.len() as int) =~= clauses_tokens(cs1.drop_first()));
        lemma_clauses_unique(t, k, cs1.drop_first(), cs2.drop_first());
        assert(cs1 =~= seq![cs1[0]] + cs1.drop_first());
        assert(cs2 =~= seq![cs2[0]] + cs2.drop_first());
    }
}

/// The grammar is unambiguous: the tokens of a comprehension are written
/// from one comprehension only, each of its expressions as long as `syn` lets
/// it be.  Reading the tokens of such a comprehension therefore gives that
/// comprehension back.
pub proof fn lemma_decomposition_unique(t: Seq<TokenView>, c: ComprehensionView, d: ComprehensionView)
    requires
        decomposes(c, t),
        decomposes(d, t),
    ensures
        c == d,
{
    lemma_mapping_layout(t, c);
    lemma_mapping_layout(t, d);
    lemma_longest_unique(t, 0, c.mapping.len() as int, d.mapping.len() as int, Stop::AtFor);
    let m = c.mapping.len() as int;
    lemma_clauses_unique(t, m, c.clauses, d.clauses);
}

} // verus!
