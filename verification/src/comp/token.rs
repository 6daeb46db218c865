//! Rust tokens as the grammar of comprehensions sees them.

use vstd::prelude::*;
use vstd::string::*;

verus! {

/// One top-level Rust token.  A delimited group is kept whole, as the text
/// that it displays (delimiters included), since the grammar never looks
/// inside one.
pub enum Token {
    Ident(String),
    /// A punctuation character, and whether it is joined to the next one
    /// (the first `=` of `==`).
    Punct(char, bool),
    Literal(String),
    Group(String),
}

/// What a token is, as a mathematical value.
pub enum TokenView {
    Ident(Seq<char>),
    Punct(char, bool),
    Literal(Seq<char>),
    Group(Seq<char>),
}

impl View for Token {
    type V = TokenView;

    open spec fn view(&self) -> TokenView {
        match self {
            Token::Ident(s) => TokenView::Ident(s@),
            Token::Punct(c, joint) => TokenView::Punct(*c, *joint),
            Token::Literal(s) => TokenView::Literal(s@),
            Token::Group(s) => TokenView::Group(s@),
        }
    }
}

impl Clone for Token {
    fn clone(&self) -> (r: Self)
        ensures
            r@ == self@,
    {
        match self {
            Token::Ident(s) => Token::Ident(s.clone()),
            Token::Punct(c, joint) => Token::Punct(*c, *joint),
            Token::Literal(s) => Token::Literal(s.clone()),
            Token::Group(s) => Token::Group(s.clone()),
        }
    }
}

/// The views of a sequence of tokens.
pub open spec fn tokens_view(ts: Seq<Token>) -> Seq<TokenView> {
    ts.map_values(|t: Token| t@)
}

/// The role a token plays in the grammar of comprehensions.
#[derive(PartialEq, Eq, Structural, Clone, Copy, Debug)]
pub enum Kind {
    For,
    In,
    If,
    Other,
}

pub open spec fn kw_for() -> TokenView {
    TokenView::Ident("for"@)
}

pub open spec fn kw_in() -> TokenView {
    TokenView::Ident("in"@)
}

pub open spec fn kw_if() -> TokenView {
    TokenView::Ident("if"@)
}

/// The keywords `for`, `in` and `if` are the three tokens the grammar splits at.
pub open spec fn kind(t: TokenView) -> Kind {
    if t == kw_for() {
        Kind::For
    } else if t == kw_in() {
        Kind::In
    } else if t == kw_if() {
        Kind::If
    } else {
        Kind::Other
    }
}

pub proof fn lemma_keyword_kinds()
    ensures
        kind(kw_for()) == Kind::For,
        kind(kw_in()) == Kind::In,
        kind(kw_if()) == Kind::If,
{
    reveal_strlit("for");
    reveal_strlit("in");
    reveal_strlit("if");
    assert("in"@.len() == 2 && "if"@.len() == 2 && "for"@.len() == 3);
    assert("in"@[1] == 'n' && "if"@[1] == 'f');
    assert("in"@ != "for"@);
    assert("if"@ != "for"@);
    assert("if"@ != "in"@);
}

fn word_is(w: &String, keyword: &str) -> (r: bool)
    ensures
        r == (w@ == keyword@),
{
    let k = String::from_str(keyword);
    *w == k
}

/// The role of one token.
pub fn kind_of(t: &Token) -> (k: Kind)
    ensures
        k == kind(t@),
{
    proof {
        lemma_keyword_kinds();
    }
    match t {
        Token::Ident(w) => {
            if word_is(w, "for") {
                Kind::For
            } else if word_is(w, "in") {
                Kind::In
            } else if word_is(w, "if") {
                Kind::If
            } else {
                Kind::Other
            }
        },
        _ => Kind::Other,
    }
}

/// What `proc_macro2`'s own lexer lexes the Rust source text `text` into, as
/// the views of its top-level tokens; `None` where it refuses the text.
pub uninterp spec fn lexed(text: Seq<char>) -> Option<Seq<TokenView>>;

/// Lexes Rust source text into its top-level tokens by
/// `<proc_macro2::TokenStream as FromStr>::from_str`, each token tree
/// converted to a `Token`.  It first calls `proc_macro2::fallback::force()`,
/// which puts `proc_macro2` on its own lexer for the whole process, so that
/// the tokens, and the text that a group displays, depend on the text alone.
/// The contract claims only that the result is the one that `lexed` names;
/// what the lexer accepts and how it displays a group is `proc_macro2`'s.
#[verifier::external_body]
pub fn lex(text: &str) -> (r: Option<Vec<Token>>)
    ensures
        match r {
            Some(v) => lexed(text@) == Some(tokens_view(v@)),
            None => lexed(text@) is None,
        },
{
    proc_macro2::fallback::force();
    let stream: proc_macro2::TokenStream = text.parse().ok()?;
    Some(stream.into_iter().map(|tree| match tree {
        proc_macro2::TokenTree::Group(g) => Token::Group(g.to_string()),
        proc_macro2::TokenTree::Ident(i) => Token::Ident(i.to_string()),
        proc_macro2::TokenTree::Punct(p) => Token::Punct(
            p.as_char(),
            matches!(p.spacing(), proc_macro2::Spacing::Joint),
        ),
        proc_macro2::TokenTree::Literal(l) => Token::Literal(l.to_string()),
    }).collect())
}

/// Appends one character to a string with `String::push`, which, as std
/// documents it, appends the given `char` to the end of the `String`.
#[verifier::external_body]
pub fn push_char(s: &mut String, c: char)
    ensures
        final(s)@ == old(s)@.push(c),
{
    s.push(c);
}

/// The text of one token.
pub open spec fn text_of(t: TokenView) -> Seq<char> {
    match t {
        TokenView::Ident(w) => w,
        TokenView::Punct(c, _) => seq![c],
        TokenView::Literal(w) => w,
        TokenView::Group(w) => w,
    }
}

/// What separates a token from the next one in rendered text: nothing after a
/// punctuation character joined to the next, a space otherwise.
pub open spec fn separator(t: TokenView) -> Seq<char> {
    match t {
        TokenView::Punct(_, true) => Seq::empty(),
        _ => " "@,
    }
}

/// Tokens written back as Rust source text.
pub open spec fn render(ts: Seq<TokenView>) -> Seq<char>
    decreases ts.len(),
{
    if ts.len() == 0 {
        Seq::empty()
    } else if ts.len() == 1 {
        text_of(ts[0])
    } else {
        render(ts.drop_last()) + separator(ts[ts.len() - 2]) + text_of(ts.last())
    }
}

/// Tokens are written in order, each as its own text: one token is its
/// text, and a further token is written after the ones before, with a space
/// between them unless the previous one is punctuation joined to it.
pub proof fn lemma_render_appends(ts: Seq<TokenView>, t: TokenView)
    ensures
        render(seq![t]) == text_of(t),
        ts.len() > 0 ==> render(ts.push(t)) == render(ts) + (match ts.last() {
            TokenView::Punct(_, true) => Seq::<char>::empty(),
            _ => " "@,
        }) + text_of(t),
{
    assert(seq![t][0] == t);
    if ts.len() > 0 {
        assert(ts.push(t).drop_last() =~= ts);
        assert(ts.push(t)[ts.len() - 1] == ts.last());
    }
}

/// Appends the text of one token.
fn append_token(out: &mut String, t: &Token)
    ensures
        final(out)@ == old(out)@ + text_of(t@),
{
    match t {
        Token::Ident(w) => out.append(w.as_str()),
        Token::Punct(c, _) => {
            push_char(out, *c);
            assert(old(out)@.push(*c) =~= old(out)@ + seq![*c]);
        },
        Token::Literal(w) => out.append(w.as_str()),
        Token::Group(w) => out.append(w.as_str()),
    }
}

/// Writes tokens back as Rust source text.
pub fn render_tokens(ts: &Vec<Token>) -> (r: String)
    ensures
        r@ == render(tokens_view(ts@)),
{
    let mut out = String::new();
    let n = ts.len();
    let ghost tv = tokens_view(ts@);
    let mut i: usize = 0;
    while i < n
        invariant
            n == ts.len(),
            tv == tokens_view(ts@),
            i <= n,
            out@ == render(tv.subrange(0, i as int)),
        decreases n - i,
    {
        let ghost before = tv.subrange(0, i as int);
        let ghost after = tv.subrange(0, i + 1);
        assert(after.drop_last() =~= before);
        if i > 0 {
            match &ts[i - 1] {
                Token::Punct(_, true) => {},
                _ => out.append(" "),
            }
        }
        append_token(&mut out, &ts[i]);
        i = i + 1;
    }
    assert(tv.subrange(0, n as int) =~= tv);
    out
}

} // verus!
