//! What `syn` accepts as a Rust expression or pattern.
//!
//! Every call here first forces `proc_macro2` onto its own lexer, so that the
//! answer depends on the text alone, inside a procedural macro or out of one.

use crate::comp::token::{render, render_tokens, tokens_view, Token};
use vstd::prelude::*;

verus! {

/// Whether `syn`, over `proc_macro2`'s own lexer, parses the Rust source text
/// `text`, as a whole, as an expression.
pub uninterp spec fn parses_as_expression(text: Seq<char>) -> bool;

/// Whether `syn`, over `proc_macro2`'s own lexer, parses the Rust source text
/// `text`, as a whole, as one pattern, with no top-level `|`.
pub uninterp spec fn parses_as_pattern(text: Seq<char>) -> bool;

/// Asks `syn::parse_str::<syn::Expr>` whether the text is one expression,
/// after `proc_macro2::fallback::force()` has put `proc_macro2` on its own
/// lexer for the whole process.  The contract claims only that the answer is
/// the one `parses_as_expression` names; which texts `syn` accepts is its own.
#[verifier::external_body]
fn is_expression(text: &str) -> (r: bool)
    ensures
        r == parses_as_expression(text@),
{
    proc_macro2::fallback::force();
    syn::parse_str::<syn::Expr>(text).is_ok()
}

/// Asks `syn::Pat::parse_single`, through `syn::parse::Parser::parse_str`,
/// whether the text is one pattern, after `proc_macro2::fallback::force()`.
/// The contract claims only that the answer is the one `parses_as_pattern`
/// names.
#[verifier::external_body]
fn is_pattern(text: &str) -> (r: bool)
    ensures
        r == parses_as_pattern(text@),
{
    proc_macro2::fallback::force();
    syn::parse::Parser::parse_str(syn::Pat::parse_single, text).is_ok()
}

/// Whether the tokens, written back as text, are one expression.
pub fn expression_ok(piece: &Vec<Token>) -> (r: bool)
    ensures
        r == parses_as_expression(render(tokens_view(piece@))),
{
    let text = render_tokens(piece);
    is_expression(text.as_str())
}

/// Whether the tokens, written back as text, are one pattern.
pub fn pattern_ok(piece: &Vec<Token>) -> (r: bool)
    ensures
        r == parses_as_pattern(render(tokens_view(piece@))),
{
    let text = render_tokens(piece);
    is_pattern(text.as_str())
}

} // verus!
