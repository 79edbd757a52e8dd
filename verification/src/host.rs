//! The leaves that the grammar leaves to syn: scalar literals, the members
//! of record fields, and host expressions.

use crate::buffer::tokens_supported;
use crate::token::{stream_tokens, TokenTree};
use proc_macro2::TokenStream;
use quote::ToTokens;
use syn::parse::{ParseStream, Parser};
use vstd::prelude::*;

verus! {

#[verifier::external_type_specification]
#[verifier::external_body]
pub struct ExSynError(syn::Error);

/// What syn's parser for `Lit` makes of the front of `tokens`: nothing, or
/// the tokens of the literal it read and the number of tokens it left.
pub uninterp spec fn scalar_literal(tokens: Seq<TokenTree>) -> Option<(Seq<TokenTree>, nat)>;

/// What syn's parser for `Member` makes of the front of `tokens`: nothing, or
/// whether the member is named, its tokens, and the number of tokens left.
pub uninterp spec fn record_member(tokens: Seq<TokenTree>) -> Option<(bool, Seq<TokenTree>, nat)>;

/// What syn's parser for `Expr` makes of the front of `tokens`: nothing, or
/// the tokens of the expression it read and the number of tokens it left.
pub uninterp spec fn host_expr(tokens: Seq<TokenTree>) -> Option<(Seq<TokenTree>, nat)>;

/// `<syn::Lit as Parse>::parse`, run by `Parser::parse2` on the stream from
/// its start; what follows the literal is read as a `TokenStream` and
/// counted. The literal comes back as the tokens that `ToTokens` gives for
/// it. The parser looks at token kinds, texts and spacing only, so the
/// outcome is named as a function of the tokens. It panics on a literal
/// token of a form it does not know: `requires` keeps those out.
#[verifier::external_body]
pub(crate) fn parse_scalar_literal(rest: TokenStream) -> (r: Result<
    (TokenStream, usize),
    syn::Error,
>)
    requires
        tokens_supported(stream_tokens(rest)),
    ensures
        match r {
            Ok((lit, left)) => scalar_literal(stream_tokens(rest)) == Some(
                (stream_tokens(lit), left as nat),
            ),
            Err(_) => scalar_literal(stream_tokens(rest)) is None,
        },
{
    let parser = |input: ParseStream| {
        let lit: syn::Lit = input.parse()?;
        let left: TokenStream = input.parse()?;
        Ok((lit.into_token_stream(), left.into_iter().count()))
    };
    parser.parse2(rest)
}

/// `<syn::Member as Parse>::parse`, run and reported as in
/// `parse_scalar_literal`; the flag tells `Member::Named` from
/// `Member::Unnamed`.
#[verifier::external_body]
pub(crate) fn parse_record_member(rest: TokenStream) -> (r: Result<
    (bool, TokenStream, usize),
    syn::Error,
>)
    requires
        tokens_supported(stream_tokens(rest)),
    ensures
        match r {
            Ok((named, member, left)) => record_member(stream_tokens(rest)) == Some(
                (named, stream_tokens(member), left as nat),
            ),
            Err(_) => record_member(stream_tokens(rest)) is None,
        },
{
    let parser = |input: ParseStream| {
        let member: syn::Member = input.parse()?;
        let left: TokenStream = input.parse()?;
        let named = match member {
            syn::Member::Named(_) => true,
            syn::Member::Unnamed(_) => false,
        };
        Ok((named, member.into_token_stream(), left.into_iter().count()))
    };
    parser.parse2(rest)
}

/// `<syn::Expr as Parse>::parse`, run and reported as in
/// `parse_scalar_literal`.
#[verifier::external_body]
pub(crate) fn parse_host_expr(rest: TokenStream) -> (r: Result<(TokenStream, usize), syn::Error>)
    requires
        tokens_supported(stream_tokens(rest)),
    ensures
        match r {
            Ok((expr, left)) => host_expr(stream_tokens(rest)) == Some(
                (stream_tokens(expr), left as nat),
            ),
            Err(_) => host_expr(stream_tokens(rest)) is None,
        },
{
    let parser = |input: ParseStream| {
        let expr: syn::Expr = input.parse()?;
        let left: TokenStream = input.parse()?;
        Ok((expr.into_token_stream(), left.into_iter().count()))
    };
    parser.parse2(rest)
}

/// What a leaf parser reported, as plain values: the leaf's tokens and the
/// number of tokens left.
pub open spec fn leaf_view(found: Option<(TokenStream, usize)>) -> Option<(Seq<TokenTree>, nat)> {
    match found {
        Some((leaf, left)) => Some((stream_tokens(leaf), left as nat)),
        None => None,
    }
}

/// What the member parser reported, as plain values.
pub open spec fn member_view(found: Option<(bool, TokenStream, usize)>) -> Option<
    (bool, Seq<TokenTree>, nat),
> {
    match found {
        Some((named, member, left)) => Some((named, stream_tokens(member), left as nat)),
        None => None,
    }
}

/// What a parser of syn read, or nothing where it failed.
pub(crate) fn outcome<T>(r: Result<T, syn::Error>) -> (found: Option<T>)
    ensures
        found == match r {
            Ok(read) => Some(read),
            Err(_) => None,
        },
{
    match r {
        Ok(read) => Some(read),
        Err(_) => None,
    }
}

} // verus!
