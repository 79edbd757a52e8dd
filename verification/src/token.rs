//! Tokens as plain values, and the token stream they are read from.

use proc_macro2::TokenStream;
use quote::TokenStreamExt;
use vstd::prelude::*;

verus! {

/// The brackets that can enclose a group of tokens.
#[derive(Clone, Copy, Debug, PartialEq, Eq, Structural)]
pub enum Delimiter {
    /// `( ... )`
    Parenthesis,
    /// `{ ... }`
    Brace,
    /// `[ ... ]`
    Bracket,
    /// A group without brackets of its own.
    Invisible,
}

/// One token as a plain value, with all that is nested in it.
pub enum TokenTree {
    /// An identifier or reserved word, by its text.
    Ident(Seq<char>),
    /// One punctuation character; the flag says that the next token is a
    /// punctuation character too and follows it directly.
    Punct(char, bool),
    /// A literal, by its text.
    Literal(Seq<char>),
    /// A bracketed group and the tokens inside it.
    Group(Delimiter, Seq<TokenTree>),
}

#[verifier::external_type_specification]
#[verifier::external_body]
pub struct ExTokenStream(proc_macro2::TokenStream);

/// The tokens that a stream holds, in order, as plain values.
pub uninterp spec fn stream_tokens(stream: TokenStream) -> Seq<TokenTree>;

/// One item of a token stream. A group keeps its contents as a stream.
pub enum Token {
    Ident(String),
    Punct(char, bool),
    Literal(String),
    Group(Delimiter, TokenStream),
}

impl View for Token {
    type V = TokenTree;

    open spec fn view(&self) -> TokenTree {
        match self {
            Token::Ident(name) => TokenTree::Ident(name@),
            Token::Punct(ch, joint) => TokenTree::Punct(*ch, *joint),
            Token::Literal(text) => TokenTree::Literal(text@),
            Token::Group(delimiter, inner) => TokenTree::Group(*delimiter, stream_tokens(*inner)),
        }
    }
}

/// The plain values of a run of items.
pub open spec fn items_view(items: Seq<Token>) -> Seq<TokenTree> {
    items.map_values(|t: Token| t@)
}

/// `TokenStream::into_iter` of proc_macro2, each tree turned into a `Token`:
/// an identifier and a literal by `to_string`, a punctuation character by
/// `as_char` and `spacing`, a group by `delimiter` and `stream`. What comes
/// out is, by definition, what the stream holds.
#[verifier::external_body]
pub(crate) fn stream_items(stream: &TokenStream) -> (items: Vec<Token>)
    ensures
        items_view(items@) == stream_tokens(*stream),
{
    stream.clone().into_iter().map(|tree| match tree {
        proc_macro2::TokenTree::Ident(i) => Token::Ident(i.to_string()),
        proc_macro2::TokenTree::Literal(l) => Token::Literal(l.to_string()),
        proc_macro2::TokenTree::Punct(p) => Token::Punct(p.as_char(), match p.spacing() {
            proc_macro2::Spacing::Joint => true,
            proc_macro2::Spacing::Alone => false,
        }),
        proc_macro2::TokenTree::Group(g) => Token::Group(match g.delimiter() {
            proc_macro2::Delimiter::Parenthesis => Delimiter::Parenthesis,
            proc_macro2::Delimiter::Brace => Delimiter::Brace,
            proc_macro2::Delimiter::Bracket => Delimiter::Bracket,
            proc_macro2::Delimiter::None => Delimiter::Invisible,
        }, g.stream()),
    }).collect()
}

/// `TokenStream::new` of proc_macro2: a stream that holds nothing.
#[verifier::external_body]
pub(crate) fn stream_new() -> (stream: TokenStream)
    ensures
        stream_tokens(stream) == Seq::<TokenTree>::empty(),
{
    TokenStream::new()
}

/// The trees of a stream but the first `n`, collected into a stream again
/// (`TokenStream::into_iter` and the `FromIterator` impl of proc_macro2). The
/// trees come back as they are: collecting splits only a literal with a
/// leading minus sign, and no stream of proc_macro2's own hands one out.
#[verifier::external_body]
pub(crate) fn stream_skip(stream: &TokenStream, n: usize) -> (rest: TokenStream)
    requires
        n <= stream_tokens(*stream).len(),
    ensures
        stream_tokens(rest) == stream_tokens(*stream).skip(n as int),
{
    stream.clone().into_iter().skip(n).collect()
}

/// The first `n` trees of a stream, collected into a stream again, as in
/// `stream_skip`.
#[verifier::external_body]
pub(crate) fn stream_take(stream: &TokenStream, n: usize) -> (head: TokenStream)
    requires
        n <= stream_tokens(*stream).len(),
    ensures
        stream_tokens(head) == stream_tokens(*stream).take(n as int),
{
    stream.clone().into_iter().take(n).collect()
}

/// The `Extend<TokenStream>` impl of proc_macro2's `TokenStream`: the trees
/// of `more` are put behind those of `stream`, in order.
#[verifier::external_body]
pub(crate) fn stream_extend(stream: &mut TokenStream, more: &TokenStream)
    ensures
        stream_tokens(*final(stream)) == stream_tokens(*old(stream)) + stream_tokens(*more),
{
    stream.extend(Some(more.clone()));
}

/// The characters that can be punctuation tokens.
pub open spec fn punct_char(ch: char) -> bool {
    ch == '!' || ch == '#' || ch == '$' || ch == '%' || ch == '&' || ch == '\'' || ch == '*'
        || ch == '+' || ch == ',' || ch == '-' || ch == '.' || ch == '/' || ch == ':' || ch == ';'
        || ch == '<' || ch == '=' || ch == '>' || ch == '?' || ch == '@' || ch == '^' || ch == '|'
        || ch == '~'
}

/// `Punct::new` of proc_macro2, and `TokenStreamExt::append` of quote: a new
/// punctuation token is put behind the trees of `stream`. `Punct::new` panics
/// on a character outside `punct_char`.
#[verifier::external_body]
pub(crate) fn stream_push_punct(stream: &mut TokenStream, ch: char, joint: bool)
    requires
        punct_char(ch),
    ensures
        stream_tokens(*final(stream)) == stream_tokens(*old(stream)).push(
            TokenTree::Punct(ch, joint),
        ),
{
    let spacing = if joint { proc_macro2::Spacing::Joint } else { proc_macro2::Spacing::Alone };
    stream.append(proc_macro2::Punct::new(ch, spacing));
}

/// `Group::new` of proc_macro2, and `TokenStreamExt::append` of quote: a new
/// group around the trees of `inner` is put behind the trees of `stream`.
#[verifier::external_body]
pub(crate) fn stream_push_group(stream: &mut TokenStream, delimiter: Delimiter, inner: TokenStream)
    ensures
        stream_tokens(*final(stream)) == stream_tokens(*old(stream)).push(
            TokenTree::Group(delimiter, stream_tokens(inner)),
        ),
{
    let outside = match delimiter {
        Delimiter::Parenthesis => proc_macro2::Delimiter::Parenthesis,
        Delimiter::Brace => proc_macro2::Delimiter::Brace,
        Delimiter::Bracket => proc_macro2::Delimiter::Bracket,
        Delimiter::Invisible => proc_macro2::Delimiter::None,
    };
    stream.append(proc_macro2::Group::new(outside, inner));
}

} // verus!
