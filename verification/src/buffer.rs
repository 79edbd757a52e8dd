//! A token stream made ready for parsing: its items laid out for lookahead,
//! and every literal in it, at any depth, of a form the grammar reads.

use crate::error::{ErrorKind, Failure, ParseError};
use crate::grammar;
use crate::token::{
    items_view, stream_items, stream_new, stream_skip, stream_take, stream_tokens, Delimiter, Token,
    TokenTree,
};
use proc_macro2::TokenStream;
use vstd::prelude::*;
use vstd::string::{StrSliceExecFns, StringExecFns};

verus! {

/// A decimal digit.
pub open spec fn is_digit(ch: char) -> bool {
    '0' <= ch && ch <= '9'
}

/// The literal forms that the grammar reads, told by how their text begins:
/// strings (`"`, `r`), characters (`'`), byte strings and bytes (`b"`, `br`,
/// `b'`), and numbers (a digit, or `-` and a digit). These are the forms
/// that the parsers behind the grammar's leaves know; they give up on any
/// other, so a stream that holds one is turned down before it is parsed.
pub open spec fn literal_supported(text: Seq<char>) -> bool {
    &&& text.len() > 0
    &&& {
        ||| text[0] == '"'
        ||| text[0] == '\''
        ||| text[0] == 'r'
        ||| is_digit(text[0])
        ||| text.len() > 1 && text[0] == '-' && is_digit(text[1])
        ||| text.len() > 1 && text[0] == 'b' && (text[1] == '"' || text[1] == '\'' || text[1] == 'r')
    }
}

/// Every literal in the token, at any depth, is of a supported form.
pub open spec fn token_supported(token: TokenTree) -> bool
    decreases token,
{
    match token {
        TokenTree::Literal(text) => literal_supported(text),
        TokenTree::Group(_, inner) => tokens_supported(inner),
        _ => true,
    }
}

/// Every literal in the tokens, at any depth, is of a supported form.
pub open spec fn tokens_supported(tokens: Seq<TokenTree>) -> bool
    decreases tokens,
{
    forall|i: int| 0 <= i < tokens.len() ==> token_supported(#[trigger] tokens[i])
}

/// The way to the first literal of an unsupported form, reading from index
/// `from` on and into each group before what follows it.
pub open spec fn unsupported_path(tokens: Seq<TokenTree>, from: int) -> Option<Seq<int>>
    decreases tokens, tokens.len() - from,
{
    if from < 0 || from >= tokens.len() {
        None
    } else {
        let here = match tokens[from] {
            TokenTree::Literal(text) => if literal_supported(text) {
                None
            } else {
                Some(seq![from])
            },
            TokenTree::Group(_, inner) => match unsupported_path(inner, 0) {
                Some(path) => Some(path.push(from)),
                None => None,
            },
            _ => None,
        };
        if here is Some {
            here
        } else {
            unsupported_path(tokens, from + 1)
        }
    }
}

/// No unsupported literal from `from` on means that each token from there on
/// is supported, and the other way round.
pub proof fn lemma_unsupported_path(tokens: Seq<TokenTree>, from: int)
    requires
        0 <= from,
    ensures
        unsupported_path(tokens, from) is None <==> forall|i: int|
            from <= i < tokens.len() ==> token_supported(#[trigger] tokens[i]),
    decreases tokens, tokens.len() - from,
{
    if from < tokens.len() {
        lemma_unsupported_path(tokens, from + 1);
        match tokens[from] {
            TokenTree::Group(_, inner) => {
                lemma_unsupported_path(inner, 0);
            },
            _ => {},
        }
        if unsupported_path(tokens, from) is None {
            assert(token_supported(tokens[from]));
            assert forall|i: int| from <= i < tokens.len() implies token_supported(
                #[trigger] tokens[i],
            ) by {
                if i > from {
                }
            }
        } else {
            if token_supported(tokens[from]) {
                assert(unsupported_path(tokens, from + 1) is Some);
            }
        }
    }
}

fn char_is_digit(ch: char) -> (b: bool)
    ensures
        b == is_digit(ch),
{
    '0' <= ch && ch <= '9'
}

/// Whether a literal's text is of a form that the grammar reads.
pub fn literal_is_supported(text: &str) -> (b: bool)
    ensures
        b == literal_supported(text@),
{
    let n = text.unicode_len();
    if n == 0 {
        return false;
    }
    let first = text.get_char(0);
    if first == '"' || first == '\'' || first == 'r' || char_is_digit(first) {
        return true;
    }
    if n < 2 {
        return false;
    }
    let second = text.get_char(1);
    (first == '-' && char_is_digit(second)) || (first == 'b' && (second == '"' || second == '\''
        || second == 'r'))
}

/// Looks through a stream, and through every group in it, for a literal of an
/// unsupported form.
pub fn check_literals(stream: &TokenStream) -> (r: Result<(), ParseError>)
    ensures
        r is Ok <==> tokens_supported(stream_tokens(*stream)),
        r matches Err(e) ==> unsupported_path(stream_tokens(*stream), 0) == Some(e@.path)
            && e@.kind == ErrorKind::MalformedLiteral,
    decreases stream_tokens(*stream),
{
    let items = stream_items(stream);
    let ghost tokens = stream_tokens(*stream);
    let mut i: usize = 0;
    while i < items.len()
        invariant
            i <= items.len(),
            items_view(items@) == tokens,
            tokens == stream_tokens(*stream),
            unsupported_path(tokens, 0) == unsupported_path(tokens, i as int),
        decreases items.len() - i,
    {
        assert(tokens[i as int] == items@[i as int]@);
        match &items[i] {
            Token::Literal(text) => {
                if !literal_is_supported(text.as_str()) {
                    proof {
                        lemma_unsupported_path(tokens, 0);
                    }
                    return Err(ParseError::at(ErrorKind::MalformedLiteral, i));
                }
            },
            Token::Group(_, inner) => {
                match check_literals(inner) {
                    Err(e) => {
                        proof {
                            lemma_unsupported_path(tokens, 0);
                        }
                        return Err(e.within(i));
                    },
                    Ok(()) => {
                        proof {
                            lemma_unsupported_path(stream_tokens(*inner), 0);
                        }
                    },
                }
            },
            _ => {},
        }
        i += 1;
    }
    proof {
        lemma_unsupported_path(tokens, 0);
    }
    Ok(())
}

/// A token stream laid out for parsing. Every literal in it, at any depth,
/// is of a supported form.
pub struct TokenBuffer {
    stream: TokenStream,
    items: Vec<Token>,
}

impl TokenBuffer {
    #[verifier::type_invariant]
    spec fn inv(self) -> bool {
        &&& items_view(self.items@) == stream_tokens(self.stream)
        &&& tokens_supported(stream_tokens(self.stream))
    }

    /// The tokens of the buffer as plain values.
    pub closed spec fn view(&self) -> Seq<TokenTree> {
        stream_tokens(self.stream)
    }

    /// Lays a stream out for parsing, unless it holds a literal of an
    /// unsupported form; the error then points at the first such literal.
    pub fn new(stream: TokenStream) -> (r: Result<TokenBuffer, ParseError>)
        ensures
            r is Ok <==> tokens_supported(stream_tokens(stream)),
            r matches Ok(buffer) ==> buffer@ == stream_tokens(stream),
            r matches Err(e) ==> e@ == (Failure {
                kind: ErrorKind::MalformedLiteral,
                path: unsupported_path(stream_tokens(stream), 0).unwrap(),
            }),
    {
        match check_literals(&stream) {
            Err(e) => Err(e),
            Ok(()) => {
                let items = stream_items(&stream);
                Ok(TokenBuffer { stream, items })
            },
        }
    }

    /// The number of tokens in the buffer.
    pub fn len(&self) -> (n: usize)
        ensures
            n == self@.len(),
    {
        proof {
            use_type_invariant(self);
        }
        self.items.len()
    }

    /// The item at index `pos`, if there is one.
    pub fn get(&self, pos: usize) -> (token: Option<&Token>)
        ensures
            match token {
                Some(token) => pos < self@.len() && token@ == self@[pos as int],
                None => pos >= self@.len(),
            },
    {
        if pos < self.len() {
            Some(self.token(pos))
        } else {
            None
        }
    }

    /// The item at index `pos`.
    pub(crate) fn token(&self, pos: usize) -> (token: &Token)
        requires
            pos < self@.len(),
        ensures
            token@ == self@[pos as int],
    {
        proof {
            use_type_invariant(self);
            assert(self@[pos as int] == self.items@[pos as int]@);
        }
        &self.items[pos]
    }

    /// Whether the token at `pos` is the punctuation character `ch`.
    pub fn punct_at(&self, pos: usize, ch: char) -> (b: bool)
        ensures
            b == grammar::punct_at(self@, pos as int, ch),
    {
        if pos >= self.len() {
            return false;
        }
        match self.token(pos) {
            Token::Punct(c, _) => *c == ch,
            _ => false,
        }
    }

    /// Whether the tokens at `pos` and behind it are `first` and `second`,
    /// written without a gap.
    pub fn punct_pair_at(&self, pos: usize, first: char, second: char) -> (b: bool)
        ensures
            b == grammar::punct_pair_at(self@, pos as int, first, second),
    {
        if pos >= self.len() {
            return false;
        }
        match self.token(pos) {
            Token::Punct(c, joint) => *c == first && *joint && self.punct_at(pos + 1, second),
            _ => false,
        }
    }

    /// Whether the token at `pos` is an identifier or a reserved word.
    pub fn ident_at(&self, pos: usize) -> (b: bool)
        ensures
            b == grammar::ident_at(self@, pos as int),
    {
        if pos >= self.len() {
            return false;
        }
        match self.token(pos) {
            Token::Ident(_) => true,
            _ => false,
        }
    }

    /// Whether the token at `pos` is the word `true` or the word `false`.
    pub fn bool_word_at(&self, pos: usize) -> (b: bool)
        ensures
            b == grammar::bool_word_at(self@, pos as int),
    {
        if pos >= self.len() {
            return false;
        }
        match self.token(pos) {
            Token::Ident(name) => {
                let yes = String::from_str("true");
                let no = String::from_str("false");
                *name == yes || *name == no
            },
            _ => false,
        }
    }

    /// Whether the token at `pos` is a group in the given brackets.
    pub fn group_at(&self, pos: usize, delimiter: Delimiter) -> (b: bool)
        ensures
            b == grammar::group_at(self@, pos as int, delimiter),
    {
        if pos >= self.len() {
            return false;
        }
        match self.token(pos) {
            Token::Group(d, _) => *d == delimiter,
            _ => false,
        }
    }

    /// The tokens from index `pos` on, as a stream; none where `pos` is
    /// beyond the end.
    pub(crate) fn rest(&self, pos: usize) -> (rest: TokenStream)
        ensures
            stream_tokens(rest) == grammar::tokens_from(self@, pos as int),
            tokens_supported(stream_tokens(rest)),
    {
        proof {
            use_type_invariant(self);
        }
        if pos <= self.items.len() {
            stream_skip(&self.stream, pos)
        } else {
            stream_new()
        }
    }

    /// The token at index `pos`, as a stream of its own.
    pub(crate) fn single(&self, pos: usize) -> (one: TokenStream)
        requires
            pos < self@.len(),
        ensures
            stream_tokens(one) == seq![self@[pos as int]],
    {
        proof {
            use_type_invariant(self);
        }
        let rest = stream_skip(&self.stream, pos);
        let one = stream_take(&rest, 1);
        assert(stream_tokens(one) =~= seq![self@[pos as int]]);
        one
    }

    /// The buffer for the inside of the group at index `pos`.
    pub(crate) fn enter(&self, pos: usize) -> (inner: TokenBuffer)
        requires
            pos < self@.len(),
            self@[pos as int] is Group,
        ensures
            inner@ == grammar::group_inner(self@, pos as int),
    {
        proof {
            use_type_invariant(self);
            assert(self@[pos as int] == self.items@[pos as int]@);
            assert(token_supported(self@[pos as int]));
        }
        match &self.items[pos] {
            Token::Group(_, inner) => {
                let stream = stream_skip(inner, 0);
                assert(stream_tokens(stream) =~= stream_tokens(*inner));
                let items = stream_items(&stream);
                TokenBuffer { stream, items }
            },
            _ => unreached(),
        }
    }
}

} // verus!
