//! Rendering: the tokens that a tree stands for, and the canonical text of
//! a run of tokens.

use crate::grammar::{
    ExprView, FieldView, ListView, MetaView, NestedView, PathView, PayloadView, RecordView,
    ValueView,
};
use crate::token::{items_view, stream_items, stream_tokens, Delimiter, Token, TokenTree};
use proc_macro2::TokenStream;
use vstd::prelude::*;
use vstd::string::StringExecFns;

verus! {

// Tokens.

/// The separator of path segments, `::`.
pub open spec fn path_sep() -> Seq<TokenTree> {
    seq![TokenTree::Punct(':', true), TokenTree::Punct(':', false)]
}

/// One punctuation character that stands alone.
pub open spec fn alone(ch: char) -> Seq<TokenTree> {
    seq![TokenTree::Punct(ch, false)]
}

/// The runs of tokens in `items`, with `sep` between each two.
pub open spec fn joined(items: Seq<Seq<TokenTree>>, sep: Seq<TokenTree>) -> Seq<TokenTree>
    decreases items.len(),
{
    if items.len() == 0 {
        Seq::empty()
    } else if items.len() == 1 {
        items[0]
    } else {
        joined(items.drop_last(), sep) + sep + items.last()
    }
}

/// The runs of tokens in `items`, with `sep` between each two, and behind
/// the last where `trailing` says so.
pub open spec fn punctuated(items: Seq<Seq<TokenTree>>, sep: Seq<TokenTree>, trailing: bool) -> Seq<
    TokenTree,
> {
    if trailing {
        joined(items, sep) + sep
    } else {
        joined(items, sep)
    }
}

/// The tokens of a path.
pub open spec fn path_tokens(path: PathView) -> Seq<TokenTree> {
    let segments = joined(
        Seq::new(path.segments.len(), |i: int| seq![TokenTree::Ident(path.segments[i])]),
        path_sep(),
    );
    if path.leading_colon {
        path_sep() + segments
    } else {
        segments
    }
}

/// The tokens of each element of an argument list.
pub open spec fn nested_runs(items: Seq<NestedView>) -> Seq<Seq<TokenTree>>
    decreases items,
{
    Seq::new(
        items.len(),
        |i: int|
            if 0 <= i < items.len() {
                nested_tokens(items[i])
            } else {
                arbitrary()
            },
    )
}

/// The tokens between the parentheses of an argument list.
pub open spec fn list_tokens(list: ListView) -> Seq<TokenTree>
    decreases list,
{
    punctuated(nested_runs(list.items), alone(','), list.trailing_comma)
}

/// The tokens of one element of an argument list.
pub open spec fn nested_tokens(item: NestedView) -> Seq<TokenTree>
    decreases item,
{
    match item {
        NestedView::Meta(meta) => meta_tokens(meta),
        NestedView::Lit(lit) => lit,
        NestedView::Expr(expr) => expr_tokens(expr),
    }
}

/// The tokens of a metadata node.
pub open spec fn meta_tokens(meta: MetaView) -> Seq<TokenTree>
    decreases meta,
{
    match meta {
        MetaView::Path(path) => path_tokens(path),
        MetaView::List(path, list) => path_tokens(path).push(
            TokenTree::Group(Delimiter::Parenthesis, list_tokens(list)),
        ),
        MetaView::UnnamedList(list) => seq![
            TokenTree::Group(Delimiter::Parenthesis, list_tokens(list)),
        ],
        MetaView::NameValue(path, value) => path_tokens(path) + alone('=') + value_tokens(value),
    }
}

/// The tokens of what stands behind `=`.
pub open spec fn value_tokens(value: ValueView) -> Seq<TokenTree>
    decreases value,
{
    match value {
        ValueView::Lit(lit) => lit,
        ValueView::Record(record) => seq![
            TokenTree::Group(Delimiter::Brace, record_tokens(record)),
        ],
        ValueView::UnnamedList(list) => seq![
            TokenTree::Group(Delimiter::Parenthesis, list_tokens(list)),
        ],
    }
}

/// The tokens of each field of a record.
pub open spec fn field_runs(fields: Seq<FieldView>) -> Seq<Seq<TokenTree>>
    decreases fields,
{
    Seq::new(
        fields.len(),
        |i: int|
            if 0 <= i < fields.len() {
                field_tokens(fields[i])
            } else {
                arbitrary()
            },
    )
}

/// The tokens between the braces of a record.
pub open spec fn record_tokens(record: RecordView) -> Seq<TokenTree>
    decreases record,
{
    punctuated(field_runs(record.fields), alone(','), record.trailing_comma)
}

/// The tokens of one field: member, `:`, value.
pub open spec fn field_tokens(field: FieldView) -> Seq<TokenTree>
    decreases field,
{
    field.member + alone(':') + expr_tokens(field.value)
}

/// The tokens of the value of a field.
pub open spec fn expr_tokens(expr: ExprView) -> Seq<TokenTree>
    decreases expr,
{
    match expr {
        ExprView::Host(tokens) => tokens,
        ExprView::Record(record) => seq![
            TokenTree::Group(Delimiter::Brace, record_tokens(record)),
        ],
    }
}

/// The tokens of a payload.
pub open spec fn payload_tokens(payload: PayloadView) -> Seq<TokenTree> {
    punctuated(
        Seq::new(payload.items.len(), |i: int| meta_tokens(payload.items[i])),
        alone(','),
        payload.trailing_comma,
    )
}

/// The run that joins one more item: what was joined so far, the separator
/// unless the item is the first, and the item.
pub proof fn lemma_joined_step(items: Seq<Seq<TokenTree>>, sep: Seq<TokenTree>, n: int)
    requires
        0 <= n < items.len(),
    ensures
        joined(items.take(n + 1), sep) == joined(items.take(n), sep) + (if n > 0 {
            sep
        } else {
            Seq::empty()
        }) + items[n],
{
    let next = items.take(n + 1);
    assert(next.drop_last() =~= items.take(n));
    assert(next.last() == items[n]);
    if n == 0 {
        assert(joined(items.take(0), sep) =~= Seq::empty());
        assert(joined(next, sep) =~= Seq::empty() + Seq::empty() + items[n]);
    }
}

// Text.

/// What opens a group in text.
pub open spec fn open_text(delimiter: Delimiter) -> Seq<char> {
    match delimiter {
        Delimiter::Parenthesis => seq!['('],
        Delimiter::Brace => seq!['{', ' '],
        Delimiter::Bracket => seq!['['],
        Delimiter::Invisible => Seq::empty(),
    }
}

/// What closes a group in text, behind tokens or behind none.
pub open spec fn close_text(delimiter: Delimiter, empty: bool) -> Seq<char> {
    match delimiter {
        Delimiter::Parenthesis => seq![')'],
        Delimiter::Brace => if empty {
            seq!['}']
        } else {
            seq![' ', '}']
        },
        Delimiter::Bracket => seq![']'],
        Delimiter::Invisible => Seq::empty(),
    }
}

/// The token is a punctuation character with the next one directly behind
/// it.
pub open spec fn is_joint(token: TokenTree) -> bool {
    token matches TokenTree::Punct(_, joint) && joint
}

/// The text of one token. A group is its brackets around the text of its
/// tokens; braces keep a space on the inside.
pub open spec fn token_text(token: TokenTree) -> Seq<char>
    decreases token,
{
    match token {
        TokenTree::Ident(name) => name,
        TokenTree::Punct(ch, _) => seq![ch],
        TokenTree::Literal(text) => text,
        TokenTree::Group(delimiter, inner) => open_text(delimiter) + tokens_text(inner)
            + close_text(delimiter, inner.len() == 0),
    }
}

/// The canonical text of a run of tokens: the text of each, with one space
/// between two neighbours unless the first of them is a punctuation
/// character that the next one follows directly.
pub open spec fn tokens_text(tokens: Seq<TokenTree>) -> Seq<char>
    decreases tokens,
{
    if tokens.len() == 0 {
        Seq::empty()
    } else {
        let before = tokens.drop_last();
        let gap = if before.len() == 0 || is_joint(before.last()) {
            Seq::empty()
        } else {
            seq![' ']
        };
        tokens_text(before) + gap + token_text(tokens.last())
    }
}

/// `String::push` of std: the character is put behind those of the string.
pub assume_specification[ String::push ](text: &mut String, ch: char)
    ensures
        final(text)@ == old(text)@.push(ch),
;

/// Writes what opens a group.
fn push_open(text: &mut String, delimiter: Delimiter)
    ensures
        final(text)@ == old(text)@ + open_text(delimiter),
{
    match delimiter {
        Delimiter::Parenthesis => {
            text.push('(');
        },
        Delimiter::Brace => {
            text.push('{');
            text.push(' ');
        },
        Delimiter::Bracket => {
            text.push('[');
        },
        Delimiter::Invisible => {},
    }
    assert(text@ =~= old(text)@ + open_text(delimiter));
}

/// Writes what closes a group.
fn push_close(text: &mut String, delimiter: Delimiter, empty: bool)
    ensures
        final(text)@ == old(text)@ + close_text(delimiter, empty),
{
    match delimiter {
        Delimiter::Parenthesis => {
            text.push(')');
        },
        Delimiter::Brace => {
            if !empty {
                text.push(' ');
            }
            text.push('}');
        },
        Delimiter::Bracket => {
            text.push(']');
        },
        Delimiter::Invisible => {},
    }
    assert(text@ =~= old(text)@ + close_text(delimiter, empty));
}

/// The canonical text of the tokens of a stream.
pub fn stream_text(stream: &TokenStream) -> (text: String)
    ensures
        text@ == tokens_text(stream_tokens(*stream)),
    decreases stream_tokens(*stream),
{
    let items = stream_items(stream);
    let ghost tokens = stream_tokens(*stream);
    let mut text = String::new();
    let mut joint = false;
    let mut i: usize = 0;
    assert(tokens.take(0) =~= Seq::empty());
    while i < items.len()
        invariant
            i <= items.len(),
            items_view(items@) == tokens,
            tokens == stream_tokens(*stream),
            text@ == tokens_text(tokens.take(i as int)),
            joint == (i > 0 && is_joint(tokens[i - 1])),
        decreases items.len() - i,
    {
        let ghost before = text@;
        proof {
            let next = tokens.take(i + 1);
            assert(next.drop_last() =~= tokens.take(i as int));
            assert(next.last() == tokens[i as int]);
            assert(tokens[i as int] == items@[i as int]@);
            if i > 0 {
                assert(tokens.take(i as int).last() == tokens[i - 1]);
            }
        }
        if i != 0 && !joint {
            text.push(' ');
        }
        let ghost spaced = text@;
        match &items[i] {
            Token::Ident(name) => {
                text.append(name.as_str());
                joint = false;
            },
            Token::Literal(literal) => {
                text.append(literal.as_str());
                joint = false;
            },
            Token::Punct(ch, j) => {
                text.push(*ch);
                joint = *j;
            },
            Token::Group(delimiter, inner) => {
                assert(decreases_to!(tokens => tokens[i as int]->Group_1));
                let inside = stream_text(inner);
                let empty = stream_items(inner).len() == 0;
                push_open(&mut text, *delimiter);
                text.append(inside.as_str());
                push_close(&mut text, *delimiter, empty);
                joint = false;
            },
        }
        assert(text@ =~= spaced + token_text(tokens[i as int]));
        assert(text@ =~= tokens_text(tokens.take(i + 1)));
        i += 1;
    }
    assert(tokens.take(i as int) =~= tokens);
    text
}

} // verus!
