//! The grammar as mathematics: the trees that a parse yields, as plain
//! values, and for each rule the function from tokens to its outcome.
//!
//! A rule reads `tokens` from index `pos` on. It yields a tree and the index
//! behind the last token it took, or the first failure it met.

use crate::error::{ErrorKind, Failure};
use crate::host::{host_expr, record_member, scalar_literal};
use crate::token::{Delimiter, TokenTree};
use vstd::prelude::*;

verus! {

/// A path: segments joined by `::`, with or without a leading `::`.
pub struct PathView {
    pub leading_colon: bool,
    pub segments: Seq<Seq<char>>,
}

/// Comma-separated elements, with or without a comma behind the last.
pub struct ListView {
    pub items: Seq<NestedView>,
    pub trailing_comma: bool,
}

/// One node of metadata.
pub enum MetaView {
    Path(PathView),
    List(PathView, ListView),
    UnnamedList(ListView),
    NameValue(PathView, ValueView),
}

/// One element of an argument list.
pub enum NestedView {
    Meta(MetaView),
    Lit(Seq<TokenTree>),
    Expr(ExprView),
}

/// What can stand behind `=`.
pub enum ValueView {
    Lit(Seq<TokenTree>),
    Record(RecordView),
    UnnamedList(ListView),
}

/// The fields of a record, with or without a comma behind the last.
pub struct RecordView {
    pub fields: Seq<FieldView>,
    pub trailing_comma: bool,
}

/// One field of a record: `member : value`.
pub struct FieldView {
    pub named: bool,
    pub member: Seq<TokenTree>,
    pub value: ExprView,
}

/// The value of a field: a host expression, kept as its tokens, or a record.
pub enum ExprView {
    Host(Seq<TokenTree>),
    Record(RecordView),
}

/// Comma-separated metadata nodes, with or without a comma behind the last.
pub struct PayloadView {
    pub items: Seq<MetaView>,
    pub trailing_comma: bool,
}

/// The outcome of a rule.
pub type Parsed<T> = Result<(T, int), Failure>;

// Lookahead.

/// The token at `pos` is the punctuation character `ch`.
pub open spec fn punct_at(tokens: Seq<TokenTree>, pos: int, ch: char) -> bool {
    &&& 0 <= pos < tokens.len()
    &&& tokens[pos] matches TokenTree::Punct(c, _)
    &&& c == ch
}

/// The tokens at `pos` and behind it are the two characters of `first`
/// `second`, written without a gap.
pub open spec fn punct_pair_at(tokens: Seq<TokenTree>, pos: int, first: char, second: char) -> bool {
    &&& 0 <= pos < tokens.len()
    &&& tokens[pos] == TokenTree::Punct(first, true)
    &&& punct_at(tokens, pos + 1, second)
}

/// The path separator `::` stands at `pos`.
pub open spec fn path_sep_at(tokens: Seq<TokenTree>, pos: int) -> bool {
    punct_pair_at(tokens, pos, ':', ':')
}

/// The rest marker `..` stands at `pos`.
pub open spec fn rest_marker_at(tokens: Seq<TokenTree>, pos: int) -> bool {
    punct_pair_at(tokens, pos, '.', '.')
}

/// The token at `pos` is an identifier or a reserved word.
pub open spec fn ident_at(tokens: Seq<TokenTree>, pos: int) -> bool {
    0 <= pos < tokens.len() && tokens[pos] is Ident
}

/// The token at `pos` is the word `true` or the word `false`.
pub open spec fn bool_word_at(tokens: Seq<TokenTree>, pos: int) -> bool {
    &&& 0 <= pos < tokens.len()
    &&& tokens[pos] matches TokenTree::Ident(name)
    &&& (name == "true"@ || name == "false"@)
}

/// The token at `pos` is a group in the given brackets.
pub open spec fn group_at(tokens: Seq<TokenTree>, pos: int, delimiter: Delimiter) -> bool {
    &&& 0 <= pos < tokens.len()
    &&& tokens[pos] matches TokenTree::Group(d, _)
    &&& d == delimiter
}

/// The tokens inside the group at `pos`.
pub open spec fn group_inner(tokens: Seq<TokenTree>, pos: int) -> Seq<TokenTree> {
    tokens[pos]->Group_1
}

/// Where a leaf ends that was read from `pos` on and left `left` tokens
/// behind it: nowhere, unless it took a token and left no more than were
/// there.
pub open spec fn leaf_end(tokens: Seq<TokenTree>, pos: int, left: nat) -> Option<int> {
    if 0 <= pos && left < tokens.len() - pos {
        Some(tokens.len() - left)
    } else {
        None
    }
}

/// A leaf that an outside parser read from `pos` on, put in its place:
/// its tokens and its end. `found` is what the parser reported, the leaf's
/// tokens and the number of tokens it left.
pub open spec fn leaf_at(
    tokens: Seq<TokenTree>,
    pos: int,
    found: Option<(Seq<TokenTree>, nat)>,
) -> Option<(Seq<TokenTree>, int)> {
    match found {
        Some((leaf, left)) => match leaf_end(tokens, pos, left) {
            Some(end) => Some((leaf, end)),
            None => None,
        },
        None => None,
    }
}

/// A member that an outside parser read from `pos` on, put in its place:
/// whether it is named, its tokens and its end.
pub open spec fn member_leaf_at(
    tokens: Seq<TokenTree>,
    pos: int,
    found: Option<(bool, Seq<TokenTree>, nat)>,
) -> Option<(bool, Seq<TokenTree>, int)> {
    match found {
        Some((named, member, left)) => match leaf_end(tokens, pos, left) {
            Some(end) => Some((named, member, end)),
            None => None,
        },
        None => None,
    }
}

/// The tokens from `pos` on, or none where `pos` is no place in `tokens`.
pub open spec fn tokens_from(tokens: Seq<TokenTree>, pos: int) -> Seq<TokenTree> {
    if 0 <= pos <= tokens.len() {
        tokens.skip(pos)
    } else {
        Seq::empty()
    }
}

/// The scalar literal at `pos`, if one stands there: its tokens and its end.
pub open spec fn literal_at(tokens: Seq<TokenTree>, pos: int) -> Option<(Seq<TokenTree>, int)> {
    leaf_at(tokens, pos, scalar_literal(tokens_from(tokens, pos)))
}

/// The member at `pos`, if one stands there: whether it is named, its tokens
/// and its end.
pub open spec fn member_at(tokens: Seq<TokenTree>, pos: int) -> Option<(bool, Seq<TokenTree>, int)> {
    member_leaf_at(tokens, pos, record_member(tokens_from(tokens, pos)))
}

/// The host expression at `pos`, if one stands there: its tokens and its
/// end.
pub open spec fn host_expr_at(tokens: Seq<TokenTree>, pos: int) -> Option<(Seq<TokenTree>, int)> {
    leaf_at(tokens, pos, host_expr(tokens_from(tokens, pos)))
}

// Paths.

/// The segments of a path from `pos` on, behind those in `found`: the
/// segments, the index behind the last token taken, and whether the last
/// token taken was a separator.
pub open spec fn path_segments(
    tokens: Seq<TokenTree>,
    pos: int,
    found: Seq<Seq<char>>,
    after_sep: bool,
) -> (Seq<Seq<char>>, int, bool)
    decreases tokens.len() - pos,
{
    if ident_at(tokens, pos) {
        let segments = found.push(tokens[pos]->Ident_0);
        if path_sep_at(tokens, pos + 1) {
            path_segments(tokens, pos + 3, segments, true)
        } else {
            (segments, pos + 1, false)
        }
    } else {
        (found, pos, after_sep)
    }
}

/// A path: an optional leading `::`, then identifiers joined by `::`.
pub open spec fn path_rule(tokens: Seq<TokenTree>, pos: int) -> Parsed<PathView> {
    let leading_colon = path_sep_at(tokens, pos);
    let start = if leading_colon {
        pos + 2
    } else {
        pos
    };
    let (segments, end, after_sep) = path_segments(tokens, start, Seq::empty(), false);
    if segments.len() == 0 {
        Err(Failure::at(ErrorKind::EmptyPath, end))
    } else if after_sep {
        Err(Failure::at(ErrorKind::TrailingSeparator, end))
    } else {
        Ok((PathView { leading_colon, segments }, end))
    }
}

// Metadata.

/// The elements of an argument list from `pos` to the end of `tokens`,
/// behind those in `found`: each but the last with a comma behind it, the
/// last with or without one. An element always ends behind where it began,
/// so the bound `pos < end` never fails; it is there to make the rule well
/// founded on the face of it.
pub open spec fn nested_list_rule(
    tokens: Seq<TokenTree>,
    pos: int,
    found: Seq<NestedView>,
) -> Result<ListView, Failure>
    decreases tokens, 8int, tokens.len() - pos,
{
    if pos >= tokens.len() {
        Ok(ListView { items: found, trailing_comma: found.len() > 0 })
    } else {
        match nested_rule(tokens, pos) {
            Err(e) => Err(e),
            Ok((item, end)) => if end >= tokens.len() {
                Ok(ListView { items: found.push(item), trailing_comma: false })
            } else if pos < end && punct_at(tokens, end, ',') {
                nested_list_rule(tokens, end + 1, found.push(item))
            } else {
                Err(Failure::at(ErrorKind::ExpectedSeparatorToken, end))
            },
        }
    }
}

/// The argument list inside the parenthesized group at `pos`.
pub open spec fn paren_list_rule(tokens: Seq<TokenTree>, pos: int) -> Parsed<ListView>
    decreases tokens, 2int, 0int,
{
    if group_at(tokens, pos, Delimiter::Parenthesis) {
        match nested_list_rule(group_inner(tokens, pos), 0, Seq::empty()) {
            Ok(list) => Ok((list, pos + 1)),
            Err(e) => Err(e.within(pos)),
        }
    } else {
        Err(Failure::at(ErrorKind::ExpectedDelimiter, pos))
    }
}

/// One element of an argument list: a literal, unless it is `true` or
/// `false` with `=` behind it; else a metadata node, where a path can start.
pub open spec fn nested_rule(tokens: Seq<TokenTree>, pos: int) -> Parsed<NestedView>
    decreases tokens, 7int, 0int,
{
    nested_rule_with(tokens, pos, literal_at(tokens, pos))
}

/// One element of an argument list, where `literal` is the literal that
/// stands at `pos`, if one does.
pub open spec fn nested_rule_with(
    tokens: Seq<TokenTree>,
    pos: int,
    literal: Option<(Seq<TokenTree>, int)>,
) -> Parsed<NestedView>
    decreases tokens, 6int, 0int,
{
    if literal is Some && !(bool_word_at(tokens, pos) && punct_at(tokens, pos + 1, '=')) {
        Ok((NestedView::Lit(literal.unwrap().0), literal.unwrap().1))
    } else if ident_at(tokens, pos) || (path_sep_at(tokens, pos) && ident_at(tokens, pos + 2)) {
        match meta_rule(tokens, pos) {
            Ok((meta, end)) => Ok((NestedView::Meta(meta), end)),
            Err(e) => Err(e),
        }
    } else {
        Err(Failure::at(ErrorKind::ExpectedIdentifierOrLiteral, pos))
    }
}

/// A metadata node: a parenthesized list, or a path and what follows it.
pub open spec fn meta_rule(tokens: Seq<TokenTree>, pos: int) -> Parsed<MetaView>
    decreases tokens, 5int, 0int,
{
    if group_at(tokens, pos, Delimiter::Parenthesis) {
        match paren_list_rule(tokens, pos) {
            Ok((list, end)) => Ok((MetaView::UnnamedList(list), end)),
            Err(e) => Err(e),
        }
    } else {
        match path_rule(tokens, pos) {
            Ok((path, end)) => meta_after_path_rule(tokens, path, end),
            Err(e) => Err(e),
        }
    }
}

/// What follows the path of a metadata node: a parenthesized list, `=` and a
/// value, or nothing.
pub open spec fn meta_after_path_rule(
    tokens: Seq<TokenTree>,
    path: PathView,
    pos: int,
) -> Parsed<MetaView>
    decreases tokens, 4int, 0int,
{
    if group_at(tokens, pos, Delimiter::Parenthesis) {
        match paren_list_rule(tokens, pos) {
            Ok((list, end)) => Ok((MetaView::List(path, list), end)),
            Err(e) => Err(e),
        }
    } else if punct_at(tokens, pos, '=') {
        match value_rule(tokens, pos + 1) {
            Ok((value, end)) => Ok((MetaView::NameValue(path, value), end)),
            Err(e) => Err(e),
        }
    } else {
        Ok((MetaView::Path(path), pos))
    }
}

/// The value of a `name = value` pair: a parenthesized list, a record, or a
/// literal.
pub open spec fn value_rule(tokens: Seq<TokenTree>, pos: int) -> Parsed<ValueView>
    decreases tokens, 3int, 1int,
{
    value_rule_with(tokens, pos, literal_at(tokens, pos))
}

/// The value of a `name = value` pair, where `literal` is the literal that
/// stands at `pos`, if one does.
pub open spec fn value_rule_with(
    tokens: Seq<TokenTree>,
    pos: int,
    literal: Option<(Seq<TokenTree>, int)>,
) -> Parsed<ValueView>
    decreases tokens, 3int, 0int,
{
    if group_at(tokens, pos, Delimiter::Parenthesis) {
        match paren_list_rule(tokens, pos) {
            Ok((list, end)) => Ok((ValueView::UnnamedList(list), end)),
            Err(e) => Err(e),
        }
    } else if group_at(tokens, pos, Delimiter::Brace) {
        match record_rule(tokens, pos) {
            Ok((record, end)) => Ok((ValueView::Record(record), end)),
            Err(e) => Err(e),
        }
    } else {
        match literal {
            Some((lit, end)) => Ok((ValueView::Lit(lit), end)),
            None => Err(Failure::at(ErrorKind::MalformedLiteral, pos)),
        }
    }
}

/// A path with a parenthesized list behind it.
pub open spec fn meta_list_rule(tokens: Seq<TokenTree>, pos: int) -> Parsed<(PathView, ListView)> {
    match path_rule(tokens, pos) {
        Err(e) => Err(e),
        Ok((path, end)) => list_after_path_rule(tokens, path, end),
    }
}

/// The parenthesized list that is owed behind a path.
pub open spec fn list_after_path_rule(
    tokens: Seq<TokenTree>,
    path: PathView,
    pos: int,
) -> Parsed<(PathView, ListView)> {
    match paren_list_rule(tokens, pos) {
        Err(e) => Err(e),
        Ok((list, end)) => Ok(((path, list), end)),
    }
}

/// A path with `=` and a value behind it.
pub open spec fn name_value_rule(tokens: Seq<TokenTree>, pos: int) -> Parsed<(PathView, ValueView)> {
    match path_rule(tokens, pos) {
        Err(e) => Err(e),
        Ok((path, end)) => name_value_after_path_rule(tokens, path, end),
    }
}

/// The `=` and the value that are owed behind a path.
pub open spec fn name_value_after_path_rule(
    tokens: Seq<TokenTree>,
    path: PathView,
    pos: int,
) -> Parsed<(PathView, ValueView)> {
    if punct_at(tokens, pos, '=') {
        match value_rule(tokens, pos + 1) {
            Err(e) => Err(e),
            Ok((value, end)) => Ok(((path, value), end)),
        }
    } else {
        Err(Failure::at(ErrorKind::ExpectedSeparatorToken, pos))
    }
}

/// The metadata nodes of a payload from `pos` to the end of `tokens`,
/// behind those in `found`: each but the last with a comma behind it, the
/// last with or without one. The bound `pos < end` never fails, as in
/// `nested_list_rule`.
pub open spec fn payload_rule(tokens: Seq<TokenTree>, pos: int, found: Seq<MetaView>) -> Result<
    PayloadView,
    Failure,
>
    decreases tokens.len() - pos,
{
    if pos >= tokens.len() {
        Ok(PayloadView { items: found, trailing_comma: found.len() > 0 })
    } else {
        match meta_rule(tokens, pos) {
            Err(e) => Err(e),
            Ok((item, end)) => if end >= tokens.len() {
                Ok(PayloadView { items: found.push(item), trailing_comma: false })
            } else if pos < end && punct_at(tokens, end, ',') {
                payload_rule(tokens, end + 1, found.push(item))
            } else {
                Err(Failure::at(ErrorKind::ExpectedSeparatorToken, end))
            },
        }
    }
}

// Records.

/// The record in the braced group at `pos`.
pub open spec fn record_rule(tokens: Seq<TokenTree>, pos: int) -> Parsed<RecordView>
    decreases tokens, 2int, 0int,
{
    if group_at(tokens, pos, Delimiter::Brace) {
        match fields_rule(group_inner(tokens, pos), 0, Seq::empty()) {
            Ok(record) => Ok((record, pos + 1)),
            Err(e) => Err(e.within(pos)),
        }
    } else {
        Err(Failure::at(ErrorKind::ExpectedDelimiter, pos))
    }
}

/// The fields of a record from `pos` on, behind those in `found`, up to the
/// end of `tokens` or to a rest marker `..`, which is left where it stands
/// with all that follows it. The bound `pos < end` never fails, as in
/// `nested_list_rule`.
pub open spec fn fields_rule(
    tokens: Seq<TokenTree>,
    pos: int,
    found: Seq<FieldView>,
) -> Result<RecordView, Failure>
    decreases tokens, 7int, tokens.len() - pos,
{
    if pos >= tokens.len() || rest_marker_at(tokens, pos) {
        Ok(RecordView { fields: found, trailing_comma: found.len() > 0 })
    } else {
        match field_rule(tokens, pos) {
            Err(e) => Err(e),
            Ok((field, end)) => if end >= tokens.len() {
                Ok(RecordView { fields: found.push(field), trailing_comma: false })
            } else if pos < end && punct_at(tokens, end, ',') {
                fields_rule(tokens, end + 1, found.push(field))
            } else {
                Err(Failure::at(ErrorKind::ExpectedSeparatorToken, end))
            },
        }
    }
}

/// One field: a member, `:`, and a value. The `:` is owed for every member.
pub open spec fn field_rule(tokens: Seq<TokenTree>, pos: int) -> Parsed<FieldView>
    decreases tokens, 6int, 1int,
{
    field_rule_with(tokens, pos, member_at(tokens, pos))
}

/// One field, where `member` is the member that stands at `pos`, if one
/// does.
pub open spec fn field_rule_with(
    tokens: Seq<TokenTree>,
    pos: int,
    member: Option<(bool, Seq<TokenTree>, int)>,
) -> Parsed<FieldView>
    decreases tokens, 6int, 0int,
{
    match member {
        None => Err(Failure::at(ErrorKind::ExpectedIdentifierOrLiteral, pos)),
        Some((named, member, colon)) => if punct_at(tokens, colon, ':') {
            match custom_expr_rule(tokens, colon + 1) {
                Ok((value, end)) => Ok((FieldView { named, member, value }, end)),
                Err(e) => Err(e),
            }
        } else {
            Err(Failure::at(ErrorKind::ExpectedSeparatorToken, colon))
        },
    }
}

/// The value of a field: a record where a brace opens, else a host
/// expression.
pub open spec fn custom_expr_rule(tokens: Seq<TokenTree>, pos: int) -> Parsed<ExprView>
    decreases tokens, 5int, 1int,
{
    custom_expr_rule_with(tokens, pos, host_expr_at(tokens, pos))
}

/// The value of a field, where `host` is the host expression that stands
/// at `pos`, if one does.
pub open spec fn custom_expr_rule_with(
    tokens: Seq<TokenTree>,
    pos: int,
    host: Option<(Seq<TokenTree>, int)>,
) -> Parsed<ExprView>
    decreases tokens, 5int, 0int,
{
    if group_at(tokens, pos, Delimiter::Brace) {
        match record_rule(tokens, pos) {
            Ok((record, end)) => Ok((ExprView::Record(record), end)),
            Err(e) => Err(e),
        }
    } else {
        match host {
            Some((expr, end)) => Ok((ExprView::Host(expr), end)),
            None => Err(Failure::at(ErrorKind::HostExpression, pos)),
        }
    }
}

} // verus!
