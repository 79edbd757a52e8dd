//! Records: brace-delimited `member : value` fields, whose values are host
//! expressions or records again.

use crate::buffer::TokenBuffer;
use crate::error::{ErrorKind, Failure, ParseError};
use crate::grammar::{
    custom_expr_rule, custom_expr_rule_with, field_rule, field_rule_with, fields_rule, leaf_at,
    member_leaf_at, record_rule, ExprView, FieldView, RecordView,
};
use crate::host::{leaf_view, member_view, outcome, parse_host_expr, parse_record_member};
use crate::render::{
    alone, expr_tokens, field_runs, field_tokens, joined, lemma_joined_step, record_tokens,
    stream_text, tokens_text,
};
use crate::token::{
    stream_extend, stream_new, stream_push_group, stream_push_punct, stream_tokens, Delimiter,
    TokenTree,
};
use proc_macro2::TokenStream;
use vstd::prelude::*;

verus! {

/// The member of a field: an identifier, or an index for a positional
/// field, kept as the tokens it is written with.
pub struct Member {
    pub named: bool,
    pub tokens: TokenStream,
}

/// One field of a record: a member and its value, with `:` between them.
pub struct FieldValue {
    pub member: Member,
    pub expr: CustomExpr,
}

/// A record without a name: `{ member : value , ... }`.
pub struct ExprUnnamedStruct {
    pub fields: Vec<FieldValue>,
    pub trailing_comma: bool,
}

/// The value of a field.
pub enum CustomExpr {
    /// A host expression, kept as the tokens it is written with.
    Expr(TokenStream),
    /// A record.
    ExprUnnamedStruct(ExprUnnamedStruct),
}

impl CustomExpr {
    /// The value as a plain value.
    pub open spec fn view(&self) -> ExprView
        decreases self,
    {
        match self {
            CustomExpr::Expr(tokens) => ExprView::Host(stream_tokens(*tokens)),
            CustomExpr::ExprUnnamedStruct(record) => ExprView::Record(record.view()),
        }
    }
}

impl FieldValue {
    /// The field as a plain value.
    pub open spec fn view(&self) -> FieldView
        decreases self,
    {
        FieldView {
            named: self.member.named,
            member: stream_tokens(self.member.tokens),
            value: self.expr.view(),
        }
    }
}

/// The plain values of a run of fields.
pub open spec fn fields_view(fields: Seq<FieldValue>) -> Seq<FieldView>
    decreases fields,
{
    Seq::new(
        fields.len(),
        |i: int|
            if 0 <= i < fields.len() {
                fields[i].view()
            } else {
                arbitrary()
            },
    )
}

impl ExprUnnamedStruct {
    /// The record as a plain value.
    pub open spec fn view(&self) -> RecordView
        decreases self,
    {
        RecordView { fields: fields_view(self.fields@), trailing_comma: self.trailing_comma }
    }
}

/// The plain values of a run with one more field are those of the run, and
/// that of the field behind them.
pub proof fn lemma_fields_view_push(fields: Seq<FieldValue>, field: FieldValue)
    ensures
        fields_view(fields.push(field)) == fields_view(fields).push(field.view()),
{
    assert(fields_view(fields.push(field)) =~= fields_view(fields).push(field.view()));
}

impl CustomExpr {
    /// Reads the value of a field at `pos`: a record where a brace opens,
    /// else a host expression.
    pub fn parse(buffer: &TokenBuffer, pos: usize) -> (r: Result<(CustomExpr, usize), ParseError>)
        ensures
            match r {
                Ok((expr, end)) => custom_expr_rule(buffer@, pos as int) == Ok::<
                    (ExprView, int),
                    Failure,
                >((expr.view(), end as int)) && pos < end <= buffer@.len(),
                Err(e) => custom_expr_rule(buffer@, pos as int) == Err::<(ExprView, int), Failure>(
                    e@,
                ),
            },
        decreases buffer@, 5int, 1int,
    {
        let host = if buffer.group_at(pos, Delimiter::Brace) {
            None
        } else {
            outcome(parse_host_expr(buffer.rest(pos)))
        };
        CustomExpr::parse_with_host(buffer, pos, host)
    }

    /// Reads the value of a field at `pos`, where `host` is what the host
    /// expression parser made of the tokens from `pos` on: the tokens of
    /// the expression and the number of tokens it left, or nothing. A
    /// record where a brace opens; else the host expression, if it took a
    /// token and left no more than were there.
    pub fn parse_with_host(
        buffer: &TokenBuffer,
        pos: usize,
        host: Option<(TokenStream, usize)>,
    ) -> (r: Result<(CustomExpr, usize), ParseError>)
        ensures
            match r {
                Ok((expr, end)) => custom_expr_rule_with(
                    buffer@,
                    pos as int,
                    leaf_at(buffer@, pos as int, leaf_view(host)),
                ) == Ok::<(ExprView, int), Failure>((expr.view(), end as int)) && pos < end
                    <= buffer@.len(),
                Err(e) => custom_expr_rule_with(
                    buffer@,
                    pos as int,
                    leaf_at(buffer@, pos as int, leaf_view(host)),
                ) == Err::<(ExprView, int), Failure>(e@),
            },
        decreases buffer@, 5int, 0int,
    {
        if buffer.group_at(pos, Delimiter::Brace) {
            match ExprUnnamedStruct::parse(buffer, pos) {
                Ok((record, end)) => Ok((CustomExpr::ExprUnnamedStruct(record), end)),
                Err(e) => Err(e),
            }
        } else {
            let n = buffer.len();
            match host {
                Some((expr, left)) => {
                    if pos < n && left < n - pos {
                        Ok((CustomExpr::Expr(expr), n - left))
                    } else {
                        Err(ParseError::at(ErrorKind::HostExpression, pos))
                    }
                },
                None => Err(ParseError::at(ErrorKind::HostExpression, pos)),
            }
        }
    }
}

impl FieldValue {
    /// Reads one field at `pos`: a member, `:`, and a value.
    pub fn parse(buffer: &TokenBuffer, pos: usize) -> (r: Result<(FieldValue, usize), ParseError>)
        ensures
            match r {
                Ok((field, end)) => field_rule(buffer@, pos as int) == Ok::<
                    (FieldView, int),
                    Failure,
                >((field.view(), end as int)) && pos < end <= buffer@.len(),
                Err(e) => field_rule(buffer@, pos as int) == Err::<(FieldView, int), Failure>(e@),
            },
        decreases buffer@, 6int, 1int,
    {
        let member = outcome(parse_record_member(buffer.rest(pos)));
        FieldValue::parse_with_member(buffer, pos, member)
    }

    /// Reads one field at `pos`, where `member` is what the member parser
    /// made of the tokens from `pos` on: whether the member is named, its
    /// tokens and the number of tokens it left, or nothing. Behind the
    /// member a `:` is owed, named or not, and behind that a value.
    pub fn parse_with_member(
        buffer: &TokenBuffer,
        pos: usize,
        member: Option<(bool, TokenStream, usize)>,
    ) -> (r: Result<(FieldValue, usize), ParseError>)
        ensures
            match r {
                Ok((field, end)) => field_rule_with(
                    buffer@,
                    pos as int,
                    member_leaf_at(buffer@, pos as int, member_view(member)),
                ) == Ok::<(FieldView, int), Failure>((field.view(), end as int)) && pos < end
                    <= buffer@.len(),
                Err(e) => field_rule_with(
                    buffer@,
                    pos as int,
                    member_leaf_at(buffer@, pos as int, member_view(member)),
                ) == Err::<(FieldView, int), Failure>(e@),
            },
        decreases buffer@, 6int, 0int,
    {
        let n = buffer.len();
        match member {
            None => Err(ParseError::at(ErrorKind::ExpectedIdentifierOrLiteral, pos)),
            Some((named, tokens, left)) => {
                if pos >= n || left >= n - pos {
                    return Err(ParseError::at(ErrorKind::ExpectedIdentifierOrLiteral, pos));
                }
                let colon = n - left;
                if !buffer.punct_at(colon, ':') {
                    return Err(ParseError::at(ErrorKind::ExpectedSeparatorToken, colon));
                }
                match CustomExpr::parse(buffer, colon + 1) {
                    Ok((expr, end)) => Ok((FieldValue { member: Member { named, tokens }, expr }, end)),
                    Err(e) => Err(e),
                }
            },
        }
    }
}

impl ExprUnnamedStruct {
    /// Reads the record in the braced group at `pos`.
    pub fn parse(buffer: &TokenBuffer, pos: usize) -> (r: Result<
        (ExprUnnamedStruct, usize),
        ParseError,
    >)
        ensures
            match r {
                Ok((record, end)) => record_rule(buffer@, pos as int) == Ok::<
                    (RecordView, int),
                    Failure,
                >((record.view(), end as int)) && end == pos + 1 && end <= buffer@.len(),
                Err(e) => record_rule(buffer@, pos as int) == Err::<(RecordView, int), Failure>(e@),
            },
        decreases buffer@, 2int, 0int,
    {
        if pos >= buffer.len() || !buffer.group_at(pos, Delimiter::Brace) {
            return Err(ParseError::at(ErrorKind::ExpectedDelimiter, pos));
        }
        let inner = buffer.enter(pos);
        match ExprUnnamedStruct::parse_fields(&inner) {
            Ok(record) => Ok((record, pos + 1)),
            Err(e) => Err(e.within(pos)),
        }
    }

    /// Reads the fields of a record from the tokens inside its braces, up
    /// to their end or to a rest marker `..`, which is left unread with all
    /// that follows it.
    pub fn parse_fields(inner: &TokenBuffer) -> (r: Result<ExprUnnamedStruct, ParseError>)
        ensures
            match r {
                Ok(record) => fields_rule(inner@, 0, Seq::empty()) == Ok::<RecordView, Failure>(
                    record.view(),
                ),
                Err(e) => fields_rule(inner@, 0, Seq::empty()) == Err::<RecordView, Failure>(e@),
            },
        decreases inner@, 9int, inner@.len(),
    {
        let n = inner.len();
        let mut fields: Vec<FieldValue> = Vec::new();
        let mut pos: usize = 0;
        assert(fields_view(fields@) =~= Seq::empty());
        while pos < n
            invariant
                n == inner@.len(),
                pos <= n,
                fields_rule(inner@, 0, Seq::empty()) == fields_rule(
                    inner@,
                    pos as int,
                    fields_view(fields@),
                ),
            decreases n - pos,
        {
            if inner.punct_pair_at(pos, '.', '.') {
                let trailing_comma = fields.len() > 0;
                return Ok(ExprUnnamedStruct { fields, trailing_comma });
            }
            match FieldValue::parse(inner, pos) {
                Err(e) => {
                    return Err(e);
                },
                Ok((field, end)) => {
                    proof {
                        lemma_fields_view_push(fields@, field);
                    }
                    fields.push(field);
                    if end >= n {
                        return Ok(ExprUnnamedStruct { fields, trailing_comma: false });
                    }
                    if !inner.punct_at(end, ',') {
                        return Err(ParseError::at(ErrorKind::ExpectedSeparatorToken, end));
                    }
                    pos = end + 1;
                },
            }
        }
        let trailing_comma = fields.len() > 0;
        Ok(ExprUnnamedStruct { fields, trailing_comma })
    }
}

impl CustomExpr {
    /// Puts the tokens of the value behind those of `tokens`.
    pub fn to_tokens(&self, tokens: &mut TokenStream)
        ensures
            stream_tokens(*final(tokens)) == stream_tokens(*old(tokens)) + expr_tokens(self.view()),
        decreases self,
    {
        match self {
            CustomExpr::Expr(expr) => {
                stream_extend(tokens, expr);
            },
            CustomExpr::ExprUnnamedStruct(record) => {
                record.to_tokens(tokens);
                assert(stream_tokens(*tokens) =~= stream_tokens(*old(tokens)) + expr_tokens(
                    self.view(),
                ));
            },
        }
    }
}

impl FieldValue {
    /// Puts the tokens of the field behind those of `tokens`: member, `:`,
    /// value.
    pub fn to_tokens(&self, tokens: &mut TokenStream)
        ensures
            stream_tokens(*final(tokens)) == stream_tokens(*old(tokens)) + field_tokens(
                self.view(),
            ),
        decreases self,
    {
        stream_extend(tokens, &self.member.tokens);
        stream_push_punct(tokens, ':', false);
        self.expr.to_tokens(tokens);
        assert(stream_tokens(*tokens) =~= stream_tokens(*old(tokens)) + field_tokens(self.view()));
    }
}

impl ExprUnnamedStruct {
    /// Puts the record behind the tokens of `tokens`: a braced group around
    /// its fields, with `,` between them.
    pub fn to_tokens(&self, tokens: &mut TokenStream)
        ensures
            stream_tokens(*final(tokens)) == stream_tokens(*old(tokens)).push(
                TokenTree::Group(Delimiter::Brace, record_tokens(self.view())),
            ),
        decreases self,
    {
        let mut inner = stream_new();
        let ghost runs = field_runs(fields_view(self.fields@));
        let mut i: usize = 0;
        assert(joined(runs.take(0), alone(',')) =~= Seq::empty());
        while i < self.fields.len()
            invariant
                i <= self.fields@.len(),
                runs == field_runs(fields_view(self.fields@)),
                stream_tokens(inner) == joined(runs.take(i as int), alone(',')),
            decreases self.fields@.len() - i,
        {
            proof {
                lemma_joined_step(runs, alone(','), i as int);
            }
            if i > 0 {
                stream_push_punct(&mut inner, ',', false);
            }
            self.fields[i].to_tokens(&mut inner);
            assert(stream_tokens(inner) =~= joined(runs.take(i + 1), alone(',')));
            i += 1;
        }
        assert(runs.take(i as int) =~= runs);
        if self.trailing_comma {
            stream_push_punct(&mut inner, ',', false);
        }
        assert(stream_tokens(inner) =~= record_tokens(self.view()));
        stream_push_group(tokens, Delimiter::Brace, inner);
    }

    /// The tokens of the record, as a stream of their own.
    pub fn to_token_stream(&self) -> (tokens: TokenStream)
        ensures
            stream_tokens(tokens) == seq![
                TokenTree::Group(Delimiter::Brace, record_tokens(self.view())),
            ],
    {
        let mut tokens = stream_new();
        self.to_tokens(&mut tokens);
        assert(stream_tokens(tokens) =~= seq![
            TokenTree::Group(Delimiter::Brace, record_tokens(self.view())),
        ]);
        tokens
    }

    /// The canonical text of the record.
    pub fn render_text(&self) -> (text: String)
        ensures
            text@ == tokens_text(
                seq![TokenTree::Group(Delimiter::Brace, record_tokens(self.view()))],
            ),
    {
        stream_text(&self.to_token_stream())
    }
}

} // verus!
