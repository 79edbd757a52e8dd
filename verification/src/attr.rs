//! Metadata: paths, argument lists, `name = value` pairs, and the payload
//! they make up.

use crate::buffer::TokenBuffer;
use crate::error::{ErrorKind, Failure, ParseError};
use crate::expr::{CustomExpr, ExprUnnamedStruct};
use crate::grammar::{
    leaf_at, list_after_path_rule, meta_after_path_rule, meta_list_rule, meta_rule,
    name_value_after_path_rule, name_value_rule, nested_list_rule, nested_rule, nested_rule_with,
    paren_list_rule, path_rule, path_segments, payload_rule, value_rule, value_rule_with, ListView,
    MetaView, NestedView, PathView, PayloadView, ValueView,
};
use crate::host::{leaf_view, outcome, parse_scalar_literal};
use crate::render::{
    alone, joined, lemma_joined_step, list_tokens, meta_tokens, nested_runs, nested_tokens,
    path_sep, path_tokens, payload_tokens, punctuated, stream_text, tokens_text, value_tokens,
};
use crate::token::{
    stream_extend, stream_new, stream_push_group, stream_push_punct, stream_tokens, Delimiter,
    Token, TokenTree,
};
use proc_macro2::TokenStream;
use vstd::prelude::*;

verus! {

/// One segment of a path: an identifier or a reserved word.
pub struct PathSegment {
    name: String,
    token: TokenStream,
}

impl PathSegment {
    #[verifier::type_invariant]
    spec fn inv(self) -> bool {
        stream_tokens(self.token) == seq![TokenTree::Ident(self.name@)]
    }

    /// The text of the segment.
    pub closed spec fn view(&self) -> Seq<char> {
        self.name@
    }

    /// The text of the segment.
    pub fn name(&self) -> (name: &String)
        ensures
            name@ == self@,
    {
        &self.name
    }

    /// The segment at `pos`, where an identifier stands.
    fn read(buffer: &TokenBuffer, pos: usize) -> (segment: PathSegment)
        requires
            pos < buffer@.len(),
            buffer@[pos as int] is Ident,
        ensures
            segment@ == buffer@[pos as int]->Ident_0,
    {
        let token = buffer.single(pos);
        match buffer.token(pos) {
            Token::Ident(name) => PathSegment { name: name.clone(), token },
            _ => unreached(),
        }
    }
}

/// The texts of a run of segments.
pub open spec fn segments_view(segments: Seq<PathSegment>) -> Seq<Seq<char>> {
    Seq::new(segments.len(), |i: int| segments[i]@)
}

/// A path: one segment or more, joined by `::`, with or without a leading
/// `::`.
pub struct Path {
    leading_colon: bool,
    segments: Vec<PathSegment>,
}

impl Path {
    #[verifier::type_invariant]
    spec fn inv(self) -> bool {
        self.segments@.len() > 0
    }

    /// The path as a plain value.
    pub closed spec fn view(&self) -> PathView {
        PathView { leading_colon: self.leading_colon, segments: segments_view(self.segments@) }
    }

    /// Whether the path begins with `::`.
    pub fn leading_colon(&self) -> (b: bool)
        ensures
            b == self@.leading_colon,
    {
        self.leading_colon
    }

    /// The segments of the path, of which there is at least one.
    pub fn segments(&self) -> (segments: &Vec<PathSegment>)
        ensures
            segments_view(segments@) == self@.segments,
            segments@.len() > 0,
    {
        proof {
            use_type_invariant(self);
        }
        &self.segments
    }
}

/// The path that names a metadata node.
pub struct MetaPath(Path);

impl MetaPath {
    /// The path as a plain value.
    pub closed spec fn view(&self) -> PathView {
        self.0@
    }

    /// The path itself.
    pub fn get_inner(&self) -> (path: &Path)
        ensures
            path@ == self@,
    {
        &self.0
    }

    /// Reads a path at `pos`: an optional leading `::`, then identifiers
    /// joined by `::`. Reserved words count as identifiers.
    pub fn parse(buffer: &TokenBuffer, pos: usize) -> (r: Result<(MetaPath, usize), ParseError>)
        ensures
            match r {
                Ok((path, end)) => path_rule(buffer@, pos as int) == Ok::<(PathView, int), Failure>(
                    (path@, end as int),
                ) && pos < end <= buffer@.len(),
                Err(e) => path_rule(buffer@, pos as int) == Err::<(PathView, int), Failure>(e@),
            },
    {
        let n = buffer.len();
        let leading_colon = buffer.punct_pair_at(pos, ':', ':');
        let start: usize = if leading_colon {
            pos + 2
        } else {
            pos
        };
        let mut at: usize = start;
        let mut segments: Vec<PathSegment> = Vec::new();
        let mut after_sep = false;
        let mut done = false;
        assert(segments_view(segments@) =~= Seq::empty());
        while !done && buffer.ident_at(at)
            invariant
                n == buffer@.len(),
                start <= at,
                at <= n || at == start,
                !done ==> path_segments(buffer@, start as int, Seq::empty(), false)
                    == path_segments(buffer@, at as int, segments_view(segments@), after_sep),
                done ==> path_segments(buffer@, start as int, Seq::empty(), false) == (
                    segments_view(segments@),
                    at as int,
                    after_sep,
                ),
                at == start ==> segments@.len() == 0,
                segments@.len() == 0 ==> at == start,
            decreases n - at + if done {
                0int
            } else {
                1int
            },
        {
            let segment = PathSegment::read(buffer, at);
            assert(segments_view(segments@.push(segment)) =~= segments_view(segments@).push(
                segment@,
            ));
            segments.push(segment);
            if buffer.punct_pair_at(at + 1, ':', ':') {
                at = at + 3;
                after_sep = true;
            } else {
                at = at + 1;
                after_sep = false;
                done = true;
            }
        }
        if segments.len() == 0 {
            Err(ParseError::at(ErrorKind::EmptyPath, at))
        } else if after_sep {
            Err(ParseError::at(ErrorKind::TrailingSeparator, at))
        } else {
            Ok((MetaPath(Path { leading_colon, segments }), at))
        }
    }
}

/// A scalar literal, kept as the tokens it is written with.
pub struct Lit {
    pub tokens: TokenStream,
}

impl Lit {
    /// The tokens of the literal, as plain values.
    pub open spec fn view(&self) -> Seq<TokenTree> {
        stream_tokens(self.tokens)
    }
}

/// A parenthesized argument list without a name: `( ... )`.
pub struct UnnamedMetaList {
    pub nested: Vec<NestedMeta>,
    pub trailing_comma: bool,
}

/// A name with a parenthesized argument list: `name( ... )`.
pub struct MetaList {
    pub path: MetaPath,
    pub nested: Vec<NestedMeta>,
    pub trailing_comma: bool,
}

/// What can stand behind `=`.
pub enum MetaValue {
    Lit(Lit),
    ExprUnnamedStruct(ExprUnnamedStruct),
    UnnamedMetaList(UnnamedMetaList),
}

/// A name and its value: `name = value`.
pub struct MetaNameValue {
    pub path: MetaPath,
    pub value: MetaValue,
}

/// One element of an argument list.
pub enum NestedMeta {
    Meta(Meta),
    Lit(Lit),
    /// Kept for a later extension of the grammar: no rule yields it.
    Expr(CustomExpr),
}

/// One node of metadata.
pub enum Meta {
    Path(MetaPath),
    List(MetaList),
    UnnamedList(UnnamedMetaList),
    NameValue(MetaNameValue),
}

/// Comma-separated metadata nodes: what stands between the brackets of an
/// annotation.
pub struct Payload {
    pub items: Vec<Meta>,
    pub trailing_comma: bool,
}

/// The plain values of a run of elements.
pub open spec fn nested_view(nested: Seq<NestedMeta>) -> Seq<NestedView>
    decreases nested,
{
    Seq::new(
        nested.len(),
        |i: int|
            if 0 <= i < nested.len() {
                nested[i].view()
            } else {
                arbitrary()
            },
    )
}

/// The plain values of a run of metadata nodes.
pub open spec fn metas_view(items: Seq<Meta>) -> Seq<MetaView> {
    Seq::new(items.len(), |i: int| items[i].view())
}

impl UnnamedMetaList {
    /// The list as a plain value.
    pub open spec fn view(&self) -> ListView
        decreases self,
    {
        ListView { items: nested_view(self.nested@), trailing_comma: self.trailing_comma }
    }
}

impl MetaList {
    /// The argument list, without the name.
    pub open spec fn list_view(&self) -> ListView
        decreases self,
    {
        ListView { items: nested_view(self.nested@), trailing_comma: self.trailing_comma }
    }
}

impl MetaValue {
    /// The value as a plain value.
    pub open spec fn view(&self) -> ValueView
        decreases self,
    {
        match self {
            MetaValue::Lit(lit) => ValueView::Lit(lit@),
            MetaValue::ExprUnnamedStruct(record) => ValueView::Record(record.view()),
            MetaValue::UnnamedMetaList(list) => ValueView::UnnamedList(list.view()),
        }
    }
}

impl NestedMeta {
    /// The element as a plain value.
    pub open spec fn view(&self) -> NestedView
        decreases self,
    {
        match self {
            NestedMeta::Meta(meta) => NestedView::Meta(meta.view()),
            NestedMeta::Lit(lit) => NestedView::Lit(lit@),
            NestedMeta::Expr(expr) => NestedView::Expr(expr.view()),
        }
    }
}

impl Meta {
    /// The node as a plain value.
    pub open spec fn view(&self) -> MetaView
        decreases self,
    {
        match self {
            Meta::Path(path) => MetaView::Path(path@),
            Meta::List(list) => MetaView::List(list.path@, list.list_view()),
            Meta::UnnamedList(list) => MetaView::UnnamedList(list.view()),
            Meta::NameValue(pair) => MetaView::NameValue(pair.path@, pair.value.view()),
        }
    }
}

impl Payload {
    /// The payload as a plain value.
    pub open spec fn view(&self) -> PayloadView {
        PayloadView { items: metas_view(self.items@), trailing_comma: self.trailing_comma }
    }
}

/// The plain values of a run with one more element are those of the run,
/// and that of the element behind them.
pub proof fn lemma_nested_view_push(nested: Seq<NestedMeta>, item: NestedMeta)
    ensures
        nested_view(nested.push(item)) == nested_view(nested).push(item.view()),
{
    assert(nested_view(nested.push(item)) =~= nested_view(nested).push(item.view()));
}

impl UnnamedMetaList {
    /// Reads the parenthesized argument list at `pos`.
    pub fn parse(buffer: &TokenBuffer, pos: usize) -> (r: Result<
        (UnnamedMetaList, usize),
        ParseError,
    >)
        ensures
            match r {
                Ok((list, end)) => paren_list_rule(buffer@, pos as int) == Ok::<
                    (ListView, int),
                    Failure,
                >((list.view(), end as int)) && end == pos + 1 && end <= buffer@.len(),
                Err(e) => paren_list_rule(buffer@, pos as int) == Err::<(ListView, int), Failure>(
                    e@,
                ),
            },
        decreases buffer@, 2int, 0int,
    {
        if pos >= buffer.len() || !buffer.group_at(pos, Delimiter::Parenthesis) {
            return Err(ParseError::at(ErrorKind::ExpectedDelimiter, pos));
        }
        let inner = buffer.enter(pos);
        match UnnamedMetaList::parse_nested(&inner) {
            Ok(list) => Ok((list, pos + 1)),
            Err(e) => Err(e.within(pos)),
        }
    }

    /// Reads the elements of an argument list from the tokens inside its
    /// parentheses: separated by commas, the last with or without one.
    pub fn parse_nested(inner: &TokenBuffer) -> (r: Result<UnnamedMetaList, ParseError>)
        ensures
            match r {
                Ok(list) => nested_list_rule(inner@, 0, Seq::empty()) == Ok::<ListView, Failure>(
                    list.view(),
                ),
                Err(e) => nested_list_rule(inner@, 0, Seq::empty()) == Err::<ListView, Failure>(
                    e@,
                ),
            },
        decreases inner@, 9int, inner@.len(),
    {
        let n = inner.len();
        let mut nested: Vec<NestedMeta> = Vec::new();
        let mut pos: usize = 0;
        assert(nested_view(nested@) =~= Seq::empty());
        while pos < n
            invariant
                n == inner@.len(),
                pos <= n,
                nested_list_rule(inner@, 0, Seq::empty()) == nested_list_rule(
                    inner@,
                    pos as int,
                    nested_view(nested@),
                ),
            decreases n - pos,
        {
            match NestedMeta::parse(inner, pos) {
                Err(e) => {
                    return Err(e);
                },
                Ok((item, end)) => {
                    proof {
                        lemma_nested_view_push(nested@, item);
                    }
                    nested.push(item);
                    if end >= n {
                        return Ok(UnnamedMetaList { nested, trailing_comma: false });
                    }
                    if !inner.punct_at(end, ',') {
                        return Err(ParseError::at(ErrorKind::ExpectedSeparatorToken, end));
                    }
                    pos = end + 1;
                },
            }
        }
        let trailing_comma = nested.len() > 0;
        Ok(UnnamedMetaList { nested, trailing_comma })
    }
}

impl NestedMeta {
    /// Reads one element of an argument list at `pos`: a literal, unless it
    /// is `true` or `false` with `=` behind it; else a metadata node, where
    /// a path can start.
    pub fn parse(buffer: &TokenBuffer, pos: usize) -> (r: Result<(NestedMeta, usize), ParseError>)
        ensures
            match r {
                Ok((item, end)) => nested_rule(buffer@, pos as int) == Ok::<
                    (NestedView, int),
                    Failure,
                >((item.view(), end as int)) && pos < end <= buffer@.len() && !(item is Expr),
                Err(e) => nested_rule(buffer@, pos as int) == Err::<(NestedView, int), Failure>(
                    e@,
                ),
            },
        decreases buffer@, 8int, 1int,
    {
        let literal = outcome(parse_scalar_literal(buffer.rest(pos)));
        NestedMeta::parse_with_literal(buffer, pos, literal)
    }

    /// Reads one element of an argument list at `pos`, where `literal` is
    /// what the literal parser made of the tokens from `pos` on: the tokens
    /// of the literal and the number of tokens it left, or nothing. The
    /// literal, if it took a token and left no more than were there, unless
    /// it is `true` or `false` with `=` behind it; else a metadata node,
    /// where a path can start.
    pub fn parse_with_literal(
        buffer: &TokenBuffer,
        pos: usize,
        literal: Option<(TokenStream, usize)>,
    ) -> (r: Result<(NestedMeta, usize), ParseError>)
        ensures
            match r {
                Ok((item, end)) => nested_rule_with(
                    buffer@,
                    pos as int,
                    leaf_at(buffer@, pos as int, leaf_view(literal)),
                ) == Ok::<(NestedView, int), Failure>((item.view(), end as int)) && pos < end
                    <= buffer@.len() && !(item is Expr),
                Err(e) => nested_rule_with(
                    buffer@,
                    pos as int,
                    leaf_at(buffer@, pos as int, leaf_view(literal)),
                ) == Err::<(NestedView, int), Failure>(e@),
            },
        decreases buffer@, 8int, 0int,
    {
        let n = buffer.len();
        let named_bool = buffer.bool_word_at(pos) && buffer.punct_at(pos + 1, '=');
        match literal {
            Some((tokens, left)) => {
                if pos < n && left < n - pos && !named_bool {
                    return Ok((NestedMeta::Lit(Lit { tokens }), n - left));
                }
            },
            None => {},
        }
        if buffer.ident_at(pos) || (buffer.punct_pair_at(pos, ':', ':') && buffer.ident_at(
            pos + 2,
        )) {
            match Meta::parse(buffer, pos) {
                Ok((meta, end)) => Ok((NestedMeta::Meta(meta), end)),
                Err(e) => Err(e),
            }
        } else {
            Err(ParseError::at(ErrorKind::ExpectedIdentifierOrLiteral, pos))
        }
    }
}

impl Meta {
    /// Reads a metadata node at `pos`: a parenthesized list, or a path and
    /// what follows it.
    pub fn parse(buffer: &TokenBuffer, pos: usize) -> (r: Result<(Meta, usize), ParseError>)
        ensures
            match r {
                Ok((meta, end)) => meta_rule(buffer@, pos as int) == Ok::<(MetaView, int), Failure>(
                    (meta.view(), end as int),
                ) && pos < end <= buffer@.len(),
                Err(e) => meta_rule(buffer@, pos as int) == Err::<(MetaView, int), Failure>(e@),
            },
        decreases buffer@, 7int, 0int,
    {
        if buffer.group_at(pos, Delimiter::Parenthesis) {
            match UnnamedMetaList::parse(buffer, pos) {
                Ok((list, end)) => Ok((Meta::UnnamedList(list), end)),
                Err(e) => Err(e),
            }
        } else {
            match MetaPath::parse(buffer, pos) {
                Ok((path, end)) => parse_meta_after_path(path, buffer, end),
                Err(e) => Err(e),
            }
        }
    }
}

/// Reads what follows the path of a metadata node, at `pos`: a
/// parenthesized list, `=` and a value, or nothing.
pub fn parse_meta_after_path(path: MetaPath, buffer: &TokenBuffer, pos: usize) -> (r: Result<
    (Meta, usize),
    ParseError,
>)
    ensures
        match r {
            Ok((meta, end)) => meta_after_path_rule(buffer@, path@, pos as int)
                == Ok::<(MetaView, int), Failure>((meta.view(), end as int)) && pos <= end && (pos
                < end ==> end <= buffer@.len()),
            Err(e) => meta_after_path_rule(buffer@, path@, pos as int) == Err::<
                (MetaView, int),
                Failure,
            >(e@),
        },
    decreases buffer@, 6int, 0int,
{
    if buffer.group_at(pos, Delimiter::Parenthesis) {
        match parse_meta_list_after_path(path, buffer, pos) {
            Ok((list, end)) => Ok((Meta::List(list), end)),
            Err(e) => Err(e),
        }
    } else if buffer.punct_at(pos, '=') {
        match parse_meta_name_value_after_path(path, buffer, pos) {
            Ok((pair, end)) => Ok((Meta::NameValue(pair), end)),
            Err(e) => Err(e),
        }
    } else {
        Ok((Meta::Path(path), pos))
    }
}

/// Reads the parenthesized list that is owed behind a path, at `pos`.
fn parse_meta_list_after_path(path: MetaPath, buffer: &TokenBuffer, pos: usize) -> (r: Result<
    (MetaList, usize),
    ParseError,
>)
    ensures
        match r {
            Ok((list, end)) => list_after_path_rule(buffer@, path@, pos as int) == Ok::<
                ((PathView, ListView), int),
                Failure,
            >(((list.path@, list.list_view()), end as int)) && end == pos + 1 && end
                <= buffer@.len(),
            Err(e) => list_after_path_rule(buffer@, path@, pos as int) == Err::<
                ((PathView, ListView), int),
                Failure,
            >(e@),
        },
    decreases buffer@, 5int, 0int,
{
    match UnnamedMetaList::parse(buffer, pos) {
        Ok((list, end)) => Ok(
            (MetaList { path, nested: list.nested, trailing_comma: list.trailing_comma }, end),
        ),
        Err(e) => Err(e),
    }
}

/// Reads the `=` and the value that are owed behind a path, at `pos`.
fn parse_meta_name_value_after_path(path: MetaPath, buffer: &TokenBuffer, pos: usize) -> (r:
    Result<(MetaNameValue, usize), ParseError>)
    ensures
        match r {
            Ok((pair, end)) => name_value_after_path_rule(buffer@, path@, pos as int) == Ok::<
                ((PathView, ValueView), int),
                Failure,
            >(((pair.path@, pair.value.view()), end as int)) && pos < end <= buffer@.len(),
            Err(e) => name_value_after_path_rule(buffer@, path@, pos as int) == Err::<
                ((PathView, ValueView), int),
                Failure,
            >(e@),
        },
    decreases buffer@, 5int, 0int,
{
    if pos >= buffer.len() || !buffer.punct_at(pos, '=') {
        return Err(ParseError::at(ErrorKind::ExpectedSeparatorToken, pos));
    }
    match MetaValue::parse(buffer, pos + 1) {
        Ok((value, end)) => Ok((MetaNameValue { path, value }, end)),
        Err(e) => Err(e),
    }
}

impl MetaValue {
    /// Reads the value of a `name = value` pair at `pos`: a parenthesized
    /// list, a record, or a literal.
    pub fn parse(buffer: &TokenBuffer, pos: usize) -> (r: Result<(MetaValue, usize), ParseError>)
        ensures
            match r {
                Ok((value, end)) => value_rule(buffer@, pos as int) == Ok::<
                    (ValueView, int),
                    Failure,
                >((value.view(), end as int)) && pos < end <= buffer@.len(),
                Err(e) => value_rule(buffer@, pos as int) == Err::<(ValueView, int), Failure>(e@),
            },
        decreases buffer@, 4int, 1int,
    {
        let literal = if buffer.group_at(pos, Delimiter::Parenthesis) || buffer.group_at(
            pos,
            Delimiter::Brace,
        ) {
            None
        } else {
            outcome(parse_scalar_literal(buffer.rest(pos)))
        };
        MetaValue::parse_with_literal(buffer, pos, literal)
    }

    /// Reads the value of a `name = value` pair at `pos`, where `literal`
    /// is what the literal parser made of the tokens from `pos` on: the
    /// tokens of the literal and the number of tokens it left, or nothing.
    /// A list where a parenthesis opens, a record where a brace opens; else
    /// the literal, if it took a token and left no more than were there.
    pub fn parse_with_literal(
        buffer: &TokenBuffer,
        pos: usize,
        literal: Option<(TokenStream, usize)>,
    ) -> (r: Result<(MetaValue, usize), ParseError>)
        ensures
            match r {
                Ok((value, end)) => value_rule_with(
                    buffer@,
                    pos as int,
                    leaf_at(buffer@, pos as int, leaf_view(literal)),
                ) == Ok::<(ValueView, int), Failure>((value.view(), end as int)) && pos < end
                    <= buffer@.len(),
                Err(e) => value_rule_with(
                    buffer@,
                    pos as int,
                    leaf_at(buffer@, pos as int, leaf_view(literal)),
                ) == Err::<(ValueView, int), Failure>(e@),
            },
        decreases buffer@, 4int, 0int,
    {
        let n = buffer.len();
        if buffer.group_at(pos, Delimiter::Parenthesis) {
            match UnnamedMetaList::parse(buffer, pos) {
                Ok((list, end)) => Ok((MetaValue::UnnamedMetaList(list), end)),
                Err(e) => Err(e),
            }
        } else if buffer.group_at(pos, Delimiter::Brace) {
            match ExprUnnamedStruct::parse(buffer, pos) {
                Ok((record, end)) => Ok((MetaValue::ExprUnnamedStruct(record), end)),
                Err(e) => Err(e),
            }
        } else {
            match literal {
                Some((tokens, left)) => {
                    if pos < n && left < n - pos {
                        Ok((MetaValue::Lit(Lit { tokens }), n - left))
                    } else {
                        Err(ParseError::at(ErrorKind::MalformedLiteral, pos))
                    }
                },
                None => Err(ParseError::at(ErrorKind::MalformedLiteral, pos)),
            }
        }
    }
}

impl MetaList {
    /// Reads a path and the parenthesized list behind it, at `pos`.
    pub fn parse(buffer: &TokenBuffer, pos: usize) -> (r: Result<(MetaList, usize), ParseError>)
        ensures
            match r {
                Ok((list, end)) => meta_list_rule(buffer@, pos as int) == Ok::<
                    ((PathView, ListView), int),
                    Failure,
                >(((list.path@, list.list_view()), end as int)) && pos < end <= buffer@.len(),
                Err(e) => meta_list_rule(buffer@, pos as int) == Err::<
                    ((PathView, ListView), int),
                    Failure,
                >(e@),
            },
    {
        match MetaPath::parse(buffer, pos) {
            Ok((path, end)) => parse_meta_list_after_path(path, buffer, end),
            Err(e) => Err(e),
        }
    }
}

impl MetaNameValue {
    /// Reads a path, `=` and a value, at `pos`.
    pub fn parse(buffer: &TokenBuffer, pos: usize) -> (r: Result<(MetaNameValue, usize), ParseError>)
        ensures
            match r {
                Ok((pair, end)) => name_value_rule(buffer@, pos as int) == Ok::<
                    ((PathView, ValueView), int),
                    Failure,
                >(((pair.path@, pair.value.view()), end as int)) && pos < end <= buffer@.len(),
                Err(e) => name_value_rule(buffer@, pos as int) == Err::<
                    ((PathView, ValueView), int),
                    Failure,
                >(e@),
            },
    {
        match MetaPath::parse(buffer, pos) {
            Ok((path, end)) => parse_meta_name_value_after_path(path, buffer, end),
            Err(e) => Err(e),
        }
    }
}

impl Payload {
    /// Reads a whole buffer as a payload: metadata nodes separated by
    /// commas, the last with or without one.
    pub fn parse(buffer: &TokenBuffer) -> (r: Result<Payload, ParseError>)
        ensures
            match r {
                Ok(payload) => payload_rule(buffer@, 0, Seq::empty()) == Ok::<PayloadView, Failure>(
                    payload@,
                ),
                Err(e) => payload_rule(buffer@, 0, Seq::empty()) == Err::<PayloadView, Failure>(
                    e@,
                ),
            },
    {
        let n = buffer.len();
        let mut items: Vec<Meta> = Vec::new();
        let mut pos: usize = 0;
        assert(metas_view(items@) =~= Seq::empty());
        while pos < n
            invariant
                n == buffer@.len(),
                pos <= n,
                payload_rule(buffer@, 0, Seq::empty()) == payload_rule(
                    buffer@,
                    pos as int,
                    metas_view(items@),
                ),
            decreases n - pos,
        {
            match Meta::parse(buffer, pos) {
                Err(e) => {
                    return Err(e);
                },
                Ok((item, end)) => {
                    assert(metas_view(items@.push(item)) =~= metas_view(items@).push(item.view()));
                    items.push(item);
                    if end >= n {
                        return Ok(Payload { items, trailing_comma: false });
                    }
                    if !buffer.punct_at(end, ',') {
                        return Err(ParseError::at(ErrorKind::ExpectedSeparatorToken, end));
                    }
                    pos = end + 1;
                },
            }
        }
        let trailing_comma = items.len() > 0;
        Ok(Payload { items, trailing_comma })
    }
}

impl MetaPath {
    /// Puts the tokens of the path behind those of `tokens`: its segments
    /// with `::` between them, and before them where the path leads with
    /// one.
    pub fn to_tokens(&self, tokens: &mut TokenStream)
        ensures
            stream_tokens(*final(tokens)) == stream_tokens(*old(tokens)) + path_tokens(self@),
    {
        let path = &self.0;
        let ghost before = stream_tokens(*tokens);
        let ghost runs = Seq::new(
            path@.segments.len(),
            |i: int| seq![TokenTree::Ident(path@.segments[i])],
        );
        if path.leading_colon {
            stream_push_punct(tokens, ':', true);
            stream_push_punct(tokens, ':', false);
        }
        let ghost lead = if path.leading_colon {
            path_sep()
        } else {
            Seq::empty()
        };
        let mut i: usize = 0;
        assert(joined(runs.take(0), path_sep()) =~= Seq::empty());
        assert(stream_tokens(*tokens) =~= before + lead);
        while i < path.segments.len()
            invariant
                i <= path.segments@.len(),
                runs == Seq::new(
                    path@.segments.len(),
                    |i: int| seq![TokenTree::Ident(path@.segments[i])],
                ),
                path@.segments == segments_view(path.segments@),
                stream_tokens(*tokens) == before + lead + joined(runs.take(i as int), path_sep()),
            decreases path.segments@.len() - i,
        {
            proof {
                lemma_joined_step(runs, path_sep(), i as int);
            }
            if i > 0 {
                stream_push_punct(tokens, ':', true);
                stream_push_punct(tokens, ':', false);
            }
            let segment = &path.segments[i];
            proof {
                use_type_invariant(segment);
            }
            stream_extend(tokens, &segment.token);
            assert(stream_tokens(*tokens) =~= before + lead + joined(
                runs.take(i + 1),
                path_sep(),
            ));
            i += 1;
        }
        assert(runs.take(i as int) =~= runs);
        assert(stream_tokens(*tokens) =~= before + path_tokens(self@));
    }
}

impl Lit {
    /// Puts the tokens of the literal behind those of `tokens`.
    pub fn to_tokens(&self, tokens: &mut TokenStream)
        ensures
            stream_tokens(*final(tokens)) == stream_tokens(*old(tokens)) + self@,
    {
        stream_extend(tokens, &self.tokens);
    }
}

/// Puts the elements of an argument list behind the tokens of `tokens`,
/// with `,` between them, and behind the last where the list has one there.
fn nested_to_tokens(nested: &Vec<NestedMeta>, trailing_comma: bool, tokens: &mut TokenStream)
    ensures
        stream_tokens(*final(tokens)) == stream_tokens(*old(tokens)) + punctuated(
            nested_runs(nested_view(nested@)),
            alone(','),
            trailing_comma,
        ),
    decreases nested,
{
    let ghost before = stream_tokens(*tokens);
    let ghost runs = nested_runs(nested_view(nested@));
    let mut i: usize = 0;
    assert(joined(runs.take(0), alone(',')) =~= Seq::empty());
    assert(stream_tokens(*tokens) =~= before + joined(runs.take(0), alone(',')));
    while i < nested.len()
        invariant
            i <= nested@.len(),
            runs == nested_runs(nested_view(nested@)),
            stream_tokens(*tokens) == before + joined(runs.take(i as int), alone(',')),
        decreases nested@.len() - i,
    {
        proof {
            lemma_joined_step(runs, alone(','), i as int);
        }
        if i > 0 {
            stream_push_punct(tokens, ',', false);
        }
        nested[i].to_tokens(tokens);
        assert(stream_tokens(*tokens) =~= before + joined(runs.take(i + 1), alone(',')));
        i += 1;
    }
    assert(runs.take(i as int) =~= runs);
    if trailing_comma {
        stream_push_punct(tokens, ',', false);
    }
    assert(stream_tokens(*tokens) =~= before + punctuated(runs, alone(','), trailing_comma));
}

impl UnnamedMetaList {
    /// Puts the list behind the tokens of `tokens`: a parenthesized group
    /// around its elements.
    pub fn to_tokens(&self, tokens: &mut TokenStream)
        ensures
            stream_tokens(*final(tokens)) == stream_tokens(*old(tokens)).push(
                TokenTree::Group(Delimiter::Parenthesis, list_tokens(self.view())),
            ),
        decreases self,
    {
        let mut inner = stream_new();
        nested_to_tokens(&self.nested, self.trailing_comma, &mut inner);
        assert(stream_tokens(inner) =~= list_tokens(self.view()));
        stream_push_group(tokens, Delimiter::Parenthesis, inner);
    }
}

impl MetaList {
    /// Puts the list behind the tokens of `tokens`: its path, then a
    /// parenthesized group around its elements.
    pub fn to_tokens(&self, tokens: &mut TokenStream)
        ensures
            stream_tokens(*final(tokens)) == stream_tokens(*old(tokens)) + path_tokens(
                self.path@,
            ).push(TokenTree::Group(Delimiter::Parenthesis, list_tokens(self.list_view()))),
        decreases self,
    {
        self.path.to_tokens(tokens);
        let mut inner = stream_new();
        nested_to_tokens(&self.nested, self.trailing_comma, &mut inner);
        assert(stream_tokens(inner) =~= list_tokens(self.list_view()));
        stream_push_group(tokens, Delimiter::Parenthesis, inner);
        assert(stream_tokens(*tokens) =~= stream_tokens(*old(tokens)) + path_tokens(
            self.path@,
        ).push(TokenTree::Group(Delimiter::Parenthesis, list_tokens(self.list_view()))));
    }
}

impl MetaValue {
    /// Puts the tokens of the value behind those of `tokens`.
    pub fn to_tokens(&self, tokens: &mut TokenStream)
        ensures
            stream_tokens(*final(tokens)) == stream_tokens(*old(tokens)) + value_tokens(
                self.view(),
            ),
        decreases self,
    {
        match self {
            MetaValue::Lit(lit) => {
                lit.to_tokens(tokens);
            },
            MetaValue::ExprUnnamedStruct(record) => {
                record.to_tokens(tokens);
            },
            MetaValue::UnnamedMetaList(list) => {
                list.to_tokens(tokens);
            },
        }
        assert(stream_tokens(*tokens) =~= stream_tokens(*old(tokens)) + value_tokens(self.view()));
    }
}

impl MetaNameValue {
    /// Puts the pair behind the tokens of `tokens`: path, `=`, value.
    pub fn to_tokens(&self, tokens: &mut TokenStream)
        ensures
            stream_tokens(*final(tokens)) == stream_tokens(*old(tokens)) + (path_tokens(self.path@)
                + alone('=') + value_tokens(self.value.view())),
        decreases self,
    {
        self.path.to_tokens(tokens);
        stream_push_punct(tokens, '=', false);
        self.value.to_tokens(tokens);
        assert(stream_tokens(*tokens) =~= stream_tokens(*old(tokens)) + (path_tokens(self.path@)
            + alone('=') + value_tokens(self.value.view())));
    }
}

impl NestedMeta {
    /// Puts the tokens of the element behind those of `tokens`.
    pub fn to_tokens(&self, tokens: &mut TokenStream)
        ensures
            stream_tokens(*final(tokens)) == stream_tokens(*old(tokens)) + nested_tokens(
                self.view(),
            ),
        decreases self,
    {
        match self {
            NestedMeta::Meta(meta) => {
                meta.to_tokens(tokens);
            },
            NestedMeta::Lit(lit) => {
                lit.to_tokens(tokens);
            },
            NestedMeta::Expr(expr) => {
                expr.to_tokens(tokens);
            },
        }
    }
}

impl Meta {
    /// Puts the tokens of the node behind those of `tokens`.
    pub fn to_tokens(&self, tokens: &mut TokenStream)
        ensures
            stream_tokens(*final(tokens)) == stream_tokens(*old(tokens)) + meta_tokens(self.view()),
        decreases self,
    {
        match self {
            Meta::Path(path) => {
                path.to_tokens(tokens);
            },
            Meta::List(list) => {
                list.to_tokens(tokens);
            },
            Meta::UnnamedList(list) => {
                list.to_tokens(tokens);
            },
            Meta::NameValue(pair) => {
                pair.to_tokens(tokens);
            },
        }
        assert(stream_tokens(*tokens) =~= stream_tokens(*old(tokens)) + meta_tokens(self.view()));
    }

    /// The tokens of the node, as a stream of their own.
    pub fn to_token_stream(&self) -> (tokens: TokenStream)
        ensures
            stream_tokens(tokens) == meta_tokens(self.view()),
    {
        let mut tokens = stream_new();
        self.to_tokens(&mut tokens);
        assert(stream_tokens(tokens) =~= meta_tokens(self.view()));
        tokens
    }

    /// The canonical text of the node.
    pub fn render_text(&self) -> (text: String)
        ensures
            text@ == tokens_text(meta_tokens(self.view())),
    {
        stream_text(&self.to_token_stream())
    }
}

impl Payload {
    /// Puts the tokens of the payload behind those of `tokens`: its nodes
    /// with `,` between them, and behind the last where the payload has one
    /// there.
    pub fn to_tokens(&self, tokens: &mut TokenStream)
        ensures
            stream_tokens(*final(tokens)) == stream_tokens(*old(tokens)) + payload_tokens(self@),
    {
        let ghost before = stream_tokens(*tokens);
        let ghost runs = Seq::new(self@.items.len(), |i: int| meta_tokens(self@.items[i]));
        let mut i: usize = 0;
        assert(joined(runs.take(0), alone(',')) =~= Seq::empty());
        assert(stream_tokens(*tokens) =~= before + joined(runs.take(0), alone(',')));
        while i < self.items.len()
            invariant
                i <= self.items@.len(),
                runs == Seq::new(self@.items.len(), |i: int| meta_tokens(self@.items[i])),
                stream_tokens(*tokens) == before + joined(runs.take(i as int), alone(',')),
            decreases self.items@.len() - i,
        {
            proof {
                lemma_joined_step(runs, alone(','), i as int);
            }
            if i > 0 {
                stream_push_punct(tokens, ',', false);
            }
            self.items[i].to_tokens(tokens);
            assert(stream_tokens(*tokens) =~= before + joined(runs.take(i + 1), alone(',')));
            i += 1;
        }
        assert(runs.take(i as int) =~= runs);
        if self.trailing_comma {
            stream_push_punct(tokens, ',', false);
        }
        assert(stream_tokens(*tokens) =~= before + payload_tokens(self@));
    }

    /// The tokens of the payload, as a stream of their own.
    pub fn to_token_stream(&self) -> (tokens: TokenStream)
        ensures
            stream_tokens(tokens) == payload_tokens(self@),
    {
        let mut tokens = stream_new();
        self.to_tokens(&mut tokens);
        assert(stream_tokens(tokens) =~= payload_tokens(self@));
        tokens
    }

    /// The canonical text of the payload.
    pub fn render_text(&self) -> (text: String)
        ensures
            text@ == tokens_text(payload_tokens(self@)),
    {
        stream_text(&self.to_token_stream())
    }
}

} // verus!
