//! What holds of the grammar's rules on every input.

use crate::error::Failure;
use crate::grammar::{
    bool_word_at, custom_expr_rule, field_rule, fields_rule, group_at, group_inner, ident_at,
    meta_after_path_rule, meta_rule, nested_list_rule, nested_rule, nested_rule_with,
    paren_list_rule, path_rule, path_segments, path_sep_at, payload_rule, punct_at, record_rule,
    rest_marker_at, value_rule, ExprView, FieldView, ListView, MetaView, NestedView, PathView,
    RecordView, ValueView,
};
use crate::render::{
    alone, is_joint, joined, meta_tokens, payload_tokens, token_text, tokens_text,
};
use crate::token::{Delimiter, TokenTree};
use vstd::prelude::*;

verus! {

/// Reading segments never goes back, never loses a segment, and takes no
/// token beyond the end; where it takes none, it changes nothing.
pub proof fn lemma_path_segments_bounds(
    tokens: Seq<TokenTree>,
    pos: int,
    found: Seq<Seq<char>>,
    after_sep: bool,
)
    ensures
        ({
            let (segments, end, trailing) = path_segments(tokens, pos, found, after_sep);
            &&& pos <= end
            &&& pos < end ==> end <= tokens.len()
            &&& found.len() <= segments.len()
            &&& end == pos ==> segments == found && trailing == after_sep
            &&& !trailing && segments.len() > found.len() ==> pos < end
        }),
    decreases tokens.len() - pos,
{
    if ident_at(tokens, pos) && path_sep_at(tokens, pos + 1) {
        lemma_path_segments_bounds(tokens, pos + 3, found.push(tokens[pos]->Ident_0), true);
    }
}

/// A path that parses has a segment, and takes at least one token and none
/// beyond the end.
pub proof fn lemma_path_rule_bounds(tokens: Seq<TokenTree>, pos: int)
    ensures
        path_rule(tokens, pos) matches Ok((path, end)) ==> path.segments.len() > 0 && pos < end
            <= tokens.len(),
{
    let start = if path_sep_at(tokens, pos) {
        pos + 2
    } else {
        pos
    };
    lemma_path_segments_bounds(tokens, start, Seq::empty(), false);
}

/// A value that parses takes at least one token and none beyond the end.
pub proof fn lemma_value_rule_bounds(tokens: Seq<TokenTree>, pos: int)
    ensures
        value_rule(tokens, pos) matches Ok((_, end)) ==> pos < end <= tokens.len(),
{
}

/// A metadata node that parses takes at least one token and none beyond
/// the end.
pub proof fn lemma_meta_rule_bounds(tokens: Seq<TokenTree>, pos: int)
    ensures
        meta_rule(tokens, pos) matches Ok((_, end)) ==> pos < end <= tokens.len(),
{
    if !group_at(tokens, pos, Delimiter::Parenthesis) {
        lemma_path_rule_bounds(tokens, pos);
        if let Ok((path, end)) = path_rule(tokens, pos) {
            if punct_at(tokens, end, '=') {
                lemma_value_rule_bounds(tokens, end + 1);
            }
        }
    }
}

/// An element of an argument list that parses takes at least one token and
/// none beyond the end, so the elements of a list are read one behind the
/// other; and it is a literal or a metadata node, never an expression.
pub proof fn lemma_nested_rule_bounds(tokens: Seq<TokenTree>, pos: int)
    ensures
        nested_rule(tokens, pos) matches Ok((item, end)) ==> pos < end <= tokens.len() && !(item is Expr),
{
    lemma_meta_rule_bounds(tokens, pos);
}

/// A field value that parses takes at least one token and none beyond the
/// end.
pub proof fn lemma_custom_expr_rule_bounds(tokens: Seq<TokenTree>, pos: int)
    ensures
        custom_expr_rule(tokens, pos) matches Ok((_, end)) ==> pos < end <= tokens.len(),
{
}

/// A field that parses takes at least three tokens, member, `:` and value,
/// and none beyond the end, so the fields of a record are read one behind
/// the other.
pub proof fn lemma_field_rule_bounds(tokens: Seq<TokenTree>, pos: int)
    ensures
        field_rule(tokens, pos) matches Ok((_, end)) ==> pos + 3 <= end <= tokens.len(),
{
    if let Ok((field, end)) = field_rule(tokens, pos) {
        let colon = crate::grammar::member_at(tokens, pos).unwrap().2;
        lemma_custom_expr_rule_bounds(tokens, colon + 1);
    }
}

/// The word `true` or `false` with `=` behind it is the name of a value,
/// whatever the literal parser makes of it: as an element of an argument
/// list, and as a metadata node, it parses as the pair of that name and
/// the value behind the `=`, and fails only as that value fails.
pub proof fn lemma_boolean_word_names_value(
    tokens: Seq<TokenTree>,
    pos: int,
    literal: Option<(Seq<TokenTree>, int)>,
)
    requires
        bool_word_at(tokens, pos),
        punct_at(tokens, pos + 1, '='),
    ensures
        ({
            let name = PathView { leading_colon: false, segments: seq![tokens[pos]->Ident_0] };
            let pair = match value_rule(tokens, pos + 2) {
                Ok((value, end)) => Ok::<(MetaView, int), Failure>(
                    (MetaView::NameValue(name, value), end),
                ),
                Err(e) => Err(e),
            };
            &&& meta_rule(tokens, pos) == pair
            &&& nested_rule_with(tokens, pos, literal) == match pair {
                Ok((meta, end)) => Ok::<(NestedView, int), Failure>((NestedView::Meta(meta), end)),
                Err(e) => Err(e),
            }
            &&& nested_rule(tokens, pos) == nested_rule_with(tokens, pos, literal)
        }),
{
    let name = PathView { leading_colon: false, segments: seq![tokens[pos]->Ident_0] };
    assert(!path_sep_at(tokens, pos));
    assert(!path_sep_at(tokens, pos + 1));
    assert(Seq::<Seq<char>>::empty().push(tokens[pos]->Ident_0) =~= name.segments);
    assert(path_segments(tokens, pos, Seq::empty(), false) == (name.segments, pos + 1, false));
    assert(path_rule(tokens, pos) == Ok::<(PathView, int), Failure>((name, pos + 1)));
    assert(meta_after_path_rule(tokens, name, pos + 1) == match value_rule(tokens, pos + 2) {
        Ok((value, end)) => Ok::<(MetaView, int), Failure>((MetaView::NameValue(name, value), end)),
        Err(e) => Err(e),
    });
}

/// A rest marker `..` where a field could begin ends the record there:
/// the fields read so far are the record, with a comma behind the last if
/// there is one, whatever stands behind the marker.
pub proof fn lemma_rest_marker_ends_record(
    tokens: Seq<TokenTree>,
    pos: int,
    found: Seq<FieldView>,
)
    requires
        rest_marker_at(tokens, pos),
    ensures
        fields_rule(tokens, pos, found) == Ok::<RecordView, Failure>(
            RecordView { fields: found, trailing_comma: found.len() > 0 },
        ),
{
}

/// A record's braces with nothing but a rest marker and what follows it
/// hold an empty record.
pub proof fn lemma_rest_marker_alone(tokens: Seq<TokenTree>, pos: int)
    requires
        group_at(tokens, pos, Delimiter::Brace),
        rest_marker_at(group_inner(tokens, pos), 0),
    ensures
        record_rule(tokens, pos) == Ok::<(RecordView, int), Failure>(
            (RecordView { fields: Seq::empty(), trailing_comma: false }, pos + 1),
        ),
{
}

/// Empty parentheses are an unnamed list without elements: as a metadata
/// node, and as the value behind `=`.
pub proof fn lemma_empty_parentheses(tokens: Seq<TokenTree>, pos: int)
    requires
        0 <= pos < tokens.len(),
        tokens[pos] == TokenTree::Group(Delimiter::Parenthesis, Seq::empty()),
    ensures
        ({
            let none = ListView { items: Seq::empty(), trailing_comma: false };
            &&& paren_list_rule(tokens, pos) == Ok::<(ListView, int), Failure>((none, pos + 1))
            &&& meta_rule(tokens, pos) == Ok::<(MetaView, int), Failure>(
                (MetaView::UnnamedList(none), pos + 1),
            )
            &&& value_rule(tokens, pos) == Ok::<(ValueView, int), Failure>(
                (ValueView::UnnamedList(none), pos + 1),
            )
        }),
{
    let none = ListView { items: Seq::empty(), trailing_comma: false };
    assert(nested_list_rule(group_inner(tokens, pos), 0, Seq::empty()) == Ok::<ListView, Failure>(
        none,
    ));
}

/// A failure inside a group is reported with the group's index behind the
/// way to the offending token.
pub proof fn lemma_failure_inside_group(tokens: Seq<TokenTree>, pos: int)
    requires
        group_at(tokens, pos, Delimiter::Parenthesis),
    ensures
        nested_list_rule(group_inner(tokens, pos), 0, Seq::empty()) matches Err(e)
            ==> meta_rule(tokens, pos) == Err::<(MetaView, int), Failure>(
            Failure { kind: e.kind, path: e.path.push(pos) },
        ),
{
}

// Text.

/// What stands in text between a token and the one behind it: nothing
/// where the first is a punctuation character that the next one follows
/// directly, else one space.
pub open spec fn gap_behind(token: TokenTree) -> Seq<char> {
    if is_joint(token) {
        Seq::empty()
    } else {
        seq![' ']
    }
}

/// The text of two runs of tokens, one behind the other, is the text of
/// each with the gap between them: text is made token by token, and no
/// token changes the text of another.
pub proof fn lemma_text_of_two_runs(first: Seq<TokenTree>, second: Seq<TokenTree>)
    ensures
        tokens_text(first + second) == if first.len() == 0 {
            tokens_text(second)
        } else if second.len() == 0 {
            tokens_text(first)
        } else {
            tokens_text(first) + gap_behind(first.last()) + tokens_text(second)
        },
    decreases second.len(),
{
    if second.len() == 0 {
        assert(first + second =~= first);
    } else if first.len() == 0 {
        assert(first + second =~= second);
    } else {
        let both = first + second;
        let head = second.drop_last();
        assert(both.drop_last() =~= first + head);
        assert(both.last() == second.last());
        lemma_text_of_two_runs(first, head);
        if head.len() == 0 {
            assert(first + head =~= first);
            assert(tokens_text(head) =~= Seq::<char>::empty());
            assert(tokens_text(second) =~= token_text(second.last()));
            assert((first + head).last() == first.last());
        } else {
            assert((first + head).last() == head.last());
        }
        assert(tokens_text(both) =~= tokens_text(first) + gap_behind(first.last()) + tokens_text(
            second,
        ));
    }
}

/// The run has a token, and its last token lets a gap follow.
pub open spec fn ends_with_gap(run: Seq<TokenTree>) -> bool {
    run.len() > 0 && !is_joint(run.last())
}

/// The texts in `texts`, with `sep` between each two.
pub open spec fn texts_joined(texts: Seq<Seq<char>>, sep: Seq<char>) -> Seq<char>
    decreases texts.len(),
{
    if texts.len() == 0 {
        Seq::empty()
    } else if texts.len() == 1 {
        texts[0]
    } else {
        texts_joined(texts.drop_last(), sep) + sep + texts.last()
    }
}

/// Runs of tokens joined by a punctuation character read as their texts
/// joined by that character with a space on either side, as long as each
/// run has a token and ends with one that lets a gap follow.
pub proof fn lemma_text_of_joined(runs: Seq<Seq<TokenTree>>, ch: char)
    requires
        forall|i: int| 0 <= i < runs.len() ==> ends_with_gap(#[trigger] runs[i]),
    ensures
        tokens_text(joined(runs, alone(ch))) == texts_joined(
            Seq::new(runs.len(), |i: int| tokens_text(runs[i])),
            seq![' ', ch, ' '],
        ),
        runs.len() > 0 ==> ends_with_gap(joined(runs, alone(ch))),
    decreases runs.len(),
{
    let texts = Seq::new(runs.len(), |i: int| tokens_text(runs[i]));
    if runs.len() == 1 {
        assert(ends_with_gap(runs[0]));
    } else if runs.len() > 1 {
        let front = runs.drop_last();
        let front_texts = Seq::new(front.len(), |i: int| tokens_text(front[i]));
        assert(texts.drop_last() =~= front_texts);
        assert forall|i: int| 0 <= i < front.len() implies ends_with_gap(#[trigger] front[i]) by {
            assert(front[i] == runs[i]);
        }
        lemma_text_of_joined(front, ch);
        assert(ends_with_gap(runs.last()));
        let head = joined(front, alone(ch));
        let comma = TokenTree::Punct(ch, false);
        lemma_text_of_two_runs(head, alone(ch));
        lemma_text_of_two_runs(head + alone(ch), runs.last());
        assert((head + alone(ch)).last() == comma);
        assert(tokens_text(alone(ch)) =~= seq![ch]) by {
            let none = alone(ch).drop_last();
            assert(none.len() == 0);
            assert(tokens_text(none) =~= Seq::<char>::empty());
            assert(alone(ch).last() == comma);
            assert(token_text(comma) =~= seq![ch]);
        }
        assert(tokens_text(head + alone(ch) + runs.last()) =~= tokens_text(head) + seq![
            ' ',
            ch,
            ' ',
        ] + tokens_text(runs.last()));
        assert((head + alone(ch) + runs.last()).last() == runs.last().last());
    }
}

/// A payload without a trailing comma reads as the texts of its nodes with
/// ` , ` between them, as long as the tokens of each node end with one
/// that lets a gap follow.
pub proof fn lemma_payload_text(payload: crate::grammar::PayloadView)
    requires
        !payload.trailing_comma,
        forall|i: int|
            0 <= i < payload.items.len() ==> ends_with_gap(
                meta_tokens(#[trigger] payload.items[i]),
            ),
    ensures
        tokens_text(payload_tokens(payload)) == texts_joined(
            Seq::new(payload.items.len(), |i: int| tokens_text(meta_tokens(payload.items[i]))),
            seq![' ', ',', ' '],
        ),
{
    let runs = Seq::new(payload.items.len(), |i: int| meta_tokens(payload.items[i]));
    assert forall|i: int| 0 <= i < runs.len() implies ends_with_gap(#[trigger] runs[i]) by {
        assert(ends_with_gap(meta_tokens(payload.items[i])));
    }
    lemma_text_of_joined(runs, ',');
    assert(Seq::new(runs.len(), |i: int| tokens_text(runs[i])) =~= Seq::new(
        payload.items.len(),
        |i: int| tokens_text(meta_tokens(payload.items[i])),
    ));
}

// The shape of what the rules yield.

/// An argument list as the grammar yields it: a trailing comma only behind
/// an element, and each element well formed.
pub open spec fn list_well_formed(list: ListView) -> bool
    decreases list,
{
    &&& list.trailing_comma ==> list.items.len() > 0
    &&& forall|i: int| 0 <= i < list.items.len() ==> nested_well_formed(#[trigger] list.items[i])
}

/// An element as the grammar yields it: a literal or a well-formed
/// metadata node, never an expression.
pub open spec fn nested_well_formed(item: NestedView) -> bool
    decreases item,
{
    match item {
        NestedView::Meta(meta) => meta_well_formed(meta),
        NestedView::Lit(_) => true,
        NestedView::Expr(_) => false,
    }
}

/// A metadata node as the grammar yields it: every path in it has a
/// segment, and every list and record in it is well formed.
pub open spec fn meta_well_formed(meta: MetaView) -> bool
    decreases meta,
{
    match meta {
        MetaView::Path(path) => path.segments.len() > 0,
        MetaView::List(path, list) => path.segments.len() > 0 && list_well_formed(list),
        MetaView::UnnamedList(list) => list_well_formed(list),
        MetaView::NameValue(path, value) => path.segments.len() > 0 && value_well_formed(value),
    }
}

/// A value as the grammar yields it.
pub open spec fn value_well_formed(value: ValueView) -> bool
    decreases value,
{
    match value {
        ValueView::Lit(_) => true,
        ValueView::Record(record) => record_well_formed(record),
        ValueView::UnnamedList(list) => list_well_formed(list),
    }
}

/// A record as the grammar yields it: a trailing comma only behind a
/// field, and each record among its values well formed.
pub open spec fn record_well_formed(record: RecordView) -> bool
    decreases record,
{
    &&& record.trailing_comma ==> record.fields.len() > 0
    &&& forall|i: int|
        0 <= i < record.fields.len() ==> expr_well_formed((#[trigger] record.fields[i]).value)
}

/// The value of a field as the grammar yields it.
pub open spec fn expr_well_formed(expr: ExprView) -> bool
    decreases expr,
{
    match expr {
        ExprView::Host(_) => true,
        ExprView::Record(record) => record_well_formed(record),
    }
}

/// Every argument list that parses is well formed.
pub proof fn lemma_nested_list_well_formed(
    tokens: Seq<TokenTree>,
    pos: int,
    found: Seq<NestedView>,
)
    requires
        forall|i: int| 0 <= i < found.len() ==> nested_well_formed(#[trigger] found[i]),
    ensures
        nested_list_rule(tokens, pos, found) matches Ok(list) ==> list_well_formed(list),
    decreases tokens, 8int, tokens.len() - pos,
{
    if pos < tokens.len() {
        lemma_nested_well_formed(tokens, pos);
        if let Ok((item, end)) = nested_rule(tokens, pos) {
            let more = found.push(item);
            assert forall|i: int| 0 <= i < more.len() implies nested_well_formed(
                #[trigger] more[i],
            ) by {
                if i < found.len() {
                    assert(more[i] == found[i]);
                }
            }
            if end < tokens.len() && pos < end && punct_at(tokens, end, ',') {
                lemma_nested_list_well_formed(tokens, end + 1, more);
            }
        }
    }
}

/// Every parenthesized list that parses is well formed.
pub proof fn lemma_paren_list_well_formed(tokens: Seq<TokenTree>, pos: int)
    ensures
        paren_list_rule(tokens, pos) matches Ok((list, _)) ==> list_well_formed(list),
    decreases tokens, 2int, 0int,
{
    if group_at(tokens, pos, Delimiter::Parenthesis) {
        lemma_nested_list_well_formed(group_inner(tokens, pos), 0, Seq::empty());
    }
}

/// Every element of an argument list that parses is well formed.
pub proof fn lemma_nested_well_formed(tokens: Seq<TokenTree>, pos: int)
    ensures
        nested_rule(tokens, pos) matches Ok((item, _)) ==> nested_well_formed(item),
    decreases tokens, 7int, 0int,
{
    lemma_meta_well_formed(tokens, pos);
}

/// Every metadata node that parses is well formed.
pub proof fn lemma_meta_well_formed(tokens: Seq<TokenTree>, pos: int)
    ensures
        meta_rule(tokens, pos) matches Ok((meta, _)) ==> meta_well_formed(meta),
    decreases tokens, 5int, 0int,
{
    if group_at(tokens, pos, Delimiter::Parenthesis) {
        lemma_paren_list_well_formed(tokens, pos);
    } else if let Ok((path, end)) = path_rule(tokens, pos) {
        if group_at(tokens, end, Delimiter::Parenthesis) {
            lemma_paren_list_well_formed(tokens, end);
        } else if punct_at(tokens, end, '=') {
            lemma_value_well_formed(tokens, end + 1);
        }
    }
}

/// Every value that parses is well formed.
pub proof fn lemma_value_well_formed(tokens: Seq<TokenTree>, pos: int)
    ensures
        value_rule(tokens, pos) matches Ok((value, _)) ==> value_well_formed(value),
    decreases tokens, 3int, 0int,
{
    if group_at(tokens, pos, Delimiter::Parenthesis) {
        lemma_paren_list_well_formed(tokens, pos);
    } else if group_at(tokens, pos, Delimiter::Brace) {
        lemma_record_well_formed(tokens, pos);
    }
}

/// Every record that parses is well formed.
pub proof fn lemma_record_well_formed(tokens: Seq<TokenTree>, pos: int)
    ensures
        record_rule(tokens, pos) matches Ok((record, _)) ==> record_well_formed(record),
    decreases tokens, 2int, 0int,
{
    if group_at(tokens, pos, Delimiter::Brace) {
        lemma_fields_well_formed(group_inner(tokens, pos), 0, Seq::empty());
    }
}

/// The fields of every record that parses are well formed.
pub proof fn lemma_fields_well_formed(tokens: Seq<TokenTree>, pos: int, found: Seq<FieldView>)
    requires
        forall|i: int| 0 <= i < found.len() ==> expr_well_formed((#[trigger] found[i]).value),
    ensures
        fields_rule(tokens, pos, found) matches Ok(record) ==> record_well_formed(record),
    decreases tokens, 7int, tokens.len() - pos,
{
    if pos < tokens.len() && !rest_marker_at(tokens, pos) {
        lemma_field_well_formed(tokens, pos);
        if let Ok((field, end)) = field_rule(tokens, pos) {
            let more = found.push(field);
            assert forall|i: int| 0 <= i < more.len() implies expr_well_formed(
                (#[trigger] more[i]).value,
            ) by {
                if i < found.len() {
                    assert(more[i] == found[i]);
                }
            }
            if end < tokens.len() && pos < end && punct_at(tokens, end, ',') {
                lemma_fields_well_formed(tokens, end + 1, more);
            }
        }
    }
}

/// The value of every field that parses is well formed.
pub proof fn lemma_field_well_formed(tokens: Seq<TokenTree>, pos: int)
    ensures
        field_rule(tokens, pos) matches Ok((field, _)) ==> expr_well_formed(field.value),
    decreases tokens, 6int, 0int,
{
    if let Some((named, member, colon)) = crate::grammar::member_at(tokens, pos) {
        if punct_at(tokens, colon, ':') {
            lemma_custom_expr_well_formed(tokens, colon + 1);
        }
    }
}

/// Every field value that parses is well formed.
pub proof fn lemma_custom_expr_well_formed(tokens: Seq<TokenTree>, pos: int)
    ensures
        custom_expr_rule(tokens, pos) matches Ok((expr, _)) ==> expr_well_formed(expr),
    decreases tokens, 5int, 0int,
{
    if group_at(tokens, pos, Delimiter::Brace) {
        lemma_record_well_formed(tokens, pos);
    }
}

/// Every node of a payload that parses is well formed, and the payload has
/// a trailing comma only behind a node.
pub proof fn lemma_payload_well_formed(tokens: Seq<TokenTree>, pos: int, found: Seq<MetaView>)
    requires
        forall|i: int| 0 <= i < found.len() ==> meta_well_formed(#[trigger] found[i]),
    ensures
        payload_rule(tokens, pos, found) matches Ok(payload) ==> {
            &&& payload.trailing_comma ==> payload.items.len() > 0
            &&& forall|i: int|
                0 <= i < payload.items.len() ==> meta_well_formed(#[trigger] payload.items[i])
        },
    decreases tokens.len() - pos,
{
    if pos < tokens.len() {
        lemma_meta_well_formed(tokens, pos);
        if let Ok((item, end)) = meta_rule(tokens, pos) {
            let more = found.push(item);
            assert forall|i: int| 0 <= i < more.len() implies meta_well_formed(
                #[trigger] more[i],
            ) by {
                if i < found.len() {
                    assert(more[i] == found[i]);
                }
            }
            if end < tokens.len() && pos < end && punct_at(tokens, end, ',') {
                lemma_payload_well_formed(tokens, end + 1, more);
            }
        }
    }
}

} // verus!
