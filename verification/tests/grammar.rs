use meta_grammar::{
    parse_meta_after_path, CustomExpr, ErrorKind, ExprUnnamedStruct, FieldValue, Meta, MetaList,
    MetaNameValue, MetaPath, MetaValue, NestedMeta, ParseError, Payload, TokenBuffer,
    UnnamedMetaList,
};
use proc_macro2::TokenStream;

fn buffer_of(text: &str) -> TokenBuffer {
    let stream: TokenStream = text.parse().expect("the text lexes");
    TokenBuffer::new(stream).expect("the literals are supported")
}

fn payload_text(text: &str) -> String {
    Payload::parse(&buffer_of(text)).expect("the payload parses").render_text()
}

fn payload_error(text: &str) -> ParseError {
    match Payload::parse(&buffer_of(text)) {
        Ok(_) => panic!("the payload parses"),
        Err(e) => e,
    }
}

fn record_error(text: &str) -> ParseError {
    match ExprUnnamedStruct::parse(&buffer_of(text), 0) {
        Ok(_) => panic!("the record parses"),
        Err(e) => e,
    }
}

fn segment_names(path: &MetaPath) -> Vec<String> {
    path.get_inner().segments().iter().map(|s| s.name().clone()).collect()
}

#[test]
fn records_nest_three_deep() {
    let buffer = buffer_of("{ a: { b: { c: 1, d: [x, y] }, e: \"s\" }, f: 2 }");
    let (record, end) = ExprUnnamedStruct::parse(&buffer, 0).expect("the record parses");
    assert_eq!(end, 1);
    assert_eq!(
        record.render_text(),
        "{ a : { b : { c : 1 , d : [x , y] } , e : \"s\" } , f : 2 }"
    );
    match &record.fields[0].expr {
        CustomExpr::ExprUnnamedStruct(level2) => match &level2.fields[0].expr {
            CustomExpr::ExprUnnamedStruct(level3) => {
                assert_eq!(level3.fields.len(), 2);
                assert!(matches!(level3.fields[0].expr, CustomExpr::Expr(_)));
            }
            _ => panic!("the third level is a record"),
        },
        _ => panic!("the second level is a record"),
    }
}

#[test]
fn boolean_word_names_a_value() {
    let payload = Payload::parse(&buffer_of("true = 1")).expect("the payload parses");
    assert_eq!(payload.items.len(), 1);
    match &payload.items[0] {
        Meta::NameValue(pair) => {
            assert_eq!(segment_names(&pair.path), vec!["true".to_string()]);
            assert!(matches!(pair.value, MetaValue::Lit(_)));
        }
        _ => panic!("`true = 1` is a name and a value"),
    }
    assert_eq!(payload.render_text(), "true = 1");
}

#[test]
fn boolean_word_in_a_list() {
    let buffer = buffer_of("(true = 1, false, true)");
    let (list, end) = UnnamedMetaList::parse(&buffer, 0).expect("the list parses");
    assert_eq!(end, 1);
    assert_eq!(list.nested.len(), 3);
    assert!(matches!(list.nested[0], NestedMeta::Meta(Meta::NameValue(_))));
    assert!(matches!(list.nested[1], NestedMeta::Lit(_)));
    assert!(matches!(list.nested[2], NestedMeta::Lit(_)));
}

#[test]
fn rest_marker_ends_a_record() {
    let buffer = buffer_of("{a: 1, ..}");
    let (record, end) = ExprUnnamedStruct::parse(&buffer, 0).expect("the record parses");
    assert_eq!(end, 1);
    assert_eq!(record.fields.len(), 1);
    assert!(record.fields[0].member.named);
    assert_eq!(meta_grammar::stream_text(&record.fields[0].member.tokens), "a");
    assert!(record.trailing_comma);
    assert_eq!(record.render_text(), "{ a : 1 , }");
}

#[test]
fn rest_marker_hides_what_follows() {
    let buffer = buffer_of("{a: 1, ..base + + }");
    let (record, _) = ExprUnnamedStruct::parse(&buffer, 0).expect("the record parses");
    assert_eq!(record.fields.len(), 1);
    let buffer = buffer_of("{..}");
    let (record, _) = ExprUnnamedStruct::parse(&buffer, 0).expect("the record parses");
    assert_eq!(record.fields.len(), 0);
    assert!(!record.trailing_comma);
    assert_eq!(record.render_text(), "{ }");
}

#[test]
fn empty_list_is_an_unnamed_list() {
    let buffer = buffer_of("()");
    let (meta, end) = Meta::parse(&buffer, 0).expect("the node parses");
    assert_eq!(end, 1);
    match &meta {
        Meta::UnnamedList(list) => {
            assert_eq!(list.nested.len(), 0);
            assert!(!list.trailing_comma);
        }
        _ => panic!("`()` is an unnamed list"),
    }
    assert_eq!(meta.render_text(), "()");
}

#[test]
fn empty_payload_and_empty_record() {
    let payload = Payload::parse(&buffer_of("")).expect("the payload parses");
    assert_eq!(payload.items.len(), 0);
    assert!(!payload.trailing_comma);
    assert_eq!(payload.render_text(), "");
    let (record, _) = ExprUnnamedStruct::parse(&buffer_of("{}"), 0).expect("the record parses");
    assert_eq!(record.fields.len(), 0);
    assert_eq!(record.render_text(), "{ }");
}

#[test]
fn trailing_commas_are_kept() {
    assert_eq!(payload_text("a, b,"), "a , b ,");
    assert_eq!(payload_text("a(b, c,)"), "a (b , c ,)");
    assert_eq!(payload_text("a = {x: 1,}"), "a = { x : 1 , }");
}

#[test]
fn paths_with_segments_and_root() {
    let buffer = buffer_of("a::b::c, ::d::e = 2, ::f(g)");
    let payload = Payload::parse(&buffer).expect("the payload parses");
    assert_eq!(payload.items.len(), 3);
    match &payload.items[0] {
        Meta::Path(path) => {
            assert!(!path.get_inner().leading_colon());
            assert_eq!(segment_names(path), vec!["a".to_string(), "b".to_string(), "c".to_string()]);
        }
        _ => panic!("a bare path"),
    }
    match &payload.items[1] {
        Meta::NameValue(pair) => {
            assert!(pair.path.get_inner().leading_colon());
            assert_eq!(segment_names(&pair.path), vec!["d".to_string(), "e".to_string()]);
        }
        _ => panic!("a name and a value"),
    }
    assert!(matches!(payload.items[2], Meta::List(_)));
    assert_eq!(payload.render_text(), "a :: b :: c , :: d :: e = 2 , :: f (g)");
}

#[test]
fn reserved_words_are_path_segments() {
    assert_eq!(payload_text("type = \"x\", crate::self::fn"), "type = \"x\" , crate :: self :: fn");
}

#[test]
fn path_parse_reports_where_it_ends() {
    let buffer = buffer_of("a::b = 1");
    let (path, end) = MetaPath::parse(&buffer, 0).expect("the path parses");
    assert_eq!(end, 4);
    assert_eq!(segment_names(&path), vec!["a".to_string(), "b".to_string()]);
    let mut tokens = TokenStream::new();
    path.to_tokens(&mut tokens);
    assert_eq!(tokens.to_string(), "a :: b");
}

#[test]
fn empty_path_is_an_error() {
    let e = payload_error("= 1");
    assert_eq!(e.kind, ErrorKind::EmptyPath);
    assert_eq!(e.path, vec![0]);
    let e = payload_error("a, :: = 1");
    assert_eq!(e.kind, ErrorKind::EmptyPath);
    assert_eq!(e.path, vec![4]);
}

#[test]
fn trailing_separator_is_an_error() {
    let e = payload_error("a::");
    assert_eq!(e.kind, ErrorKind::TrailingSeparator);
    assert_eq!(e.path, vec![3]);
    let e = payload_error("a::b:: = 1");
    assert_eq!(e.kind, ErrorKind::TrailingSeparator);
    assert_eq!(e.path, vec![6]);
}

#[test]
fn unexpected_list_element_is_an_error() {
    let e = payload_error("a(b, +)");
    assert_eq!(e.kind, ErrorKind::ExpectedIdentifierOrLiteral);
    assert_eq!(e.path, vec![2, 1]);
    let e = payload_error("x, a(b, c(::))");
    assert_eq!(e.kind, ErrorKind::ExpectedIdentifierOrLiteral);
    assert_eq!(e.path, vec![0, 3, 3]);
}

#[test]
fn missing_comma_is_an_error() {
    let e = payload_error("a b");
    assert_eq!(e.kind, ErrorKind::ExpectedSeparatorToken);
    assert_eq!(e.path, vec![1]);
    let e = payload_error("a(b c)");
    assert_eq!(e.kind, ErrorKind::ExpectedSeparatorToken);
    assert_eq!(e.path, vec![1, 1]);
    let e = record_error("{a: 1 b: 2}");
    assert_eq!(e.kind, ErrorKind::ExpectedSeparatorToken);
    assert_eq!(e.path, vec![3, 0]);
}

#[test]
fn missing_colon_is_an_error() {
    let e = record_error("{a 1}");
    assert_eq!(e.kind, ErrorKind::ExpectedSeparatorToken);
    assert_eq!(e.path, vec![1, 0]);
    let e = record_error("{a}");
    assert_eq!(e.kind, ErrorKind::ExpectedSeparatorToken);
    assert_eq!(e.path, vec![1, 0]);
    let e = record_error("{0 1}");
    assert_eq!(e.kind, ErrorKind::ExpectedSeparatorToken);
    assert_eq!(e.path, vec![1, 0]);
}

#[test]
fn bad_member_is_an_error() {
    let e = record_error("{+: 1}");
    assert_eq!(e.kind, ErrorKind::ExpectedIdentifierOrLiteral);
    assert_eq!(e.path, vec![0, 0]);
    let e = record_error("{\"a\": 1}");
    assert_eq!(e.kind, ErrorKind::ExpectedIdentifierOrLiteral);
    let e = record_error("{1u8: 1}");
    assert_eq!(e.kind, ErrorKind::ExpectedIdentifierOrLiteral);
    let e = record_error("{type: 1}");
    assert_eq!(e.kind, ErrorKind::ExpectedIdentifierOrLiteral);
}

#[test]
fn bad_value_is_a_malformed_literal() {
    let e = payload_error("a = +");
    assert_eq!(e.kind, ErrorKind::MalformedLiteral);
    assert_eq!(e.path, vec![2]);
    let e = payload_error("a =");
    assert_eq!(e.kind, ErrorKind::MalformedLiteral);
    assert_eq!(e.path, vec![2]);
    let e = payload_error("a == 1");
    assert_eq!(e.kind, ErrorKind::MalformedLiteral);
    assert_eq!(e.path, vec![2]);
    let e = payload_error("a = b");
    assert_eq!(e.kind, ErrorKind::MalformedLiteral);
}

#[test]
fn unsupported_literal_is_refused_at_the_start() {
    let stream: TokenStream = "a = 1, b(c, {d: c\"text\"})".parse().expect("the text lexes");
    match TokenBuffer::new(stream) {
        Ok(_) => panic!("the literal is not supported"),
        Err(e) => {
            assert_eq!(e.kind, ErrorKind::MalformedLiteral);
            assert_eq!(e.path, vec![2, 2, 5]);
        }
    }
}

#[test]
fn bad_host_expression_is_an_error() {
    let e = record_error("{a: }");
    assert_eq!(e.kind, ErrorKind::HostExpression);
    assert_eq!(e.path, vec![2, 0]);
    let e = record_error("{a: 1, b: ,}");
    assert_eq!(e.kind, ErrorKind::HostExpression);
    assert_eq!(e.path, vec![6, 0]);
    let e = record_error("{a: {b: *}}");
    assert_eq!(e.kind, ErrorKind::HostExpression);
    assert_eq!(e.path, vec![2, 2, 0]);
}

#[test]
fn missing_group_is_an_error() {
    let e = record_error("a");
    assert_eq!(e.kind, ErrorKind::ExpectedDelimiter);
    assert_eq!(e.path, vec![0]);
    let e = record_error("(a)");
    assert_eq!(e.kind, ErrorKind::ExpectedDelimiter);
    match UnnamedMetaList::parse(&buffer_of("{a: 1}"), 0) {
        Ok(_) => panic!("braces are no argument list"),
        Err(e) => assert_eq!(e.kind, ErrorKind::ExpectedDelimiter),
    }
    match MetaList::parse(&buffer_of("a = 1"), 0) {
        Ok(_) => panic!("a list is owed"),
        Err(e) => {
            assert_eq!(e.kind, ErrorKind::ExpectedDelimiter);
            assert_eq!(e.path, vec![1]);
        }
    }
}

#[test]
fn unnamed_list_is_no_list_element() {
    let e = payload_error("a(b, (c))");
    assert_eq!(e.kind, ErrorKind::ExpectedIdentifierOrLiteral);
    assert_eq!(e.path, vec![2, 1]);
}

#[test]
fn first_error_wins() {
    let e = payload_error("a(+), b c, = 1");
    assert_eq!(e.kind, ErrorKind::ExpectedIdentifierOrLiteral);
    assert_eq!(e.path, vec![0, 1]);
}

#[test]
fn host_expressions_take_what_syn_takes() {
    assert_eq!(
        payload_text("a = {x: 1 + 2 * y, z: f(1, 2), w: a.b::<T>()}"),
        "a = { x : 1 + 2 * y , z : f (1 , 2) , w : a . b :: < T > () }"
    );
    let buffer = buffer_of("1 + 2, 3");
    let (expr, end) = CustomExpr::parse(&buffer, 0).expect("the expression parses");
    assert_eq!(end, 3);
    let mut tokens = TokenStream::new();
    expr.to_tokens(&mut tokens);
    assert_eq!(tokens.to_string(), "1 + 2");
}

#[test]
fn positional_members() {
    let buffer = buffer_of("{0: a, 1: b}");
    let (record, _) = ExprUnnamedStruct::parse(&buffer, 0).expect("the record parses");
    assert!(!record.fields[0].member.named);
    assert!(!record.fields[1].member.named);
    assert_eq!(record.render_text(), "{ 0 : a , 1 : b }");
}

#[test]
fn field_parse_reports_where_it_ends() {
    let buffer = buffer_of("x, a: 1 + 1, b: 2");
    let (field, end) = FieldValue::parse(&buffer, 2).expect("the field parses");
    assert_eq!(end, 7);
    assert!(field.member.named);
    let mut tokens = TokenStream::new();
    field.to_tokens(&mut tokens);
    assert_eq!(tokens.to_string(), "a : 1 + 1");
}

#[test]
fn after_path_takes_list_value_or_nothing() {
    let buffer = buffer_of("a(b) c = 1 d");
    let (path, end) = MetaPath::parse(&buffer, 0).expect("the path parses");
    let (meta, end) = parse_meta_after_path(path, &buffer, end).expect("the node parses");
    assert!(matches!(meta, Meta::List(_)));
    assert_eq!(end, 2);
    let (path, end) = MetaPath::parse(&buffer, end).expect("the path parses");
    let (meta, end) = parse_meta_after_path(path, &buffer, end).expect("the node parses");
    assert!(matches!(meta, Meta::NameValue(_)));
    assert_eq!(end, 5);
    let (path, end) = MetaPath::parse(&buffer, end).expect("the path parses");
    let (meta, end) = parse_meta_after_path(path, &buffer, end).expect("the node parses");
    assert!(matches!(meta, Meta::Path(_)));
    assert_eq!(end, 6);
    assert_eq!(meta.render_text(), "d");
}

#[test]
fn name_value_and_list_parse_alone() {
    let buffer = buffer_of("a::b = (c, 1)");
    let (pair, end) = MetaNameValue::parse(&buffer, 0).expect("the pair parses");
    assert_eq!(end, 6);
    assert!(matches!(pair.value, MetaValue::UnnamedMetaList(_)));
    let mut tokens = TokenStream::new();
    pair.to_tokens(&mut tokens);
    assert_eq!(tokens.to_string(), "a :: b = (c , 1)");
    match MetaNameValue::parse(&buffer_of("a(b)"), 0) {
        Ok(_) => panic!("`=` is owed"),
        Err(e) => {
            assert_eq!(e.kind, ErrorKind::ExpectedSeparatorToken);
            assert_eq!(e.path, vec![1]);
        }
    }
    let buffer = buffer_of("a(\"s\", b = 2, c(d))");
    let (list, end) = MetaList::parse(&buffer, 0).expect("the list parses");
    assert_eq!(end, 2);
    assert_eq!(list.nested.len(), 3);
    let mut tokens = TokenStream::new();
    list.to_tokens(&mut tokens);
    assert_eq!(tokens.to_string(), "a (\"s\" , b = 2 , c (d))");
}

#[test]
fn values_of_each_kind() {
    let buffer = buffer_of("\"s\" {a: 1} (b) 'c' 1.5 b\"x\"");
    let (value, end) = MetaValue::parse(&buffer, 0).expect("the value parses");
    assert!(matches!(value, MetaValue::Lit(_)));
    assert_eq!(end, 1);
    let (value, end) = MetaValue::parse(&buffer, end).expect("the value parses");
    assert!(matches!(value, MetaValue::ExprUnnamedStruct(_)));
    let (value, end) = MetaValue::parse(&buffer, end).expect("the value parses");
    assert!(matches!(value, MetaValue::UnnamedMetaList(_)));
    let mut tokens = TokenStream::new();
    value.to_tokens(&mut tokens);
    assert_eq!(tokens.to_string(), "(b)");
    let (_, end) = MetaValue::parse(&buffer, end).expect("the value parses");
    let (_, end) = MetaValue::parse(&buffer, end).expect("the value parses");
    let (_, end) = MetaValue::parse(&buffer, end).expect("the value parses");
    assert_eq!(end, 6);
}

#[test]
fn negative_number_is_one_literal() {
    let buffer = buffer_of("a = -1, b(-2.5, c)");
    let payload = Payload::parse(&buffer).expect("the payload parses");
    assert_eq!(payload.items.len(), 2);
    assert_eq!(payload.render_text(), "a = - 1 , b (- 2.5 , c)");
}

#[test]
fn nested_element_parse_reports_where_it_ends() {
    let buffer = buffer_of("1, a = 2, ::b");
    let (item, end) = NestedMeta::parse(&buffer, 0).expect("the element parses");
    assert!(matches!(item, NestedMeta::Lit(_)));
    assert_eq!(end, 1);
    let (item, end) = NestedMeta::parse(&buffer, 2).expect("the element parses");
    assert!(matches!(item, NestedMeta::Meta(Meta::NameValue(_))));
    assert_eq!(end, 5);
    let (item, end) = NestedMeta::parse(&buffer, 6).expect("the element parses");
    assert!(matches!(item, NestedMeta::Meta(Meta::Path(_))));
    assert_eq!(end, 9);
    let mut tokens = TokenStream::new();
    item.to_tokens(&mut tokens);
    assert_eq!(tokens.to_string(), ":: b");
}

#[test]
fn rendering_is_stable() {
    let text = "name = \"MyVal\" , a :: b (c , k = (d = 1 , e) , f = { g : [1 , 2] , h : { i : j } }) ,";
    let once = payload_text(text);
    assert_eq!(once, text);
    assert_eq!(payload_text(&once), once);
    let payload = Payload::parse(&buffer_of(text)).expect("the payload parses");
    assert_eq!(payload.render_text(), payload.render_text());
    assert_eq!(payload.to_token_stream().to_string(), once);
}

fn lex(text: &str) -> TokenStream {
    text.parse().expect("the text lexes")
}

#[test]
fn element_given_what_the_literal_parser_said() {
    let buffer = buffer_of("a, 1");
    let (item, end) = NestedMeta::parse_with_literal(&buffer, 0, Some((lex("zz"), 2)))
        .expect("the element parses");
    assert_eq!(end, 1);
    match &item {
        NestedMeta::Lit(lit) => assert_eq!(lit.tokens.to_string(), "zz"),
        _ => panic!("the literal that was handed in"),
    }
    let (item, end) = NestedMeta::parse_with_literal(&buffer, 0, Some((lex("zz"), 1)))
        .expect("the element parses");
    assert_eq!(end, 2);
    assert!(matches!(item, NestedMeta::Lit(_)));
    let (item, end) = NestedMeta::parse_with_literal(&buffer, 0, Some((lex("zz"), 3)))
        .expect("the element parses");
    assert_eq!(end, 1);
    assert!(matches!(item, NestedMeta::Meta(Meta::Path(_))));
    let (item, _) = NestedMeta::parse_with_literal(&buffer, 0, Some((lex("zz"), 4)))
        .expect("the element parses");
    assert!(matches!(item, NestedMeta::Meta(Meta::Path(_))));
    let (item, end) = NestedMeta::parse_with_literal(&buffer, 0, None).expect("the element parses");
    assert_eq!(end, 1);
    assert!(matches!(item, NestedMeta::Meta(Meta::Path(_))));
    match NestedMeta::parse_with_literal(&buffer, 2, None) {
        Ok(_) => panic!("no literal and no path"),
        Err(e) => {
            assert_eq!(e.kind, ErrorKind::ExpectedIdentifierOrLiteral);
            assert_eq!(e.path, vec![2]);
        }
    }
    let buffer = buffer_of("true = 1");
    let (item, end) = NestedMeta::parse_with_literal(&buffer, 0, Some((lex("true"), 2)))
        .expect("the element parses");
    assert_eq!(end, 3);
    assert!(matches!(item, NestedMeta::Meta(Meta::NameValue(_))));
}

#[test]
fn value_given_what_the_literal_parser_said() {
    let buffer = buffer_of("x y (a) {b: 1}");
    let (value, end) = MetaValue::parse_with_literal(&buffer, 0, Some((lex("7"), 3)))
        .expect("the value parses");
    assert_eq!(end, 1);
    match &value {
        MetaValue::Lit(lit) => assert_eq!(lit.tokens.to_string(), "7"),
        _ => panic!("the literal that was handed in"),
    }
    let (_, end) = MetaValue::parse_with_literal(&buffer, 1, Some((lex("7"), 0)))
        .expect("the value parses");
    assert_eq!(end, 4);
    for left in [4, 5, usize::MAX] {
        match MetaValue::parse_with_literal(&buffer, 0, Some((lex("7"), left))) {
            Ok(_) => panic!("the literal took no token"),
            Err(e) => {
                assert_eq!(e.kind, ErrorKind::MalformedLiteral);
                assert_eq!(e.path, vec![0]);
            }
        }
    }
    match MetaValue::parse_with_literal(&buffer, 1, None) {
        Ok(_) => panic!("no literal"),
        Err(e) => {
            assert_eq!(e.kind, ErrorKind::MalformedLiteral);
            assert_eq!(e.path, vec![1]);
        }
    }
    let (value, end) = MetaValue::parse_with_literal(&buffer, 2, Some((lex("7"), 0)))
        .expect("the value parses");
    assert_eq!(end, 3);
    assert!(matches!(value, MetaValue::UnnamedMetaList(_)));
    let (value, end) = MetaValue::parse_with_literal(&buffer, 3, None).expect("the value parses");
    assert_eq!(end, 4);
    assert!(matches!(value, MetaValue::ExprUnnamedStruct(_)));
}

#[test]
fn field_given_what_the_member_parser_said() {
    let buffer = buffer_of("a : 1 , b 2");
    let (field, end) = FieldValue::parse_with_member(&buffer, 0, Some((true, lex("m"), 5)))
        .expect("the field parses");
    assert_eq!(end, 3);
    assert!(field.member.named);
    assert_eq!(field.member.tokens.to_string(), "m");
    let (field, _) = FieldValue::parse_with_member(&buffer, 0, Some((false, lex("0"), 5)))
        .expect("the field parses");
    assert!(!field.member.named);
    for named in [true, false] {
        match FieldValue::parse_with_member(&buffer, 4, Some((named, lex("b"), 1))) {
            Ok(_) => panic!("the colon is owed"),
            Err(e) => {
                assert_eq!(e.kind, ErrorKind::ExpectedSeparatorToken);
                assert_eq!(e.path, vec![5]);
            }
        }
        match FieldValue::parse_with_member(&buffer, 5, Some((named, lex("b"), 0))) {
            Ok(_) => panic!("the colon is owed"),
            Err(e) => {
                assert_eq!(e.kind, ErrorKind::ExpectedSeparatorToken);
                assert_eq!(e.path, vec![6]);
            }
        }
        match FieldValue::parse_with_member(&buffer, 0, Some((named, lex("a"), 6))) {
            Ok(_) => panic!("the member took no token"),
            Err(e) => {
                assert_eq!(e.kind, ErrorKind::ExpectedIdentifierOrLiteral);
                assert_eq!(e.path, vec![0]);
            }
        }
    }
    match FieldValue::parse_with_member(&buffer, 0, None) {
        Ok(_) => panic!("no member"),
        Err(e) => {
            assert_eq!(e.kind, ErrorKind::ExpectedIdentifierOrLiteral);
            assert_eq!(e.path, vec![0]);
        }
    }
}

#[test]
fn field_value_given_what_the_host_parser_said() {
    let buffer = buffer_of("x + y , {a: 1}");
    let (expr, end) = CustomExpr::parse_with_host(&buffer, 0, Some((lex("x + y"), 2)))
        .expect("the value parses");
    assert_eq!(end, 3);
    match &expr {
        CustomExpr::Expr(tokens) => assert_eq!(tokens.to_string(), "x + y"),
        _ => panic!("the expression that was handed in"),
    }
    for left in [5, 6] {
        match CustomExpr::parse_with_host(&buffer, 0, Some((lex("x"), left))) {
            Ok(_) => panic!("the expression took no token"),
            Err(e) => {
                assert_eq!(e.kind, ErrorKind::HostExpression);
                assert_eq!(e.path, vec![0]);
            }
        }
    }
    match CustomExpr::parse_with_host(&buffer, 3, None) {
        Ok(_) => panic!("no expression"),
        Err(e) => {
            assert_eq!(e.kind, ErrorKind::HostExpression);
            assert_eq!(e.path, vec![3]);
        }
    }
    let (expr, end) = CustomExpr::parse_with_host(&buffer, 4, None).expect("the record parses");
    assert_eq!(end, 5);
    assert!(matches!(expr, CustomExpr::ExprUnnamedStruct(_)));
    match CustomExpr::parse_with_host(&buffer, 5, Some((lex("x"), 0))) {
        Ok(_) => panic!("nothing is left to take"),
        Err(e) => assert_eq!(e.kind, ErrorKind::HostExpression),
    }
}

#[test]
fn number_forms_are_read() {
    let forms = [
        "0", "1_000", "0xff", "0o17", "0b1010", "1u8", "1_i64", "0xffu32", "1.5", "1.", "1e3",
        "1E-3", "1.5e+3", "2f32", "2.0f64", "1e3f32", "0x1e", "0b1e3", "1e3x", "12usize",
        "1_f32", "0e0", "9_9.9_9e9_9", "1suffix",
    ];
    for form in forms {
        let text = format!("a = {}, b({}), c = {{d: {}}}, e = -{}", form, form, form, form);
        let payload = Payload::parse(&buffer_of(&text)).expect("the payload parses");
        assert_eq!(payload.items.len(), 4, "for {}", form);
        match &payload.items[0] {
            Meta::NameValue(pair) => match &pair.value {
                MetaValue::Lit(lit) => assert_eq!(lit.tokens.to_string(), form),
                _ => panic!("a literal"),
            },
            _ => panic!("a name and a value"),
        }
    }
}

#[test]
fn string_forms_are_read() {
    let forms = [
        "\"\"", "\"a\\n\\t\\\\ \\0 \\x41 \\u{1F600} \\' \\\"\"", "r\"raw\"", "r#\"ra\"w\"#", "b\"by\\x00tes\"",
        "br\"raw\"", "br#\"raw\"#", "'c'", "'\\n'", "'\\u{41}'", "b'x'", "b'\\n'", "\"s\"suffix",
    ];
    for form in forms {
        let text = format!("a = {}, b({}), c = {{d: {}}}", form, form, form);
        let payload = Payload::parse(&buffer_of(&text)).expect("the payload parses");
        assert_eq!(payload.items.len(), 3, "for {}", form);
    }
}

#[test]
fn positions_beyond_the_end() {
    let buffer = buffer_of("a = 1");
    for pos in [3, 4, 99, usize::MAX - 1, usize::MAX] {
        match Meta::parse(&buffer, pos) {
            Ok(_) => panic!("nothing is there"),
            Err(e) => {
                assert_eq!(e.kind, ErrorKind::EmptyPath);
                assert_eq!(e.path, vec![pos]);
            }
        }
        match MetaPath::parse(&buffer, pos) {
            Ok(_) => panic!("nothing is there"),
            Err(e) => assert_eq!(e.kind, ErrorKind::EmptyPath),
        }
        match NestedMeta::parse(&buffer, pos) {
            Ok(_) => panic!("nothing is there"),
            Err(e) => {
                assert_eq!(e.kind, ErrorKind::ExpectedIdentifierOrLiteral);
                assert_eq!(e.path, vec![pos]);
            }
        }
        match MetaValue::parse(&buffer, pos) {
            Ok(_) => panic!("nothing is there"),
            Err(e) => assert_eq!(e.kind, ErrorKind::MalformedLiteral),
        }
        match MetaValue::parse_with_literal(&buffer, pos, Some((lex("1"), 0))) {
            Ok(_) => panic!("nothing is there"),
            Err(e) => assert_eq!(e.kind, ErrorKind::MalformedLiteral),
        }
        match FieldValue::parse(&buffer, pos) {
            Ok(_) => panic!("nothing is there"),
            Err(e) => assert_eq!(e.kind, ErrorKind::ExpectedIdentifierOrLiteral),
        }
        match CustomExpr::parse(&buffer, pos) {
            Ok(_) => panic!("nothing is there"),
            Err(e) => assert_eq!(e.kind, ErrorKind::HostExpression),
        }
        match ExprUnnamedStruct::parse(&buffer, pos) {
            Ok(_) => panic!("nothing is there"),
            Err(e) => assert_eq!(e.kind, ErrorKind::ExpectedDelimiter),
        }
        match UnnamedMetaList::parse(&buffer, pos) {
            Ok(_) => panic!("nothing is there"),
            Err(e) => assert_eq!(e.kind, ErrorKind::ExpectedDelimiter),
        }
        let (path, _) = MetaPath::parse(&buffer, 0).expect("the path parses");
        let (meta, end) = parse_meta_after_path(path, &buffer, pos).expect("a bare path");
        assert!(matches!(meta, Meta::Path(_)));
        assert_eq!(end, pos);
    }
}
