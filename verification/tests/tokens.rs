use meta_grammar::buffer::{check_literals, literal_is_supported};
use meta_grammar::{stream_text, Delimiter, ErrorKind, ParseError, Token, TokenBuffer};
use proc_macro2::{Literal, TokenStream, TokenTree};

fn lex(text: &str) -> TokenStream {
    text.parse().expect("the text lexes")
}

#[test]
fn text_matches_the_stream_display() {
    let samples = [
        "",
        "a",
        "a b c",
        "a :: b",
        "a::b::<C>",
        "x += 1; y <<= 2",
        "&'a str",
        "f(a, b)",
        "()",
        "[]",
        "{}",
        "{ a }",
        "{ { } }",
        "( ( ) [ ] { } )",
        "name = \"MyVal\" , active",
        "a . . b .. c ..= d",
        "r#type + b'x' + 1.5e3 + 0xff_u8",
        "#[blah(a, b, more(one=1, two=2))]",
        "- 1 -1 - - 1",
    ];
    for sample in samples {
        let stream = lex(sample);
        assert_eq!(stream_text(&stream), stream.to_string(), "for {:?}", sample);
    }
}

#[test]
fn text_of_built_streams_matches_the_display() {
    let mut inner = TokenStream::new();
    inner.extend(lex("a + b"));
    let mut stream = TokenStream::new();
    stream.extend(lex("x ="));
    stream.extend(Some(proc_macro2::TokenTree::Group(proc_macro2::Group::new(
        proc_macro2::Delimiter::None,
        inner,
    ))));
    stream.extend(Some(proc_macro2::TokenTree::Group(proc_macro2::Group::new(
        proc_macro2::Delimiter::None,
        TokenStream::new(),
    ))));
    stream.extend(Some(proc_macro2::TokenTree::Punct(proc_macro2::Punct::new(
        '+',
        proc_macro2::Spacing::Joint,
    ))));
    stream.extend(Some(proc_macro2::TokenTree::Ident(proc_macro2::Ident::new(
        "y",
        proc_macro2::Span::call_site(),
    ))));
    stream.extend(Some(proc_macro2::TokenTree::Literal(proc_macro2::Literal::i32_suffixed(-7))));
    stream.extend(Some(proc_macro2::TokenTree::Literal(proc_macro2::Literal::string("q\"uote"))));
    assert_eq!(stream_text(&stream), stream.to_string());
    assert_eq!(stream_text(&stream), "x = a + b  +y - 7i32 \"q\\\"uote\"");
}

#[test]
fn error_kinds_have_messages() {
    assert_eq!(ErrorKind::EmptyPath.message(), "expected path");
    assert_eq!(ErrorKind::TrailingSeparator.message(), "expected path segment");
    assert_eq!(ErrorKind::ExpectedIdentifierOrLiteral.message(), "expected identifier or literal");
    assert_eq!(ErrorKind::ExpectedSeparatorToken.message(), "expected separator");
    assert_eq!(ErrorKind::ExpectedDelimiter.message(), "expected delimited group");
    assert_eq!(ErrorKind::MalformedLiteral.message(), "expected literal");
    assert_eq!(ErrorKind::HostExpression.message(), "expected expression");
}

#[test]
fn text_of_groups_and_joint_punctuation() {
    assert_eq!(stream_text(&lex("a::b")), "a :: b");
    assert_eq!(stream_text(&lex("{a:1}")), "{ a : 1 }");
    assert_eq!(stream_text(&lex("{}")), "{ }");
    assert_eq!(stream_text(&lex("(a,[b])")), "(a , [b])");
    assert_eq!(stream_text(&lex("x==y")), "x == y");
}

#[test]
fn supported_literal_forms() {
    for text in ["\"s\"", "'c'", "r\"raw\"", "r#\"raw\"#", "b\"bytes\"", "br\"raw\"", "b'x'", "1", "0x1f", "1.5", "2e3", "-1", "7u8"] {
        assert!(literal_is_supported(text), "{}", text);
    }
    for text in ["", "c\"s\"", "cr\"s\"", "b", "bx", "-", "-x", "(/*ERROR*/)", "true"] {
        assert!(!literal_is_supported(text), "{}", text);
    }
}

#[test]
fn literal_check_finds_the_first_unsupported() {
    assert!(check_literals(&lex("a = 1, b(\"s\", {c: [1, 2.0]})")).is_ok());
    let e = check_literals(&lex("a (b [c\"x\"] cr\"y\")")).unwrap_err();
    assert_eq!(e.kind, ErrorKind::MalformedLiteral);
    assert_eq!(e.path, vec![0, 1, 1]);
    let e = check_literals(&lex("1 c\"x\" (c\"y\")")).unwrap_err();
    assert_eq!(e.path, vec![1]);
}

#[test]
fn buffer_lookahead() {
    let buffer = TokenBuffer::new(lex("a :: b = (c) {d} .. true false : :")).expect("supported");
    assert_eq!(buffer.len(), 13);
    assert!(buffer.ident_at(0));
    assert!(!buffer.ident_at(1));
    assert!(!buffer.ident_at(13));
    assert!(buffer.punct_pair_at(1, ':', ':'));
    assert!(!buffer.punct_pair_at(2, ':', ':'));
    assert!(!buffer.punct_pair_at(11, ':', ':'));
    assert!(!buffer.punct_pair_at(12, ':', ':'));
    assert!(buffer.punct_at(1, ':'));
    assert!(buffer.punct_at(2, ':'));
    assert!(buffer.punct_at(4, '='));
    assert!(!buffer.punct_at(4, ':'));
    assert!(buffer.punct_at(12, ':'));
    assert!(!buffer.punct_at(13, ':'));
    assert!(buffer.group_at(5, Delimiter::Parenthesis));
    assert!(!buffer.group_at(5, Delimiter::Brace));
    assert!(buffer.group_at(6, Delimiter::Brace));
    assert!(!buffer.group_at(0, Delimiter::Brace));
    assert!(buffer.punct_pair_at(7, '.', '.'));
    assert!(buffer.bool_word_at(9));
    assert!(buffer.bool_word_at(10));
    assert!(!buffer.bool_word_at(0));
    assert!(!buffer.bool_word_at(usize::MAX));
    assert!(!buffer.punct_pair_at(usize::MAX, ':', ':'));
    assert!(buffer.get(13).is_none());
    assert!(buffer.get(usize::MAX).is_none());
    match buffer.get(0).expect("a token") {
        Token::Ident(name) => assert_eq!(name, "a"),
        _ => panic!("an identifier"),
    }
    match buffer.get(1).expect("a token") {
        Token::Punct(ch, joint) => {
            assert_eq!(*ch, ':');
            assert!(*joint);
        }
        _ => panic!("a punctuation character"),
    }
    match buffer.get(5).expect("a token") {
        Token::Group(delimiter, inner) => {
            assert_eq!(*delimiter, Delimiter::Parenthesis);
            assert_eq!(inner.to_string(), "c");
        }
        _ => panic!("a group"),
    }
}

#[test]
fn literal_items_keep_their_text() {
    let buffer = TokenBuffer::new(lex("\"s\" 12u8")).expect("supported");
    match buffer.get(0).expect("a token") {
        Token::Literal(text) => assert_eq!(text, "\"s\""),
        _ => panic!("a literal"),
    }
    match buffer.get(1).expect("a token") {
        Token::Literal(text) => assert_eq!(text, "12u8"),
        _ => panic!("a literal"),
    }
}

#[test]
fn error_paths_grow_outward() {
    let e = ParseError::at(ErrorKind::EmptyPath, 3);
    assert_eq!(e.kind, ErrorKind::EmptyPath);
    assert_eq!(e.path, vec![3]);
    let e = e.within(5).within(0);
    assert_eq!(e.kind, ErrorKind::EmptyPath);
    assert_eq!(e.path, vec![3, 5, 0]);
}

fn value_of(literal: Literal) -> TokenStream {
    let mut stream = lex("a =");
    stream.extend(Some(TokenTree::Literal(literal)));
    stream
}

#[test]
fn literals_built_by_hand_are_read() {
    let mut literals = vec![
        Literal::u8_suffixed(0),
        Literal::u8_unsuffixed(255),
        Literal::u16_suffixed(7),
        Literal::u32_unsuffixed(7),
        Literal::u64_suffixed(u64::MAX),
        Literal::u128_suffixed(u128::MAX),
        Literal::u128_unsuffixed(u128::MAX),
        Literal::usize_suffixed(1),
        Literal::i8_suffixed(-128),
        Literal::i16_unsuffixed(-1),
        Literal::i32_suffixed(i32::MIN),
        Literal::i64_unsuffixed(i64::MIN),
        Literal::i128_suffixed(i128::MIN),
        Literal::isize_unsuffixed(-3),
        Literal::f32_suffixed(1.5),
        Literal::f32_unsuffixed(1e-7),
        Literal::f32_unsuffixed(3.4e38),
        Literal::f64_suffixed(-0.0),
        Literal::f64_unsuffixed(1e300),
        Literal::f64_unsuffixed(5e-324),
        Literal::f64_unsuffixed(-2.5),
        Literal::string(""),
        Literal::string("plain"),
        Literal::string("quote \" backslash \\ newline \n tab \t nul \0 bell \u{7} snow \u{2603}"),
        Literal::string("'single' {braces} \r\n"),
        Literal::character('a'),
        Literal::character('\''),
        Literal::character('"'),
        Literal::character('\\'),
        Literal::character('\n'),
        Literal::character('\0'),
        Literal::character('\u{2603}'),
        Literal::character('\u{10FFFF}'),
        Literal::byte_string(b""),
        Literal::byte_string(b"bytes \" \\ \n \t \0 \x7f \xff ' "),
    ];
    let every_byte: Vec<u8> = (0..=255).collect();
    literals.push(Literal::byte_string(&every_byte));
    let every_ascii: String = (0u8..128).map(|b| b as char).collect();
    literals.push(Literal::string(&every_ascii));
    for literal in literals {
        let shown = literal.to_string();
        let buffer = TokenBuffer::new(value_of(literal)).expect("supported");
        let payload = meta_grammar::Payload::parse(&buffer).expect("the payload parses");
        assert_eq!(payload.items.len(), 1, "for {}", shown);
        assert!(matches!(payload.items[0], meta_grammar::Meta::NameValue(_)), "for {}", shown);
        let record = format!("{{x: {}}}", shown);
        let buffer = TokenBuffer::new(lex(&record)).expect("supported");
        meta_grammar::ExprUnnamedStruct::parse(&buffer, 0).expect("the record parses");
    }
}

#[test]
fn every_number_that_lexes_is_read() {
    let alphabet: Vec<char> = "0123456789abcdefABCDEFxob_.eE+-uif".chars().collect();
    let mut state: u64 = 0x2545_F491_4F6C_DD1D;
    let mut read = 0;
    for _ in 0..40000 {
        let mut text = String::new();
        state = state.wrapping_mul(6364136223846793005).wrapping_add(1442695040888963407);
        text.push(alphabet[(state >> 33) as usize % 10]);
        let len = 1 + (state >> 20) as usize % 7;
        for _ in 0..len {
            state = state.wrapping_mul(6364136223846793005).wrapping_add(1442695040888963407);
            text.push(alphabet[(state >> 33) as usize % alphabet.len()]);
        }
        let literal: Literal = match text.parse() {
            Ok(literal) => literal,
            Err(_) => continue,
        };
        assert!(literal_is_supported(&literal.to_string()), "for {}", text);
        let buffer = TokenBuffer::new(value_of(literal)).expect("supported");
        let payload = meta_grammar::Payload::parse(&buffer).expect("the payload parses");
        assert_eq!(payload.items.len(), 1, "for {}", text);
        read += 1;
    }
    assert!(read > 1000);
}
