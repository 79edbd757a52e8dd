use meta_grammar::{ExprUnnamedStruct, TokenBuffer};
use proc_macro2::{TokenStream, TokenTree};
use syn::parse::Parser;
use syn::Attribute;

fn record_args(source: &str) -> TokenStream {
    let attrs = Parser::parse_str(Attribute::parse_outer, source).expect("attribute");
    let tokens = attrs.first().unwrap().tokens.clone();
    match tokens.into_iter().next() {
        Some(TokenTree::Group(group)) => group.stream(),
        _ => panic!("the attribute has no arguments"),
    }
}

fn render_record(source: &str) -> String {
    let buffer = TokenBuffer::new(record_args(source)).expect("Could not parse the args");
    let (elem, end) = ExprUnnamedStruct::parse(&buffer, 0).expect("Could not parse the args");
    assert_eq!(end, buffer.len());
    elem.render_text()
}

#[test]
fn test_attribute() {
    let elem_str = render_record("#[blah({ name: \"MyVal\", age: 33, props: [1,2,3]})]");

    assert_eq!(
        elem_str,
        "{ name : \"MyVal\" , age : 33 , props : [1 , 2 , 3] }"
    );
}

#[test]
fn test_attribute_nested() {
    let elem_str = render_record(
        "#[blah({ name: \"MyVal\", age: 33, props: [1,2,3], other: { name: \"ok\" }})]",
    );

    assert_eq!(
        elem_str,
        "{ name : \"MyVal\" , age : 33 , props : [1 , 2 , 3] , other : { name : \"ok\" } }"
    );
}
