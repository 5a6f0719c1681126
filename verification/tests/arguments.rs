use proc_macro2::TokenStream;
use static_format::elements::split_elements;
use static_format::error::decimal_text;
use static_format::output::concatenation;
use static_format::{Argument, FormatError, Fragment};

fn stream(source: &str) -> TokenStream {
    source.parse().unwrap()
}

fn form(source: &str) -> &'static str {
    match Argument::classify(&stream(source)) {
        Some(Argument::IntegerLiteral(_)) => "integer",
        Some(Argument::StringLiteral(_)) => "string",
        Some(Argument::BooleanLiteral(_)) => "boolean",
        Some(Argument::OpaqueExpression(_)) => "invocation",
        Some(Argument::Filler) => "filler",
        None => "none",
    }
}

#[test]
fn integer_literals() {
    assert_eq!(form("5"), "integer");
    assert_eq!(form("0"), "integer");
    assert_eq!(form("1_000"), "integer");
    assert_eq!(form("0x1F"), "integer");
    assert_eq!(form("0b1010"), "integer");
    assert_eq!(form("42u8"), "integer");
    assert_eq!(form("-7"), "integer");
}

#[test]
fn string_literals() {
    assert_eq!(form(r#""text""#), "string");
    assert_eq!(form(r#""""#), "string");
    assert_eq!(form(r##"r#"raw"#"##), "string");
    assert_eq!(form(r#""with {} inside""#), "string");
}

#[test]
fn boolean_literals() {
    assert_eq!(form("true"), "boolean");
    assert_eq!(form("false"), "boolean");
}

#[test]
fn macro_invocations() {
    assert_eq!(form("a_macro!()"), "invocation");
    assert_eq!(form("some_macro!('.')"), "invocation");
    assert_eq!(form("path::to::thing![1, 2, 3]"), "invocation");
    assert_eq!(form("::std::stringify! { a b c }"), "invocation");
    assert_eq!(form("inner!(outer!(1), 2)"), "invocation");
}

#[test]
fn other_literals_are_refused() {
    assert_eq!(form("2.5"), "none");
    assert_eq!(form("'c'"), "none");
    assert_eq!(form(r#"b"bytes""#), "none");
    assert_eq!(form("b'x'"), "none");
}

#[test]
fn other_expressions_are_refused() {
    assert_eq!(form("name"), "none");
    assert_eq!(form("1 + 2"), "none");
    assert_eq!(form("(5)"), "none");
    assert_eq!(form("call()"), "none");
    assert_eq!(form("a_macro!() + 1"), "none");
    assert_eq!(form("a_macro!().len()"), "none");
    assert_eq!(form("!true"), "none");
    assert_eq!(form("[1, 2]"), "none");
}

#[test]
fn what_is_no_expression_is_refused() {
    assert_eq!(form(""), "none");
    assert_eq!(form("5 5"), "none");
    assert_eq!(form("true false"), "none");
    assert_eq!(form("+"), "none");
    assert_eq!(form("a_macro!() other!()"), "none");
    assert_eq!(form("let"), "none");
}

#[test]
fn the_first_form_that_fits_decides() {
    let all = Argument::of_shape(stream("x"), true, true, true, true);
    assert!(matches!(all, Some(Argument::IntegerLiteral(_))));
    let no_integer = Argument::of_shape(stream("x"), false, true, true, true);
    assert!(matches!(no_integer, Some(Argument::StringLiteral(_))));
    let no_literal = Argument::of_shape(stream("x"), false, false, true, true);
    assert!(matches!(no_literal, Some(Argument::BooleanLiteral(_))));
    let invocation = Argument::of_shape(stream("x"), false, false, false, true);
    assert!(matches!(invocation, Some(Argument::OpaqueExpression(_))));
    assert!(Argument::of_shape(stream("x"), false, false, false, false).is_none());
}

#[test]
fn each_form_alone() {
    assert!(matches!(
        Argument::of_shape(stream("x"), true, false, false, false),
        Some(Argument::IntegerLiteral(_))
    ));
    assert!(matches!(
        Argument::of_shape(stream("x"), false, true, false, false),
        Some(Argument::StringLiteral(_))
    ));
    assert!(matches!(
        Argument::of_shape(stream("x"), false, false, true, false),
        Some(Argument::BooleanLiteral(_))
    ));
}

#[test]
fn an_argument_keeps_its_tokens() {
    match Argument::classify(&stream("0x_FFu16")) {
        Some(Argument::IntegerLiteral(tokens)) => assert_eq!(tokens.to_string(), "0x_FFu16"),
        other => panic!("{:?}", other),
    }
    match Argument::of_shape(stream("a :: b ! [c]"), false, false, false, true) {
        Some(Argument::OpaqueExpression(tokens)) => assert_eq!(tokens.to_string(), "a :: b ! [c]"),
        other => panic!("{:?}", other),
    }
}

#[test]
fn an_argument_writes_its_tokens() {
    let mut target = stream("before");
    Argument::OpaqueExpression(stream("m!(1)")).to_tokens(&mut target);
    assert_eq!(target.to_string(), "before m ! (1)");
    Argument::IntegerLiteral(stream("7")).to_tokens(&mut target);
    assert_eq!(target.to_string(), "before m ! (1) 7");
    Argument::StringLiteral(stream("\"s\"")).to_tokens(&mut target);
    Argument::BooleanLiteral(stream("true")).to_tokens(&mut target);
    assert_eq!(target.to_string(), "before m ! (1) 7 \"s\" true");
}

#[test]
fn the_filler_writes_nothing() {
    let mut target = stream("before");
    Argument::Filler.to_tokens(&mut target);
    assert_eq!(target.to_string(), "before");
    let mut empty = TokenStream::new();
    Argument::Filler.to_tokens(&mut empty);
    assert!(empty.is_empty());
}

#[test]
fn a_copy_holds_the_same_tokens() {
    let argument = Argument::OpaqueExpression(stream("m!(1, 2)"));
    match argument.clone() {
        Argument::OpaqueExpression(tokens) => assert_eq!(tokens.to_string(), "m ! (1 , 2)"),
        other => panic!("{:?}", other),
    }
    assert!(matches!(Argument::Filler.clone(), Argument::Filler));
}

fn parts(source: &str) -> Vec<String> {
    split_elements(&stream(source))
        .iter()
        .map(|part| part.to_string())
        .collect()
}

#[test]
fn elements_are_cut_at_commas() {
    assert_eq!(parts("a, b c, d"), vec!["a", "b c", "d"]);
}

#[test]
fn empty_input_is_one_empty_element() {
    assert_eq!(parts(""), vec![""]);
}

#[test]
fn commas_alone_give_empty_elements() {
    assert_eq!(parts(","), vec!["", ""]);
    assert_eq!(parts(",,"), vec!["", "", ""]);
    assert_eq!(parts("a,"), vec!["a", ""]);
    assert_eq!(parts(",a"), vec!["", "a"]);
}

#[test]
fn commas_inside_groups_do_not_cut() {
    assert_eq!(
        parts("m!(1, 2), [3, 4], {5, 6}"),
        vec!["m ! (1 , 2)", "[3 , 4]", "{ 5 , 6 }"]
    );
}

#[test]
fn a_comma_in_a_literal_does_not_cut() {
    assert_eq!(parts(r#""a, b", ',' "#), vec!["\"a, b\"", "','"]);
}

#[test]
fn other_punctuation_does_not_cut() {
    assert_eq!(parts("a; b . c : d"), vec!["a ; b . c : d"]);
}

#[test]
fn fragments_become_one_invocation() {
    let fragments = vec![
        Fragment {
            literal: String::from("a"),
            argument: Argument::IntegerLiteral(stream("1")),
        },
        Fragment {
            literal: String::from("b"),
            argument: Argument::Filler,
        },
    ];
    assert_eq!(
        concatenation(&fragments).to_string(),
        "concat ! (\"a\" , 1 , \"b\" ,)"
    );
}

#[test]
fn no_fragment_gives_an_empty_invocation() {
    assert_eq!(concatenation(&Vec::new()).to_string(), "concat ! ()");
}

#[test]
fn one_fragment_has_no_separator() {
    let fragments = vec![Fragment {
        literal: String::from("only"),
        argument: Argument::BooleanLiteral(stream("true")),
    }];
    assert_eq!(
        concatenation(&fragments).to_string(),
        "concat ! (\"only\" , true)"
    );
}

#[test]
fn segments_are_written_as_string_literals() {
    let fragments = vec![Fragment {
        literal: String::from("quote \" backslash \\ newline \n"),
        argument: Argument::Filler,
    }];
    assert_eq!(
        concatenation(&fragments).to_string(),
        "concat ! (\"quote \\\" backslash \\\\ newline \\n\" ,)"
    );
}

#[test]
fn the_output_is_an_invocation_of_concat() {
    let output = concatenation(&Vec::new());
    let trees: Vec<proc_macro2::TokenTree> = output.into_iter().collect();
    assert_eq!(trees.len(), 3);
    assert!(matches!(&trees[0], proc_macro2::TokenTree::Ident(word) if word == "concat"));
    assert!(matches!(&trees[1], proc_macro2::TokenTree::Punct(mark) if mark.as_char() == '!'));
    assert!(matches!(
        &trees[2],
        proc_macro2::TokenTree::Group(group) if group.delimiter() == proc_macro2::Delimiter::Parenthesis
    ));
}

#[test]
fn decimal_digits() {
    assert_eq!(decimal_text(0), "0");
    assert_eq!(decimal_text(7), "7");
    assert_eq!(decimal_text(10), "10");
    assert_eq!(decimal_text(109), "109");
    assert_eq!(decimal_text(1234567890), "1234567890");
    assert_eq!(decimal_text(usize::MAX), usize::MAX.to_string());
}

#[test]
fn messages() {
    assert_eq!(
        FormatError::MissingTemplate.message(),
        "requires at least one argument; provide a format string and arguments"
    );
    assert_eq!(
        FormatError::InvalidArgument { index: 3 }.message(),
        "all arguments must be literals or macro-style invocations"
    );
    assert_eq!(
        FormatError::ArityMismatch { expected: 3, found: 12 }.message(),
        "Wrong number of arguments, expected: 3 but found 12"
    );
    assert_eq!(
        FormatError::ArityMismatch { expected: 0, found: 1 }.message(),
        "Wrong number of arguments, expected: 0 but found 1"
    );
}

#[test]
fn an_error_points_at_its_element() {
    let input = stream(r#"oops here, 1 + 2, "fine", "#);
    assert_eq!(
        FormatError::MissingTemplate.culprit(&input).to_string(),
        "oops here"
    );
    assert_eq!(
        FormatError::InvalidArgument { index: 0 }.culprit(&input).to_string(),
        "1 + 2"
    );
    assert_eq!(
        FormatError::InvalidArgument { index: 1 }.culprit(&input).to_string(),
        "\"fine\""
    );
    assert!(FormatError::InvalidArgument { index: 2 }.culprit(&input).is_empty());
    assert!(FormatError::InvalidArgument { index: 3 }.culprit(&input).is_empty());
    assert!(FormatError::InvalidArgument { index: usize::MAX }.culprit(&input).is_empty());
    assert!(FormatError::ArityMismatch { expected: 1, found: 2 }.culprit(&input).is_empty());
    assert!(FormatError::MissingTemplate.culprit(&TokenStream::new()).is_empty());
}

#[test]
fn an_error_points_at_what_parsing_refused() {
    let input = stream(r#""{} {}", 1, wrong * 2"#);
    let fault = static_format::Format::parse(input.clone()).unwrap_err();
    assert_eq!(fault.culprit(&input).to_string(), "wrong * 2");
}
