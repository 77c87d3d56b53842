use ufmt::format_str::{
    check_arity, compile, parse_chars, parse_format_str, required_args, unescape, Class,
    FormatArgType, Piece, TemplateError,
};

fn literal(lit: &str) -> Piece {
    Piece::Literal(lit.to_string())
}

fn display() -> Piece {
    Piece::Arg { arg_type: FormatArgType::Display, implicit_capture: None }
}

fn display_capture(ident: &str) -> Piece {
    Piece::Arg { arg_type: FormatArgType::Display, implicit_capture: Some(ident.to_string()) }
}

fn debug() -> Piece {
    Piece::Arg { arg_type: FormatArgType::Debug { pretty: false }, implicit_capture: None }
}

fn debug_capture(ident: &str) -> Piece {
    Piece::Arg {
        arg_type: FormatArgType::Debug { pretty: false },
        implicit_capture: Some(ident.to_string()),
    }
}

fn debug_pretty() -> Piece {
    Piece::Arg { arg_type: FormatArgType::Debug { pretty: true }, implicit_capture: None }
}

fn debug_pretty_capture(ident: &str) -> Piece {
    Piece::Arg {
        arg_type: FormatArgType::Debug { pretty: true },
        implicit_capture: Some(ident.to_string()),
    }
}

#[test]
fn test_pieces() -> Result<(), TemplateError> {
    assert_eq!(parse_format_str("{}")?, vec![display()]);
    assert_eq!(parse_format_str("{ident}")?, vec![display_capture("ident")]);

    assert_eq!(parse_format_str("{:?}")?, vec![debug()]);
    assert_eq!(parse_format_str("{ident:?}")?, vec![debug_capture("ident")]);

    assert_eq!(parse_format_str("{:#?}")?, vec![debug_pretty()]);
    assert_eq!(parse_format_str("{ident:#?}")?, vec![debug_pretty_capture("ident")]);

    // escaped braces
    assert_eq!(
        parse_format_str("This {{}} is not an argument")?,
        vec![literal("This {} is not an argument")],
    );

    // complex example
    assert_eq!(
        parse_format_str("Hello {name}, and welcome to {:?}! Hope you have {emotion:#?}!")?,
        vec![
            literal("Hello "),
            display_capture("name"),
            literal(", and welcome to "),
            debug(),
            literal("! Hope you have "),
            debug_pretty_capture("emotion"),
            literal("!")
        ]
    );

    // left brace & junk
    assert!(parse_format_str("{").is_err());
    assert!(parse_format_str(" {").is_err());
    assert!(parse_format_str("{ ").is_err());
    assert!(parse_format_str("{ {").is_err());
    assert!(parse_format_str("{:x}").is_err());

    Ok(())
}

#[test]
fn test_unescape() {
    // no right brace
    assert_eq!(unescape("").ok(), Some("".to_string()));
    assert_eq!(unescape("Hello").ok(), Some("Hello".to_string()));

    // unmatched right brace
    assert!(unescape(" }").is_err());
    assert!(unescape("} ").is_err());
    assert!(unescape("}").is_err());

    // escaped right brace
    assert_eq!(unescape("}}").ok(), Some("}".to_string()));
    assert_eq!(unescape("}} ").ok(), Some("} ".to_string()));
}

#[test]
fn unescape_reports_the_lone_brace() {
    assert_eq!(unescape("a}b"), Err(TemplateError::UnmatchedRightBrace));
    assert_eq!(unescape("}}}"), Err(TemplateError::UnmatchedRightBrace));
    assert_eq!(unescape("}}}}"), Ok("}}".to_string()));
}

#[test]
fn errors_name_their_cause() {
    assert_eq!(parse_format_str("{"), Err(TemplateError::InvalidPlaceholder));
    assert_eq!(parse_format_str("{:x}"), Err(TemplateError::InvalidPlaceholder));
    assert_eq!(parse_format_str("{:5}"), Err(TemplateError::InvalidPlaceholder));
    assert_eq!(parse_format_str("{name:>8}"), Err(TemplateError::InvalidPlaceholder));
    assert_eq!(parse_format_str("{0}"), Err(TemplateError::InvalidPlaceholder));
    assert_eq!(parse_format_str("{1st}"), Err(TemplateError::InvalidPlaceholder));
    assert_eq!(parse_format_str("{my_var}"), Err(TemplateError::InvalidPlaceholder));
    assert_eq!(parse_format_str("{name"), Err(TemplateError::InvalidPlaceholder));
    assert_eq!(parse_format_str("a } b"), Err(TemplateError::UnmatchedRightBrace));
    assert_eq!(parse_format_str("a } {}"), Err(TemplateError::UnmatchedRightBrace));
    assert_eq!(parse_format_str("{} } b"), Err(TemplateError::UnmatchedRightBrace));
}

#[test]
fn a_bad_placeholder_is_reported_before_a_lone_brace() {
    assert_eq!(parse_format_str("} {x"), Err(TemplateError::InvalidPlaceholder));
}

#[test]
fn a_name_is_not_followed_by_a_second_brace() {
    assert_eq!(parse_format_str("{abc{"), Err(TemplateError::InvalidPlaceholder));
}

#[test]
fn escaped_braces_join_the_literal_around_them() {
    assert_eq!(parse_format_str("{{"), Ok(vec![literal("{")]));
    assert_eq!(parse_format_str("abc{{"), Ok(vec![literal("abc{")]));
    assert_eq!(parse_format_str("}}"), Ok(vec![literal("}")]));
    assert_eq!(parse_format_str("a{{b}}c"), Ok(vec![literal("a{b}c")]));
    assert_eq!(parse_format_str("{{{}}}"), Ok(vec![literal("{"), display(), literal("}")]));
    assert_eq!(parse_format_str("x{{{}"), Ok(vec![literal("x{"), display()]));
}

#[test]
fn empty_template_has_no_pieces() {
    assert_eq!(parse_format_str(""), Ok(vec![]));
    assert_eq!(parse_format_str("{}{}"), Ok(vec![display(), display()]));
}

#[test]
fn names_may_hold_letters_of_any_script() {
    assert_eq!(parse_format_str("{größe}"), Ok(vec![display_capture("größe")]));
    assert_eq!(parse_format_str("{x1:?}"), Ok(vec![debug_capture("x1")]));
}

#[test]
fn given_classes_decide_what_a_name_is() {
    let chars: Vec<char> = "{ab}".chars().collect();
    let letter = Class { alphanumeric: true, numeric: false };
    let digit = Class { alphanumeric: true, numeric: true };
    let other = Class { alphanumeric: false, numeric: false };
    assert_eq!(parse_chars(&chars, &[other, letter, letter, other]), Ok(vec![display_capture("ab")]));
    assert_eq!(
        parse_chars(&chars, &[other, digit, letter, other]),
        Err(TemplateError::InvalidPlaceholder)
    );
    assert_eq!(
        parse_chars(&chars, &[other, other, other, other]),
        Err(TemplateError::InvalidPlaceholder)
    );
}

#[test]
fn positional_pieces_are_counted() {
    assert!(display().is_positional_arg());
    assert!(debug_pretty().is_positional_arg());
    assert!(!display_capture("x").is_positional_arg());
    assert!(!literal("x").is_positional_arg());
    let pieces =
        parse_format_str("Hello {name}, and welcome to {:?}! Hope you have {emotion:#?}!").unwrap();
    assert_eq!(pieces.len(), 7);
    assert_eq!(required_args(&pieces), 1);
    assert_eq!(check_arity(&pieces, 1), Ok(()));
}

#[test]
fn arity_errors() {
    assert_eq!(
        compile("{}", false, 0),
        Err(TemplateError::MissingArguments { required: 1, supplied: 0 })
    );
    assert_eq!(
        compile("{} {}", false, 1),
        Err(TemplateError::MissingArguments { required: 2, supplied: 1 })
    );
    assert_eq!(compile("{}", false, 2), Err(TemplateError::UnusedArgument { index: 1 }));
    assert_eq!(compile("{x}", false, 1), Err(TemplateError::UnusedArgument { index: 0 }));
    assert_eq!(compile("{x}", false, 0), Ok(vec![display_capture("x")]));
}

#[test]
fn syntax_errors_come_before_arity_errors() {
    assert_eq!(compile("{} }", false, 5), Err(TemplateError::UnmatchedRightBrace));
}

#[test]
fn compile_adds_the_line_break() {
    assert_eq!(compile("{}", true, 1), Ok(vec![display(), literal("\n")]));
    assert_eq!(compile("a", true, 0), Ok(vec![literal("a\n")]));
    assert_eq!(compile("", true, 0), Ok(vec![literal("\n")]));
    assert_eq!(compile("", false, 0), Ok(vec![]));
}
