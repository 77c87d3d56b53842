use ufmt::format_str::TemplateError;
use ufmt::impls::net::Ipv4;
use ufmt::write::append_reserved;
use ufmt::{uDebug, uDisplay, uWrite, Formatter};

#[test]
fn messages() {
    assert_eq!(
        TemplateError::UnmatchedRightBrace.message(),
        "format string contains an unmatched right brace"
    );
    assert_eq!(
        TemplateError::InvalidPlaceholder.message(),
        "invalid format string: expected `{{`, `{}`, `{:?}` or `{:#?}`"
    );
    assert_eq!(
        TemplateError::MissingArguments { required: 2, supplied: 1 }.message(),
        "format string requires 2 arguments but 1 was supplied"
    );
    assert_eq!(
        TemplateError::MissingArguments { required: 12, supplied: 0 }.message(),
        "format string requires 12 arguments but 0 were supplied"
    );
    assert_eq!(TemplateError::UnusedArgument { index: 1 }.message(), "argument never used");
    assert_eq!(
        TemplateError::UnknownName { piece: 0 }.message(),
        "no value is supplied under this name"
    );
    assert_eq!(
        TemplateError::MissingForm { piece: 0 }.message(),
        "the value does not have the form asked for"
    );
}

#[test]
fn ipv4_addresses() {
    let mut s = String::new();
    {
        let mut f = Formatter::new(&mut s);
        uDisplay::fmt(&Ipv4 { octets: [192, 168, 0, 1] }, &mut f).unwrap();
        f.write_char(' ').unwrap();
        uDebug::fmt(&Ipv4 { octets: [0, 0, 0, 0] }, &mut f).unwrap();
        f.write_char(' ').unwrap();
        f.pretty(&Ipv4 { octets: [255, 255, 255, 255] }).unwrap();
    }
    assert_eq!(s, "192.168.0.1 0.0.0.0 255.255.255.255");
}

#[test]
fn strings_display_as_they_are() {
    let mut s = String::new();
    {
        let mut f = Formatter::new(&mut s);
        uDisplay::fmt("abc", &mut f).unwrap();
        uDisplay::fmt(&"def".to_string(), &mut f).unwrap();
        uDisplay::fmt(&Box::new(7u8), &mut f).unwrap();
    }
    assert_eq!(s, "abcdef7");
}

#[test]
fn appending_follows_the_reservation() {
    let mut s = String::from("ab");
    assert_eq!(append_reserved(&mut s, "cd", Ok(())), Ok(()));
    assert_eq!(s, "abcd");
    assert_eq!(append_reserved(&mut s, "", Ok(())), Ok(()));
    assert_eq!(s, "abcd");
    let refusal = String::new().try_reserve(usize::MAX).unwrap_err();
    assert_eq!(append_reserved(&mut s, "ef", Err(refusal.clone())), Err(refusal));
    assert_eq!(s, "abcd");
}

#[test]
fn a_string_takes_texts_and_characters() {
    let mut s = String::new();
    assert_eq!(s.write_str("ab"), Ok(()));
    assert_eq!(s.write_char('c'), Ok(()));
    assert_eq!(s.write_str(""), Ok(()));
    assert_eq!(s.write_char('ü'), Ok(()));
    assert_eq!(s, "abcü");
}
