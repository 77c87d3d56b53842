use std::collections::TryReserveError;

use ufmt::argument::Argument;
use ufmt::format_str::{parse_format_str, TemplateError};
use ufmt::impls::ptr::Pointer;
use ufmt::render::{
    check_bindings, find_named, render, uformat, uwrite, uwriteln, write_template, FormatError,
};
use ufmt::{uDebug, uDisplay, uWrite, Formatter};

enum Value {
    Int(i32),
    Text(&'static str),
    Pair(i32, i32),
    List(Vec<i32>),
}

impl uDisplay for Value {
    fn fmt<W: uWrite>(&self, f: &mut Formatter<'_, W>) -> Result<(), W::Error> {
        match self {
            Value::Int(n) => uDisplay::fmt(n, f),
            Value::Text(s) => f.write_str(s),
            Value::Pair(a, b) => {
                uDisplay::fmt(a, f)?;
                f.write_char('/')?;
                uDisplay::fmt(b, f)
            }
            Value::List(v) => uDebug::fmt(v, f),
        }
    }
}

impl uDebug for Value {
    fn fmt<W: uWrite>(&self, f: &mut Formatter<'_, W>) -> Result<(), W::Error> {
        match self {
            Value::Int(n) => uDebug::fmt(n, f),
            Value::Text(s) => {
                f.write_char('"')?;
                f.write_str(s)?;
                f.write_char('"')
            }
            Value::Pair(a, b) => f.debug_tuple("Pair")?.field(a)?.field(b)?.finish(),
            Value::List(v) => uDebug::fmt(v, f),
        }
    }
}

fn arguments<'a, W: uWrite>(values: &'a [Value]) -> Vec<Argument<'a, W>> {
    values.iter().map(|v| Argument::new(v)).collect()
}

fn named_arguments<'a, W: uWrite>(
    values: &'a [(String, Value)],
) -> Vec<(String, Argument<'a, W>)> {
    values.iter().map(|(name, v)| (name.clone(), Argument::new(v))).collect()
}

fn write_to<W: uWrite>(
    w: &mut W,
    template: &str,
    args: &[Value],
    named: &[(String, Value)],
) -> Result<(), FormatError<W::Error>> {
    let mut f = Formatter::new(w);
    uwrite(&mut f, template, &arguments(args), &named_arguments(named))
}

fn format(
    template: &str,
    args: &[Value],
    named: &[(String, Value)],
) -> Result<String, FormatError<TryReserveError>> {
    uformat(template, &arguments(args), &named_arguments(named))
}

fn named(pairs: Vec<(&str, Value)>) -> Vec<(String, Value)> {
    pairs.into_iter().map(|(k, v)| (k.to_string(), v)).collect()
}

/// A destination that takes a number of writes and refuses every later one.
struct Counting {
    room: usize,
    attempts: usize,
    text: String,
}

impl Counting {
    fn new(room: usize) -> Self {
        Counting { room, attempts: 0, text: String::new() }
    }
}

impl uWrite for Counting {
    type Error = usize;

    fn write_str(&mut self, s: &str) -> Result<(), usize> {
        self.attempts += 1;
        if self.attempts > self.room {
            return Err(self.attempts);
        }
        self.text.push_str(s);
        Ok(())
    }
}

#[test]
fn literal_only_template() {
    let none: Vec<Value> = vec![];
    assert_eq!(
        format("This {{}} is not an argument", &none, &[]),
        Ok("This {} is not an argument".to_string())
    );
}

#[test]
fn positional_arguments_are_taken_in_order() {
    let args = vec![Value::Int(1), Value::Int(-2), Value::Text("x")];
    assert_eq!(format("{} {} {}", &args, &[]), Ok("1 -2 x".to_string()));
    assert_eq!(format("{:?}{}{:?}", &args, &[]), Ok("1-2\"x\"".to_string()));
}

#[test]
fn named_values_are_found_by_name() {
    let args = vec![Value::Text("home")];
    let names = named(vec![("name", Value::Text("Ferris")), ("emotion", Value::Pair(1, 2))]);
    assert_eq!(
        format("Hello {name}, and welcome to {:?}! Hope you have {emotion:#?}!", &args, &names),
        Ok("Hello Ferris, and welcome to \"home\"! Hope you have Pair(\n    1,\n    2,\n)!".to_string())
    );
    assert_eq!(format("{emotion} {emotion:?}", &[], &names), Ok("1/2 Pair(1, 2)".to_string()));
}

#[test]
fn the_first_value_of_a_name_is_taken() {
    let names = named(vec![("a", Value::Int(1)), ("a", Value::Int(2)), ("b", Value::Int(3))]);
    assert_eq!(find_named(&names, &"a".to_string()), Some(0));
    assert_eq!(find_named(&names, &"b".to_string()), Some(2));
    assert_eq!(find_named(&names, &"c".to_string()), None);
    assert_eq!(format("{a}{b}", &[], &names), Ok("13".to_string()));
}

#[test]
fn bindings_are_checked_before_rendering() {
    let one = vec![Value::Int(1)];
    let none: Vec<Value> = vec![];
    let mut w = Counting::new(10);
    assert_eq!(
        write_to(&mut w, "a{}", &none, &[]),
        Err(FormatError::Template(TemplateError::MissingArguments { required: 1, supplied: 0 }))
    );
    assert_eq!(
        write_to(&mut w, "a{} {}", &one, &[]),
        Err(FormatError::Template(TemplateError::MissingArguments { required: 2, supplied: 1 }))
    );
    assert_eq!(
        write_to(&mut w, "a{}", &[Value::Int(1), Value::Int(2)], &[]),
        Err(FormatError::Template(TemplateError::UnusedArgument { index: 1 }))
    );
    assert_eq!(
        write_to(&mut w, "a{} {who}", &one, &[]),
        Err(FormatError::Template(TemplateError::UnknownName { piece: 3 }))
    );
    assert_eq!(
        write_to(&mut w, "a{:x}", &one, &[]),
        Err(FormatError::Template(TemplateError::InvalidPlaceholder))
    );
    assert_eq!(w.attempts, 0);
    assert_eq!(w.text, "");

    let pieces = parse_format_str("{} {who}").unwrap();
    let who = named(vec![("who", Value::Int(0))]);
    assert_eq!(
        check_bindings::<String>(&pieces, &arguments(&one), &[]),
        Err(TemplateError::UnknownName { piece: 2 })
    );
    assert_eq!(
        check_bindings::<String>(&pieces, &arguments(&one), &named_arguments(&who)),
        Ok(())
    );
}

#[test]
fn uwriteln_ends_the_line() {
    let mut s = String::new();
    {
        let mut f = Formatter::new(&mut s);
        uwriteln(&mut f, "{} and {}", &[Argument::new(&1u8), Argument::new(&2i64)], &[]).unwrap();
        uwrite(&mut f, "{}", &[Argument::display(&3u16)], &[]).unwrap();
    }
    assert_eq!(s, "1 and 2\n3");
    let mut t = String::new();
    {
        let mut f = Formatter::new(&mut t);
        write_template(&mut f, "", true, &[], &[]).unwrap();
    }
    assert_eq!(t, "\n");
}

#[test]
fn the_failing_write_is_the_last_one() {
    // seven pieces, each one fragment: "Hello ", name, ", and welcome to ", place, ...
    let template = "Hello {name}, and welcome to {}! Hope you have {emotion}!";
    let args = vec![Value::Text("home")];
    let names = named(vec![("name", Value::Text("Ferris")), ("emotion", Value::Text("fun"))]);
    let whole = "Hello Ferris, and welcome to home! Hope you have fun!";
    let fragments = ["Hello ", "Ferris", ", and welcome to ", "home", "! Hope you have ", "fun", "!"];
    for room in 0..fragments.len() {
        let mut w = Counting::new(room);
        let r = write_to(&mut w, template, &args, &names);
        assert_eq!(r, Err(FormatError::Write(room + 1)));
        assert_eq!(w.attempts, room + 1);
        assert_eq!(w.text, fragments[..room].concat());
    }
    let mut w = Counting::new(fragments.len());
    assert_eq!(write_to(&mut w, template, &args, &names), Ok(()));
    assert_eq!(w.attempts, fragments.len());
    assert_eq!(w.text, whole);
}

#[test]
fn a_failure_inside_a_value_ends_the_rendering() {
    let pieces = parse_format_str("<{:?}>").unwrap();
    let args = vec![Value::Pair(1, 2)];
    // "<", "Pair", "(", "1", ", ", "2", ")", ">"
    for room in 0..8 {
        let mut w = Counting::new(room);
        let r = {
            let mut f = Formatter::new(&mut w);
            render(&mut f, &pieces, &arguments(&args), &[])
        };
        assert_eq!(r, Err(room + 1));
        assert_eq!(w.attempts, room + 1);
    }
    let mut w = Counting::new(8);
    let r = {
        let mut f = Formatter::new(&mut w);
        render(&mut f, &pieces, &arguments(&args), &[])
    };
    assert_eq!(r, Ok(()));
    assert_eq!(w.text, "<Pair(1, 2)>");
}

#[test]
fn a_pretty_placeholder_leaves_the_layout_as_it_was() {
    let args = vec![Value::Pair(1, 2), Value::Pair(3, 4)];
    assert_eq!(
        format("{:#?} {:?}", &args, &[]),
        Ok("Pair(\n    1,\n    2,\n) Pair(3, 4)".to_string())
    );
}

#[test]
fn lists_render_through_the_list_builder() {
    let args = vec![Value::List(vec![]), Value::List(vec![1]), Value::List(vec![1, 2, 3])];
    assert_eq!(format("{:?} {:?} {:?}", &args, &[]), Ok("[] [1] [1, 2, 3]".to_string()));
    assert_eq!(
        format("{:#?}", &[Value::List(vec![1, 2])], &[]),
        Ok("[\n    1,\n    2,\n]".to_string())
    );
    assert_eq!(format("{:#?}", &[Value::List(vec![])], &[]), Ok("[]".to_string()));
}

#[test]
fn addresses_are_lower_case_hexadecimal_without_padding() {
    fn text(address: usize) -> String {
        let mut s = String::new();
        {
            let mut f = Formatter::new(&mut s);
            uDebug::fmt(&Pointer { address }, &mut f).unwrap();
        }
        s
    }
    assert_eq!(text(0), "0x0");
    assert_eq!(text(0x1234), "0x1234");
    assert_eq!(text(0xdead_beef), "0xdeadbeef");
    assert_eq!(text(usize::MAX), format!("{:#x}", usize::MAX));
}

#[test]
fn a_template_without_fragments_never_fails() {
    let none: Vec<Value> = vec![];
    assert_eq!(format("", &none, &[]), Ok(String::new()));
    let mut w = Counting::new(0);
    assert_eq!(write_to(&mut w, "", &none, &[]), Ok(()));
    assert_eq!(w.attempts, 0);
    assert_eq!(write_to(&mut w, "x", &none, &[]), Err(FormatError::Write(1)));
    assert_eq!(w.attempts, 1);
}

#[test]
fn a_template_inside_a_pretty_value_keeps_the_layout() {
    struct Outer(Value);
    impl uDebug for Outer {
        fn fmt<W: uWrite>(&self, f: &mut Formatter<'_, W>) -> Result<(), W::Error> {
            match uwrite(f, "<{:?}>", &[Argument::debug(&self.0)], &[]) {
                Ok(()) => Ok(()),
                Err(FormatError::Write(e)) => Err(e),
                Err(FormatError::Template(e)) => panic!("{}", e.message()),
            }
        }
    }
    let mut s = String::new();
    {
        let mut f = Formatter::new(&mut s);
        f.pretty(&Outer(Value::Pair(1, 2))).unwrap();
    }
    assert_eq!(s, "<Pair(\n    1,\n    2,\n)>");
}

#[test]
fn values_of_different_types_stand_side_by_side() {
    let n = 7u8;
    let list = vec![1i32, 2];
    let word = "x";
    let p = Pointer { address: 16 };
    let owned = String::from("y");
    let args = [
        Argument::new(&n),
        Argument::debug(&list),
        Argument::display(&word),
        Argument::debug(&p),
        Argument::new(&n),
    ];
    let names = [("who".to_string(), Argument::display(&owned))];
    assert_eq!(
        uformat("{} {:?} {} {:?} {:#?} {who}", &args, &names),
        Ok("7 [1, 2] x 0x10 7 y".to_string())
    );
}

#[test]
fn a_value_must_have_the_form_asked_for() {
    let list = vec![1i32, 2];
    let word = "x";
    assert_eq!(
        uformat("a{}", &[Argument::debug(&list)], &[]),
        Err(FormatError::Template(TemplateError::MissingForm { piece: 1 }))
    );
    assert_eq!(
        uformat("{:?}", &[Argument::display(&word)], &[]),
        Err(FormatError::Template(TemplateError::MissingForm { piece: 0 }))
    );
    assert_eq!(
        uformat("{:#?}", &[Argument::display(&word)], &[]),
        Err(FormatError::Template(TemplateError::MissingForm { piece: 0 }))
    );
    let names = [("w".to_string(), Argument::display(&word))];
    assert_eq!(
        uformat("{w} {w:?}", &[], &names),
        Err(FormatError::Template(TemplateError::MissingForm { piece: 2 }))
    );
    assert_eq!(uformat("{:?}", &[Argument::debug(&list)], &[]), Ok("[1, 2]".to_string()));
    assert!(Argument::<String>::new(&1u8).has(&ufmt::FormatArgType::Display));
    assert!(!Argument::<String>::debug(&list).has(&ufmt::FormatArgType::Display));
}
