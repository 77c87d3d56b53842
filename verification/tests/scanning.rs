use ufmt::decimal::{ascii_tail, fill_i32, fill_i8, fill_u128, fill_u32, fill_u8};
use ufmt::format_str::{
    chars_of, classify, find_char, placeholder, scan_name, string_of, unescape_into, Class,
    FormatArgType, Piece,
};
use ufmt::impls::ptr::hex;

fn classes(text: &str) -> (Vec<char>, Vec<Class>) {
    let chars = chars_of(text);
    let classes = chars.iter().map(|c| classify(*c)).collect();
    (chars, classes)
}

#[test]
fn digits_fill_the_end_of_the_buffer() {
    let mut buf = [b'#'; 12];
    let at = fill_u32(1234, &mut buf);
    assert_eq!(at, 8);
    assert_eq!(ascii_tail(&buf, at), "1234");
    assert_eq!(&buf[..8], b"########");

    let mut buf = [b'#'; 12];
    let at = fill_i32(-5, &mut buf);
    assert_eq!(at, 10);
    assert_eq!(ascii_tail(&buf, at), "-5");

    let mut buf = [0u8; 3];
    assert_eq!(fill_u8(255, &mut buf), 0);
    assert_eq!(&buf, b"255");

    let mut buf = [0u8; 4];
    assert_eq!(fill_i8(-128, &mut buf), 0);
    assert_eq!(&buf, b"-128");

    let mut buf = [0u8; 39];
    assert_eq!(fill_u128(u128::MAX, &mut buf), 0);
    assert_eq!(fill_u128(0, &mut buf), 38);
    assert_eq!(ascii_tail(&buf, 38), "0");
    assert_eq!(ascii_tail(&buf, 39), "");
}

#[test]
fn hex_fills_the_end_of_the_buffer() {
    let mut buf = [b'#'; 18];
    let at = hex(0xabc, &mut buf);
    assert_eq!(at, 13);
    assert_eq!(ascii_tail(&buf, at), "0xabc");
    let at = hex(0, &mut buf);
    assert_eq!(ascii_tail(&buf, at), "0x0");
    let at = hex(usize::MAX, &mut buf);
    assert_eq!(ascii_tail(&buf, at), format!("0x{:x}", usize::MAX));
    let at = hex(0x9f0a, &mut buf);
    assert_eq!(ascii_tail(&buf, at), "0x9f0a");
}

#[test]
fn characters_and_their_classes() {
    assert_eq!(chars_of("aß€"), vec!['a', 'ß', '€']);
    assert_eq!(chars_of(""), Vec::<char>::new());
    assert_eq!(classify('a'), Class { alphanumeric: true, numeric: false });
    assert_eq!(classify('7'), Class { alphanumeric: true, numeric: true });
    assert_eq!(classify('ß'), Class { alphanumeric: true, numeric: false });
    assert_eq!(classify('_'), Class { alphanumeric: false, numeric: false });
    assert_eq!(classify(':'), Class { alphanumeric: false, numeric: false });
    assert_eq!(classify('}'), Class { alphanumeric: false, numeric: false });
    assert_eq!(classify('½'), Class { alphanumeric: true, numeric: true });
}

#[test]
fn finding_and_scanning() {
    let (chars, classes) = classes("ab{cd1:?}");
    assert_eq!(find_char(&chars, '{', 0), 2);
    assert_eq!(find_char(&chars, '{', 2), 2);
    assert_eq!(find_char(&chars, '{', 3), chars.len());
    assert_eq!(find_char(&chars, '}', 9), 9);
    assert_eq!(scan_name(&classes, 3), 6);
    assert_eq!(scan_name(&classes, 6), 6);
    assert_eq!(scan_name(&classes, 9), 9);
    assert_eq!(string_of(&chars, 3, 6), "cd1");
    assert_eq!(string_of(&chars, 3, 3), "");
}

#[test]
fn placeholders_one_by_one() {
    let read = |text: &str, p: usize| {
        let (chars, classes) = classes(text);
        placeholder(&chars, &classes, p)
    };
    let arg = |arg_type, name: Option<&str>| {
        Some(Piece::Arg { arg_type, implicit_capture: name.map(|n| n.to_string()) })
    };
    assert_eq!(read("{}", 1), Some((arg(FormatArgType::Display, None), 2)));
    assert_eq!(read("{:?}x", 1), Some((arg(FormatArgType::Debug { pretty: false }, None), 4)));
    assert_eq!(read("{:#?}", 1), Some((arg(FormatArgType::Debug { pretty: true }, None), 5)));
    assert_eq!(read("{ab}", 1), Some((arg(FormatArgType::Display, Some("ab")), 4)));
    assert_eq!(
        read("{ab:#?}", 1),
        Some((arg(FormatArgType::Debug { pretty: true }, Some("ab")), 7))
    );
    assert_eq!(read("{{", 1), Some((None, 2)));
    assert_eq!(read("{", 1), None);
    assert_eq!(read("{ab", 1), None);
    assert_eq!(read("{ab{", 1), None);
    assert_eq!(read("{1a}", 1), None);
    assert_eq!(read("{:?", 1), None);
    assert_eq!(read("{:#}", 1), None);
    assert_eq!(read("{a b}", 1), None);
}

#[test]
fn unescaping_a_part_of_a_text() {
    let chars = chars_of("ab}}c}d");
    let mut buf = String::from(">");
    assert!(unescape_into(&chars, 0, 5, &mut buf));
    assert_eq!(buf, ">ab}c");
    let mut buf = String::new();
    assert!(!unescape_into(&chars, 0, 7, &mut buf));
    let mut buf = String::new();
    assert!(!unescape_into(&chars, 0, 3, &mut buf));
    let mut buf = String::new();
    assert!(unescape_into(&chars, 6, 7, &mut buf));
    assert_eq!(buf, "d");
    assert!(unescape_into(&chars, 2, 2, &mut buf));
    assert_eq!(buf, "d");
}

#[test]
fn a_buffer_with_just_enough_room_will_do() {
    let mut buf = [b'#'; 5];
    assert_eq!(hex(0xabc, &mut buf), 0);
    assert_eq!(&buf, b"0xabc");
    let mut buf = [b'#'; 3];
    assert_eq!(hex(0, &mut buf), 0);
    assert_eq!(&buf, b"0x0");
    let mut buf = [b'#'; 4];
    assert_eq!(fill_u32(1234, &mut buf), 0);
    assert_eq!(&buf, b"1234");
    let mut buf = [b'#'; 2];
    assert_eq!(fill_i8(-5, &mut buf), 0);
    assert_eq!(&buf, b"-5");
    let mut buf = [b'#'; 1];
    assert_eq!(fill_u8(0, &mut buf), 0);
    assert_eq!(&buf, b"0");
}

#[test]
fn the_bytes_before_the_text_are_left_alone() {
    let mut buf = *b"abcdefghijklmnopqrstuvwxyz";
    let at = hex(0x1f, &mut buf);
    assert_eq!(at, 22);
    assert_eq!(&buf, b"abcdefghijklmnopqrstuv0x1f");
    let mut buf = *b"abcdefghijklmnopqrstuvwxyz";
    let at = fill_i32(-42, &mut buf);
    assert_eq!(at, 23);
    assert_eq!(&buf, b"abcdefghijklmnopqrstuvw-42");
    let mut buf = *b"abcdefghijklmnopqrstuvwxyz";
    let at = fill_i8(7, &mut buf);
    assert_eq!(at, 25);
    assert_eq!(&buf, b"abcdefghijklmnopqrstuvwxy7");
}

#[test]
fn hexadecimal_text_round_trips() {
    let mut x: usize = 1;
    for _ in 0..2000 {
        x = x.wrapping_mul(6364136223846793005usize).wrapping_add(1442695040888963407usize);
        let mut buf = [0u8; 18];
        let at = hex(x, &mut buf);
        let text = ascii_tail(&buf, at);
        assert!(text.starts_with("0x"));
        assert!(text[2..].chars().all(|c| matches!(c, '0'..='9' | 'a'..='f')));
        assert_eq!(usize::from_str_radix(&text[2..], 16), Ok(x));
        assert!(x == 0 || !text[2..].starts_with('0'));
    }
}
