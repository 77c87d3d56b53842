use ufmt::{uDebug, uDisplay, uWrite, Formatter};

fn display<T: uDisplay>(value: &T) -> String {
    let mut s = String::new();
    {
        let mut f = Formatter::new(&mut s);
        uDisplay::fmt(value, &mut f).unwrap();
    }
    s
}

fn debug<T: uDebug>(value: &T) -> String {
    let mut s = String::new();
    {
        let mut f = Formatter::new(&mut s);
        uDebug::fmt(value, &mut f).unwrap();
    }
    s
}

#[test]
fn zero_is_a_single_digit() {
    assert_eq!(display(&0u8), "0");
    assert_eq!(display(&0u128), "0");
    assert_eq!(display(&0i64), "0");
    assert_eq!(debug(&0usize), "0");
}

#[test]
fn unsigned_maxima() {
    assert_eq!(display(&u8::MAX), "255");
    assert_eq!(display(&u16::MAX), "65535");
    assert_eq!(display(&u32::MAX), "4294967295");
    assert_eq!(display(&u64::MAX), "18446744073709551615");
    assert_eq!(display(&u128::MAX), "340282366920938463463374607431768211455");
    assert_eq!(display(&usize::MAX), usize::MAX.to_string());
}

#[test]
fn signed_minima() {
    assert_eq!(display(&i8::MIN), "-128");
    assert_eq!(display(&i16::MIN), "-32768");
    assert_eq!(display(&i32::MIN), "-2147483648");
    assert_eq!(display(&i64::MIN), "-9223372036854775808");
    assert_eq!(display(&i128::MIN), "-170141183460469231731687303715884105728");
    assert_eq!(display(&isize::MIN), isize::MIN.to_string());
}

#[test]
fn signed_maxima() {
    assert_eq!(debug(&i8::MAX), "127");
    assert_eq!(debug(&i32::MAX), "2147483647");
    assert_eq!(debug(&i128::MAX), "170141183460469231731687303715884105727");
}

#[test]
fn every_byte_round_trips() {
    for n in 0..=u8::MAX {
        let text = display(&n);
        assert_eq!(text.parse::<u8>().unwrap(), n);
        assert!(n == 0 || !text.starts_with('0'));
    }
    for n in i8::MIN..=i8::MAX {
        let text = display(&n);
        assert_eq!(text.parse::<i8>().unwrap(), n);
        assert_eq!(n < 0, text.starts_with('-'));
    }
}

struct Limited {
    room: usize,
    text: String,
}

impl uWrite for Limited {
    type Error = usize;

    fn write_str(&mut self, s: &str) -> Result<(), usize> {
        if self.room == 0 {
            return Err(self.text.len());
        }
        self.room -= 1;
        self.text.push_str(s);
        Ok(())
    }
}

#[test]
fn a_full_destination_fails_the_number() {
    let mut w = Limited { room: 0, text: String::new() };
    let r = {
        let mut f = Formatter::new(&mut w);
        uDisplay::fmt(&42u32, &mut f)
    };
    assert_eq!(r, Err(0));
    assert_eq!(w.text, "");
}

#[test]
fn every_sixteen_bit_value_round_trips() {
    for n in 0..=u16::MAX {
        let text = display(&n);
        assert_eq!(text.parse::<u16>().unwrap(), n);
        assert!(n == 0 || !text.starts_with('0'));
    }
    for n in i16::MIN..=i16::MAX {
        let text = debug(&n);
        assert_eq!(text.parse::<i16>().unwrap(), n);
    }
}

#[test]
fn wide_values_round_trip() {
    let mut x: u128 = 1;
    for _ in 0..2000 {
        x = x.wrapping_mul(6364136223846793005).wrapping_add(1442695040888963407);
        assert_eq!(display(&x).parse::<u128>().unwrap(), x);
        assert_eq!(display(&(x as i128)).parse::<i128>().unwrap(), x as i128);
        assert_eq!(display(&(x as u64)).parse::<u64>().unwrap(), x as u64);
        assert_eq!(display(&(x as i64)).parse::<i64>().unwrap(), x as i64);
        assert_eq!(display(&(x as u32)).parse::<u32>().unwrap(), x as u32);
        assert_eq!(display(&(x as i32)).parse::<i32>().unwrap(), x as i32);
        assert_eq!(display(&(x as usize)).parse::<usize>().unwrap(), x as usize);
        assert_eq!(display(&(x as isize)).parse::<isize>().unwrap(), x as isize);
    }
}

#[test]
fn powers_of_ten_have_no_leading_zero() {
    let mut p: u128 = 1;
    let mut digits = 1;
    while let Some(next) = p.checked_mul(10) {
        assert_eq!(display(&p).len(), digits);
        assert_eq!(display(&(p - 1)).len(), if digits == 1 { 1 } else { digits - 1 });
        p = next;
        digits += 1;
    }
    assert_eq!(digits, 39);
}

#[test]
fn display_and_debug_of_numbers_agree() {
    assert_eq!(display(&-17i16), debug(&-17i16));
    assert_eq!(display(&17u64), debug(&17u64));
}
