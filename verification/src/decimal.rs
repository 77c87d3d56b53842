use vstd::prelude::*;
use vstd::utf8::{
    decode_utf8, encode_utf8, encode_utf8_decode_utf8, encode_utf8_valid_utf8, is_ascii_chars,
    is_ascii_chars_encode_utf8, valid_utf8,
};
use vstd::string::StringSliceAdditionalSpecFns;

verus! {

/// The character of one decimal digit.
pub open spec fn digit_char(d: nat) -> char {
    (d + 48) as char
}

/// The decimal digits of `n`, most significant first: one digit for zero, and
/// no leading zero otherwise.
pub open spec fn decimal(n: nat) -> Seq<char>
    decreases n,
{
    if n < 10 {
        seq![digit_char(n)]
    } else {
        decimal(n / 10).push(digit_char(n % 10))
    }
}

/// The magnitude of an integer.
pub open spec fn magnitude(n: int) -> nat {
    if n < 0 {
        (-n) as nat
    } else {
        n as nat
    }
}

/// The decimal text of an integer: a minus sign before the digits of the
/// magnitude of a negative one.
pub open spec fn signed_decimal(n: int) -> Seq<char> {
    if n < 0 {
        seq!['-'] + decimal((-n) as nat)
    } else {
        decimal(n as nat)
    }
}

/// The characters that a sequence of ASCII bytes stands for.
pub open spec fn ascii(bytes: Seq<u8>) -> Seq<char> {
    Seq::new(bytes.len(), |i: int| bytes[i] as char)
}

/// `core::str::from_utf8`: the conversion succeeds on the byte sequences that
/// are valid UTF-8 and on no others, and the string slice then has exactly
/// the given bytes.
#[verifier::external_body]
fn from_utf8(bytes: &[u8]) -> (r: Option<&str>)
    ensures
        valid_utf8(bytes@) <==> r is Some,
        r matches Some(s) ==> s.spec_bytes() == bytes@,
{
    core::str::from_utf8(bytes).ok()
}

/// ASCII bytes are valid UTF-8, and decode to one character each.
pub proof fn lemma_ascii_utf8(bytes: Seq<u8>)
    requires
        forall|i: int| 0 <= i < bytes.len() ==> bytes[i] < 128,
    ensures
        valid_utf8(bytes),
        decode_utf8(bytes) == ascii(bytes),
{
    let chars = ascii(bytes);
    assert(is_ascii_chars(chars));
    is_ascii_chars_encode_utf8(chars);
    assert(encode_utf8(chars) =~= bytes) by {
        assert forall|i: int| 0 <= i < bytes.len() implies encode_utf8(chars)[i] == bytes[i] by {
            assert(chars[i] as u8 == encode_utf8(chars)[i]);
        }
    }
    encode_utf8_valid_utf8(chars);
    encode_utf8_decode_utf8(chars);
}

/// The text of the ASCII bytes of `buf` from `at` on.
pub fn ascii_tail(buf: &[u8], at: usize) -> (s: &str)
    requires
        at <= buf@.len(),
        forall|i: int| at <= i < buf@.len() ==> buf@[i] < 128,
    ensures
        s@ == ascii(buf@.skip(at as int)),
{
    let tail = vstd::slice::slice_subrange(buf, at, buf.len());
    proof {
        assert(tail@ =~= buf@.skip(at as int));
        lemma_ascii_utf8(tail@);
    }
    match from_utf8(tail) {
        Some(s) => {
            proof {
                encode_utf8_decode_utf8(s@);
            }
            s
        },
        None => vstd::pervasive::unreached(),
    }
}

/// Ten to the power of `k`.
pub open spec fn pow10(k: nat) -> nat
    decreases k,
{
    if k == 0 {
        1
    } else {
        10 * pow10((k - 1) as nat)
    }
}

/// A number below ten to the power of `k` has at most `k` digits.
pub proof fn lemma_decimal_len(n: nat, k: nat)
    requires
        k >= 1,
        n < pow10(k),
    ensures
        1 <= decimal(n).len() <= k,
    decreases k,
{
    reveal_with_fuel(pow10, 2);
    if n >= 10 {
        lemma_decimal_len(n / 10, (k - 1) as nat);
    }
}

/// Every character of a decimal text is an ASCII digit.
pub proof fn lemma_decimal_ascii(n: nat)
    ensures
        forall|i: int| 0 <= i < decimal(n).len() ==> '0' <= #[trigger] decimal(n)[i] <= '9',
    decreases n,
{
    if n >= 10 {
        lemma_decimal_ascii(n / 10);
        let last = decimal(n).len() - 1;
        assert(decimal(n)[last] == digit_char(n % 10));
        assert forall|i: int| 0 <= i < decimal(n).len() implies '0' <= #[trigger] decimal(n)[i]
            <= '9' by {
            if i < last {
                assert(decimal(n)[i] == decimal(n / 10)[i]);
            }
        }
    } else {
        assert(decimal(n)[0] == digit_char(n));
    }
}

/// The value of one decimal digit, if the character is one.
pub open spec fn digit_value(c: char) -> Option<nat> {
    if '0' <= c <= '9' {
        Some((c as nat - 48) as nat)
    } else {
        None
    }
}

/// The number that a decimal text stands for, if the text is made of one or
/// more decimal digits.
pub open spec fn parse_decimal(s: Seq<char>) -> Option<nat>
    decreases s.len(),
{
    if s.len() == 0 {
        None
    } else if s.len() == 1 {
        digit_value(s[0])
    } else {
        match (parse_decimal(s.drop_last()), digit_value(s.last())) {
            (Some(high), Some(low)) => Some(10 * high + low),
            _ => None,
        }
    }
}

/// The integer that a decimal text with an optional minus sign stands for.
pub open spec fn parse_signed_decimal(s: Seq<char>) -> Option<int> {
    if s.len() > 0 && s[0] == '-' {
        match parse_decimal(s.skip(1)) {
            Some(magnitude) => Some(-(magnitude as int)),
            None => None,
        }
    } else {
        match parse_decimal(s) {
            Some(value) => Some(value as int),
            None => None,
        }
    }
}

/// Rendering a number and parsing the text gives the number back. The text of
/// zero is the single digit `0`, and no other text begins with a zero.
pub proof fn lemma_decimal_round_trip(n: nat)
    ensures
        parse_decimal(decimal(n)) == Some(n),
        n == 0 ==> decimal(n) == seq!['0'],
        n > 0 ==> decimal(n)[0] != '0',
    decreases n,
{
    if n < 10 {
        assert(decimal(n) == seq![digit_char(n)]);
        assert(digit_value(digit_char(n)) == Some(n));
    } else {
        lemma_decimal_round_trip(n / 10);
        let text = decimal(n);
        assert(text.drop_last() =~= decimal(n / 10));
        assert(text.last() == digit_char(n % 10));
        assert(digit_value(digit_char(n % 10)) == Some(n % 10));
        assert(text[0] == decimal(n / 10)[0]);
    }
}

/// The text of a negative integer is a minus sign followed by the decimal
/// digits of its magnitude, and parsing the text gives the integer back.
pub proof fn lemma_signed_decimal_negative(n: int)
    requires
        n < 0,
    ensures
        signed_decimal(n)[0] == '-',
        signed_decimal(n).skip(1) == decimal((-n) as nat),
        parse_signed_decimal(signed_decimal(n)) == Some(n),
{
    assert(signed_decimal(n).skip(1) =~= decimal((-n) as nat));
    lemma_decimal_round_trip((-n) as nat);
}

/// Parsing the text of any integer gives the integer back.
pub proof fn lemma_signed_decimal_round_trip(n: int)
    ensures
        parse_signed_decimal(signed_decimal(n)) == Some(n),
{
    if n < 0 {
        lemma_signed_decimal_negative(n);
    } else {
        lemma_decimal_round_trip(n as nat);
        lemma_decimal_ascii(n as nat);
    }
}

/// The digits of `v`, or no digit at all when `v` is zero: what is still to be
/// written before the digits that a conversion has already produced.
pub open spec fn leading(v: nat) -> Seq<char> {
    if v == 0 {
        Seq::empty()
    } else {
        decimal(v)
    }
}

/// Taking the last digit off `v` leaves the leading digits of `v / 10`.
pub proof fn lemma_decimal_step(v: nat)
    ensures
        decimal(v) == leading(v / 10).push(digit_char(v % 10)),
{
    if v < 10 {
        assert(Seq::<char>::empty().push(digit_char(v)) =~= seq![digit_char(v)]);
    }
}

/// Writes the decimal digits of `n` at the end of `buf` and returns the index
/// of the first digit. Any buffer that has room for the digits will do; the
/// bytes before that index are left as they were.
pub fn fill_u8(n: u8, buf: &mut [u8]) -> (at: usize)
    requires
        old(buf)@.len() >= decimal(n as nat).len(),
    ensures
        final(buf)@.len() == old(buf)@.len(),
        at + decimal(n as nat).len() == final(buf)@.len(),
        ascii(final(buf)@.skip(at as int)) == decimal(n as nat),
        forall|i: int| at <= i < final(buf)@.len() ==> final(buf)@[i] < 128,
        forall|i: int| 0 <= i < at ==> final(buf)@[i] == old(buf)@[i],
{
    let mut v: u8 = n;
    let mut at: usize = buf.len();
    proof {
        assert(decimal(n as nat) + ascii(buf@.skip(at as int)) =~= decimal(n as nat));
    }
    loop
        invariant_except_break
            decimal(v as nat).len() <= at,
            decimal(v as nat) + ascii(buf@.skip(at as int)) == decimal(n as nat),
        invariant
            buf@.len() == old(buf)@.len(),
            at <= buf@.len(),
            forall|i: int| at <= i < buf@.len() ==> buf@[i] < 128,
            forall|i: int| 0 <= i < at ==> buf@[i] == old(buf)@[i],
        ensures
            ascii(buf@.skip(at as int)) == decimal(n as nat),
        decreases at,
    {
        let ghost before = buf@;
        let ghost whole = v as nat;
        proof {
            lemma_decimal_step(whole);
        }
        at = at - 1;
        let d: u8 = v % 10 + 48;
        buf[at] = d;
        v = v / 10;
        proof {
            assert(d as char == digit_char(whole % 10));
            assert(ascii(buf@.skip(at as int)) =~= seq![d as char] + ascii(before.skip(at + 1)));
            assert(leading(v as nat).push(d as char) + ascii(before.skip(at + 1)) =~= leading(
                v as nat,
            ) + ascii(buf@.skip(at as int)));
        }
        if v == 0 {
            break ;
        }
    }
    at
}

/// Writes the decimal digits of `n` at the end of `buf` and returns the index
/// of the first digit. Any buffer that has room for the digits will do; the
/// bytes before that index are left as they were.
pub fn fill_u16(n: u16, buf: &mut [u8]) -> (at: usize)
    requires
        old(buf)@.len() >= decimal(n as nat).len(),
    ensures
        final(buf)@.len() == old(buf)@.len(),
        at + decimal(n as nat).len() == final(buf)@.len(),
        ascii(final(buf)@.skip(at as int)) == decimal(n as nat),
        forall|i: int| at <= i < final(buf)@.len() ==> final(buf)@[i] < 128,
        forall|i: int| 0 <= i < at ==> final(buf)@[i] == old(buf)@[i],
{
    let mut v: u16 = n;
    let mut at: usize = buf.len();
    proof {
        assert(decimal(n as nat) + ascii(buf@.skip(at as int)) =~= decimal(n as nat));
    }
    loop
        invariant_except_break
            decimal(v as nat).len() <= at,
            decimal(v as nat) + ascii(buf@.skip(at as int)) == decimal(n as nat),
        invariant
            buf@.len() == old(buf)@.len(),
            at <= buf@.len(),
            forall|i: int| at <= i < buf@.len() ==> buf@[i] < 128,
            forall|i: int| 0 <= i < at ==> buf@[i] == old(buf)@[i],
        ensures
            ascii(buf@.skip(at as int)) == decimal(n as nat),
        decreases at,
    {
        let ghost before = buf@;
        let ghost whole = v as nat;
        proof {
            lemma_decimal_step(whole);
        }
        at = at - 1;
        let d: u8 = (v % 10) as u8 + 48;
        buf[at] = d;
        v = v / 10;
        proof {
            assert(d as char == digit_char(whole % 10));
            assert(ascii(buf@.skip(at as int)) =~= seq![d as char] + ascii(before.skip(at + 1)));
            assert(leading(v as nat).push(d as char) + ascii(before.skip(at + 1)) =~= leading(
                v as nat,
            ) + ascii(buf@.skip(at as int)));
        }
        if v == 0 {
            break ;
        }
    }
    at
}

/// Writes the decimal digits of `n` at the end of `buf` and returns the index
/// of the first digit. Any buffer that has room for the digits will do; the
/// bytes before that index are left as they were.
pub fn fill_u32(n: u32, buf: &mut [u8]) -> (at: usize)
    requires
        old(buf)@.len() >= decimal(n as nat).len(),
    ensures
        final(buf)@.len() == old(buf)@.len(),
        at + decimal(n as nat).len() == final(buf)@.len(),
        ascii(final(buf)@.skip(at as int)) == decimal(n as nat),
        forall|i: int| at <= i < final(buf)@.len() ==> final(buf)@[i] < 128,
        forall|i: int| 0 <= i < at ==> final(buf)@[i] == old(buf)@[i],
{
    let mut v: u32 = n;
    let mut at: usize = buf.len();
    proof {
        assert(decimal(n as nat) + ascii(buf@.skip(at as int)) =~= decimal(n as nat));
    }
    loop
        invariant_except_break
            decimal(v as nat).len() <= at,
            decimal(v as nat) + ascii(buf@.skip(at as int)) == decimal(n as nat),
        invariant
            buf@.len() == old(buf)@.len(),
            at <= buf@.len(),
            forall|i: int| at <= i < buf@.len() ==> buf@[i] < 128,
            forall|i: int| 0 <= i < at ==> buf@[i] == old(buf)@[i],
        ensures
            ascii(buf@.skip(at as int)) == decimal(n as nat),
        decreases at,
    {
        let ghost before = buf@;
        let ghost whole = v as nat;
        proof {
            lemma_decimal_step(whole);
        }
        at = at - 1;
        let d: u8 = (v % 10) as u8 + 48;
        buf[at] = d;
        v = v / 10;
        proof {
            assert(d as char == digit_char(whole % 10));
            assert(ascii(buf@.skip(at as int)) =~= seq![d as char] + ascii(before.skip(at + 1)));
            assert(leading(v as nat).push(d as char) + ascii(before.skip(at + 1)) =~= leading(
                v as nat,
            ) + ascii(buf@.skip(at as int)));
        }
        if v == 0 {
            break ;
        }
    }
    at
}

/// Writes the decimal digits of `n` at the end of `buf` and returns the index
/// of the first digit. Any buffer that has room for the digits will do; the
/// bytes before that index are left as they were.
pub fn fill_u64(n: u64, buf: &mut [u8]) -> (at: usize)
    requires
        old(buf)@.len() >= decimal(n as nat).len(),
    ensures
        final(buf)@.len() == old(buf)@.len(),
        at + decimal(n as nat).len() == final(buf)@.len(),
        ascii(final(buf)@.skip(at as int)) == decimal(n as nat),
        forall|i: int| at <= i < final(buf)@.len() ==> final(buf)@[i] < 128,
        forall|i: int| 0 <= i < at ==> final(buf)@[i] == old(buf)@[i],
{
    let mut v: u64 = n;
    let mut at: usize = buf.len();
    proof {
        assert(decimal(n as nat) + ascii(buf@.skip(at as int)) =~= decimal(n as nat));
    }
    loop
        invariant_except_break
            decimal(v as nat).len() <= at,
            decimal(v as nat) + ascii(buf@.skip(at as int)) == decimal(n as nat),
        invariant
            buf@.len() == old(buf)@.len(),
            at <= buf@.len(),
            forall|i: int| at <= i < buf@.len() ==> buf@[i] < 128,
            forall|i: int| 0 <= i < at ==> buf@[i] == old(buf)@[i],
        ensures
            ascii(buf@.skip(at as int)) == decimal(n as nat),
        decreases at,
    {
        let ghost before = buf@;
        let ghost whole = v as nat;
        proof {
            lemma_decimal_step(whole);
        }
        at = at - 1;
        let d: u8 = (v % 10) as u8 + 48;
        buf[at] = d;
        v = v / 10;
        proof {
            assert(d as char == digit_char(whole % 10));
            assert(ascii(buf@.skip(at as int)) =~= seq![d as char] + ascii(before.skip(at + 1)));
            assert(leading(v as nat).push(d as char) + ascii(before.skip(at + 1)) =~= leading(
                v as nat,
            ) + ascii(buf@.skip(at as int)));
        }
        if v == 0 {
            break ;
        }
    }
    at
}

/// Writes the decimal digits of `n` at the end of `buf` and returns the index
/// of the first digit. Any buffer that has room for the digits will do; the
/// bytes before that index are left as they were.
pub fn fill_u128(n: u128, buf: &mut [u8]) -> (at: usize)
    requires
        old(buf)@.len() >= decimal(n as nat).len(),
    ensures
        final(buf)@.len() == old(buf)@.len(),
        at + decimal(n as nat).len() == final(buf)@.len(),
        ascii(final(buf)@.skip(at as int)) == decimal(n as nat),
        forall|i: int| at <= i < final(buf)@.len() ==> final(buf)@[i] < 128,
        forall|i: int| 0 <= i < at ==> final(buf)@[i] == old(buf)@[i],
{
    let mut v: u128 = n;
    let mut at: usize = buf.len();
    proof {
        assert(decimal(n as nat) + ascii(buf@.skip(at as int)) =~= decimal(n as nat));
    }
    loop
        invariant_except_break
            decimal(v as nat).len() <= at,
            decimal(v as nat) + ascii(buf@.skip(at as int)) == decimal(n as nat),
        invariant
            buf@.len() == old(buf)@.len(),
            at <= buf@.len(),
            forall|i: int| at <= i < buf@.len() ==> buf@[i] < 128,
            forall|i: int| 0 <= i < at ==> buf@[i] == old(buf)@[i],
        ensures
            ascii(buf@.skip(at as int)) == decimal(n as nat),
        decreases at,
    {
        let ghost before = buf@;
        let ghost whole = v as nat;
        proof {
            lemma_decimal_step(whole);
        }
        at = at - 1;
        let d: u8 = (v % 10) as u8 + 48;
        buf[at] = d;
        v = v / 10;
        proof {
            assert(d as char == digit_char(whole % 10));
            assert(ascii(buf@.skip(at as int)) =~= seq![d as char] + ascii(before.skip(at + 1)));
            assert(leading(v as nat).push(d as char) + ascii(before.skip(at + 1)) =~= leading(
                v as nat,
            ) + ascii(buf@.skip(at as int)));
        }
        if v == 0 {
            break ;
        }
    }
    at
}

/// Writes the decimal text of `n` at the end of `buf`, with a minus sign before
/// the digits of a negative number, and returns the index of the first
/// character. Any buffer that has room for the text will do; the bytes before
/// that index are left as they were. The magnitude of the least value, which
/// has no positive counterpart in its own type, is taken from the unsigned
/// type.
pub fn fill_i8(n: i8, buf: &mut [u8]) -> (at: usize)
    requires
        old(buf)@.len() >= signed_decimal(n as int).len(),
    ensures
        final(buf)@.len() == old(buf)@.len(),
        at + signed_decimal(n as int).len() == final(buf)@.len(),
        ascii(final(buf)@.skip(at as int)) == signed_decimal(n as int),
        forall|i: int| at <= i < final(buf)@.len() ==> final(buf)@[i] < 128,
        forall|i: int| 0 <= i < at ==> final(buf)@[i] == old(buf)@[i],
{
    let negative = n < 0;
    let magnitude: u8 = if negative {
        if n == i8::MIN {
            u8::MAX / 2 + 1
        } else {
            (-n) as u8
        }
    } else {
        n as u8
    };
    proof {
        assert(negative ==> magnitude as nat == (-(n as int)) as nat);
        assert(signed_decimal(n as int).len() == decimal(magnitude as nat).len() + if negative {
            1nat
        } else {
            0nat
        });
    }
    let digits = fill_u8(magnitude, buf);
    if negative {
        let at = digits - 1;
        let ghost before = buf@;
        buf[at] = 45;
        proof {
            assert(ascii(buf@.skip(at as int)) =~= seq!['-'] + ascii(before.skip(digits as int)));
        }
        at
    } else {
        digits
    }
}

/// Writes the decimal text of `n` at the end of `buf`, with a minus sign before
/// the digits of a negative number, and returns the index of the first
/// character. Any buffer that has room for the text will do; the bytes before
/// that index are left as they were. The magnitude of the least value, which
/// has no positive counterpart in its own type, is taken from the unsigned
/// type.
pub fn fill_i16(n: i16, buf: &mut [u8]) -> (at: usize)
    requires
        old(buf)@.len() >= signed_decimal(n as int).len(),
    ensures
        final(buf)@.len() == old(buf)@.len(),
        at + signed_decimal(n as int).len() == final(buf)@.len(),
        ascii(final(buf)@.skip(at as int)) == signed_decimal(n as int),
        forall|i: int| at <= i < final(buf)@.len() ==> final(buf)@[i] < 128,
        forall|i: int| 0 <= i < at ==> final(buf)@[i] == old(buf)@[i],
{
    let negative = n < 0;
    let magnitude: u16 = if negative {
        if n == i16::MIN {
            u16::MAX / 2 + 1
        } else {
            (-n) as u16
        }
    } else {
        n as u16
    };
    proof {
        assert(negative ==> magnitude as nat == (-(n as int)) as nat);
        assert(signed_decimal(n as int).len() == decimal(magnitude as nat).len() + if negative {
            1nat
        } else {
            0nat
        });
    }
    let digits = fill_u16(magnitude, buf);
    if negative {
        let at = digits - 1;
        let ghost before = buf@;
        buf[at] = 45;
        proof {
            assert(ascii(buf@.skip(at as int)) =~= seq!['-'] + ascii(before.skip(digits as int)));
        }
        at
    } else {
        digits
    }
}

/// Writes the decimal text of `n` at the end of `buf`, with a minus sign before
/// the digits of a negative number, and returns the index of the first
/// character. Any buffer that has room for the text will do; the bytes before
/// that index are left as they were. The magnitude of the least value, which
/// has no positive counterpart in its own type, is taken from the unsigned
/// type.
pub fn fill_i32(n: i32, buf: &mut [u8]) -> (at: usize)
    requires
        old(buf)@.len() >= signed_decimal(n as int).len(),
    ensures
        final(buf)@.len() == old(buf)@.len(),
        at + signed_decimal(n as int).len() == final(buf)@.len(),
        ascii(final(buf)@.skip(at as int)) == signed_decimal(n as int),
        forall|i: int| at <= i < final(buf)@.len() ==> final(buf)@[i] < 128,
        forall|i: int| 0 <= i < at ==> final(buf)@[i] == old(buf)@[i],
{
    let negative = n < 0;
    let magnitude: u32 = if negative {
        if n == i32::MIN {
            u32::MAX / 2 + 1
        } else {
            (-n) as u32
        }
    } else {
        n as u32
    };
    proof {
        assert(negative ==> magnitude as nat == (-(n as int)) as nat);
        assert(signed_decimal(n as int).len() == decimal(magnitude as nat).len() + if negative {
            1nat
        } else {
            0nat
        });
    }
    let digits = fill_u32(magnitude, buf);
    if negative {
        let at = digits - 1;
        let ghost before = buf@;
        buf[at] = 45;
        proof {
            assert(ascii(buf@.skip(at as int)) =~= seq!['-'] + ascii(before.skip(digits as int)));
        }
        at
    } else {
        digits
    }
}

/// Writes the decimal text of `n` at the end of `buf`, with a minus sign before
/// the digits of a negative number, and returns the index of the first
/// character. Any buffer that has room for the text will do; the bytes before
/// that index are left as they were. The magnitude of the least value, which
/// has no positive counterpart in its own type, is taken from the unsigned
/// type.
pub fn fill_i64(n: i64, buf: &mut [u8]) -> (at: usize)
    requires
        old(buf)@.len() >= signed_decimal(n as int).len(),
    ensures
        final(buf)@.len() == old(buf)@.len(),
        at + signed_decimal(n as int).len() == final(buf)@.len(),
        ascii(final(buf)@.skip(at as int)) == signed_decimal(n as int),
        forall|i: int| at <= i < final(buf)@.len() ==> final(buf)@[i] < 128,
        forall|i: int| 0 <= i < at ==> final(buf)@[i] == old(buf)@[i],
{
    let negative = n < 0;
    let magnitude: u64 = if negative {
        if n == i64::MIN {
            u64::MAX / 2 + 1
        } else {
            (-n) as u64
        }
    } else {
        n as u64
    };
    proof {
        assert(negative ==> magnitude as nat == (-(n as int)) as nat);
        assert(signed_decimal(n as int).len() == decimal(magnitude as nat).len() + if negative {
            1nat
        } else {
            0nat
        });
    }
    let digits = fill_u64(magnitude, buf);
    if negative {
        let at = digits - 1;
        let ghost before = buf@;
        buf[at] = 45;
        proof {
            assert(ascii(buf@.skip(at as int)) =~= seq!['-'] + ascii(before.skip(digits as int)));
        }
        at
    } else {
        digits
    }
}

/// Writes the decimal text of `n` at the end of `buf`, with a minus sign before
/// the digits of a negative number, and returns the index of the first
/// character. Any buffer that has room for the text will do; the bytes before
/// that index are left as they were. The magnitude of the least value, which
/// has no positive counterpart in its own type, is taken from the unsigned
/// type.
pub fn fill_i128(n: i128, buf: &mut [u8]) -> (at: usize)
    requires
        old(buf)@.len() >= signed_decimal(n as int).len(),
    ensures
        final(buf)@.len() == old(buf)@.len(),
        at + signed_decimal(n as int).len() == final(buf)@.len(),
        ascii(final(buf)@.skip(at as int)) == signed_decimal(n as int),
        forall|i: int| at <= i < final(buf)@.len() ==> final(buf)@[i] < 128,
        forall|i: int| 0 <= i < at ==> final(buf)@[i] == old(buf)@[i],
{
    let negative = n < 0;
    let magnitude: u128 = if negative {
        if n == i128::MIN {
            u128::MAX / 2 + 1
        } else {
            (-n) as u128
        }
    } else {
        n as u128
    };
    proof {
        assert(negative ==> magnitude as nat == (-(n as int)) as nat);
        assert(signed_decimal(n as int).len() == decimal(magnitude as nat).len() + if negative {
            1nat
        } else {
            0nat
        });
    }
    let digits = fill_u128(magnitude, buf);
    if negative {
        let at = digits - 1;
        let ghost before = buf@;
        buf[at] = 45;
        proof {
            assert(ascii(buf@.skip(at as int)) =~= seq!['-'] + ascii(before.skip(digits as int)));
        }
        at
    } else {
        digits
    }
}

} // verus!
