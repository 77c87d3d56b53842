use vstd::prelude::*;
use crate::decimal::{ascii, ascii_tail};
use crate::formatter::{uDebug, Formatter};
use crate::write::uWrite;

verus! {

/// The character of one hexadecimal digit, in lower case.
pub open spec fn hex_digit(d: nat) -> char {
    if d < 10 {
        (d + 48) as char
    } else {
        (d + 87) as char
    }
}

/// The hexadecimal digits of `n`, most significant first: one digit for zero,
/// and no leading zero otherwise.
pub open spec fn hex_digits(n: nat) -> Seq<char>
    decreases n,
{
    if n < 16 {
        seq![hex_digit(n)]
    } else {
        hex_digits(n / 16).push(hex_digit(n % 16))
    }
}

/// The text of an address: `0x` and the hexadecimal digits, as many as the
/// address needs.
pub open spec fn address_text(n: nat) -> Seq<char> {
    seq!['0', 'x'] + hex_digits(n)
}

/// The value of one hexadecimal digit in lower case, if the character is one.
pub open spec fn hex_value(c: char) -> Option<nat> {
    if '0' <= c <= '9' {
        Some((c as nat - 48) as nat)
    } else if 'a' <= c <= 'f' {
        Some((c as nat - 87) as nat)
    } else {
        None
    }
}

/// The number that a text of one or more lower-case hexadecimal digits stands
/// for.
pub open spec fn parse_hex(s: Seq<char>) -> Option<nat>
    decreases s.len(),
{
    if s.len() == 0 {
        None
    } else if s.len() == 1 {
        hex_value(s[0])
    } else {
        match (parse_hex(s.drop_last()), hex_value(s.last())) {
            (Some(high), Some(low)) => Some(16 * high + low),
            _ => None,
        }
    }
}

/// Rendering a number in hexadecimal and parsing the digits gives the number
/// back. Every digit is a decimal digit or a letter from `a` to `f`; the text
/// of zero is the single digit `0`, and no other text begins with a zero.
pub proof fn lemma_hex_round_trip(n: nat)
    ensures
        parse_hex(hex_digits(n)) == Some(n),
        forall|i: int|
            0 <= i < hex_digits(n).len() ==> hex_value(#[trigger] hex_digits(n)[i]) is Some,
        n == 0 ==> hex_digits(n) == seq!['0'],
        n > 0 ==> hex_digits(n)[0] != '0',
    decreases n,
{
    if n < 16 {
        assert(hex_digits(n) == seq![hex_digit(n)]);
        assert(hex_value(hex_digit(n)) == Some(n));
    } else {
        lemma_hex_round_trip(n / 16);
        let text = hex_digits(n);
        let last = text.len() - 1;
        assert(text.drop_last() =~= hex_digits(n / 16));
        assert(text.last() == hex_digit(n % 16));
        assert(hex_value(hex_digit(n % 16)) == Some(n % 16));
        assert(text[0] == hex_digits(n / 16)[0]);
        assert forall|i: int| 0 <= i < text.len() implies hex_value(#[trigger] text[i]) is Some by {
            if i < last {
                assert(text[i] == hex_digits(n / 16)[i]);
            }
        }
    }
}

/// The text of an address is `0x` followed by the hexadecimal digits of the
/// address, from which the address is read back.
pub proof fn lemma_address_round_trip(n: nat)
    ensures
        address_text(n).take(2) == seq!['0', 'x'],
        parse_hex(address_text(n).skip(2)) == Some(n),
{
    lemma_hex_round_trip(n);
    assert(address_text(n).take(2) =~= seq!['0', 'x']);
    assert(address_text(n).skip(2) =~= hex_digits(n));
}

/// Sixteen to the power of `k`.
pub open spec fn pow16(k: nat) -> nat
    decreases k,
{
    if k == 0 {
        1
    } else {
        16 * pow16((k - 1) as nat)
    }
}

/// A number below sixteen to the power of `k` has at most `k` hexadecimal
/// digits.
pub proof fn lemma_hex_len(n: nat, k: nat)
    requires
        k >= 1,
        n < pow16(k),
    ensures
        1 <= hex_digits(n).len() <= k,
    decreases k,
{
    reveal_with_fuel(pow16, 2);
    if n >= 16 {
        lemma_hex_len(n / 16, (k - 1) as nat);
    }
}

/// The digits of `v`, or no digit at all when `v` is zero.
pub open spec fn hex_leading(v: nat) -> Seq<char> {
    if v == 0 {
        Seq::empty()
    } else {
        hex_digits(v)
    }
}

/// Taking the last digit off `v` leaves the leading digits of `v / 16`.
pub proof fn lemma_hex_step(v: nat)
    ensures
        hex_digits(v) == hex_leading(v / 16).push(hex_digit(v % 16)),
{
    if v < 16 {
        assert(Seq::<char>::empty().push(hex_digit(v)) =~= seq![hex_digit(v)]);
    }
}

/// Writes the text of the address `n` at the end of `buf` and returns the
/// index of its first character. Any buffer that has room for the text will
/// do; the bytes before that index are left as they were.
pub fn hex(n: usize, buf: &mut [u8]) -> (at: usize)
    requires
        old(buf)@.len() >= address_text(n as nat).len(),
    ensures
        final(buf)@.len() == old(buf)@.len(),
        at + address_text(n as nat).len() == final(buf)@.len(),
        ascii(final(buf)@.skip(at as int)) == address_text(n as nat),
        forall|i: int| at <= i < final(buf)@.len() ==> final(buf)@[i] < 128,
        forall|i: int| 0 <= i < at ==> final(buf)@[i] == old(buf)@[i],
{
    let mut v: usize = n;
    let mut at: usize = buf.len();
    proof {
        assert(address_text(n as nat).len() == hex_digits(n as nat).len() + 2);
        assert(hex_digits(n as nat) + ascii(buf@.skip(at as int)) =~= hex_digits(n as nat));
    }
    loop
        invariant_except_break
            hex_digits(v as nat).len() + 2 <= at,
            hex_digits(v as nat) + ascii(buf@.skip(at as int)) == hex_digits(n as nat),
        invariant
            buf@.len() == old(buf)@.len(),
            2 <= at <= buf@.len(),
            forall|i: int| at <= i < buf@.len() ==> buf@[i] < 128,
            forall|i: int| 0 <= i < at ==> buf@[i] == old(buf)@[i],
        ensures
            ascii(buf@.skip(at as int)) == hex_digits(n as nat),
        decreases at,
    {
        let ghost before = buf@;
        let ghost whole = v as nat;
        proof {
            lemma_hex_step(whole);
        }
        at = at - 1;
        let d: u8 = (v % 16) as u8;
        let c: u8 = if d < 10 {
            d + 48
        } else {
            (d - 10) + 97
        };
        buf[at] = c;
        v = v / 16;
        proof {
            assert(c as char == hex_digit(whole % 16));
            assert(ascii(buf@.skip(at as int)) =~= seq![c as char] + ascii(before.skip(at + 1)));
            assert(hex_leading(v as nat).push(c as char) + ascii(before.skip(at + 1))
                =~= hex_leading(v as nat) + ascii(buf@.skip(at as int)));
        }
        if v == 0 {
            break ;
        }
    }
    let ghost digits = buf@;
    at = at - 1;
    buf[at] = 120;
    at = at - 1;
    buf[at] = 48;
    proof {
        assert(ascii(buf@.skip(at as int)) =~= seq!['0', 'x'] + ascii(digits.skip(at + 2)));
    }
    at
}

/// A raw address, as a pointer holds it.
#[derive(Debug, PartialEq, Eq, Clone, Copy, Structural)]
pub struct Pointer {
    pub address: usize,
}

impl uDebug for Pointer {
    /// The text of the address, as one fragment.
    open spec fn debug_script(&self, pretty: bool, depth: nat) -> Seq<Seq<char>> {
        seq![address_text(self.address as nat)]
    }

    fn fmt<W: uWrite>(&self, f: &mut Formatter<'_, W>) -> (r: Result<(), W::Error>) {
        let mut buf: [u8; 18] = [0; 18];
        proof {
            reveal_with_fuel(pow16, 17);
            lemma_hex_len(self.address as nat, 16);
        }
        let at = hex(self.address, &mut buf);
        f.write_str(ascii_tail(&buf, at))
    }
}

} // verus!
