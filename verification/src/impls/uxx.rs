use vstd::prelude::*;
use crate::decimal::{
    ascii_tail, decimal, lemma_decimal_len, pow10, fill_u8, fill_u16, fill_u32, fill_u64,
    fill_u128,
};
use crate::formatter::{uDebug, uDisplay, Formatter};
use crate::write::uWrite;

verus! {

impl uDebug for u8 {
    /// The decimal digits, as one fragment.
    open spec fn debug_script(&self, pretty: bool, depth: nat) -> Seq<Seq<char>> {
        seq![decimal(*self as nat)]
    }

    fn fmt<W: uWrite>(&self, f: &mut Formatter<'_, W>) -> (r: Result<(), W::Error>) {
        let mut buf: [u8; 3] = [0; 3];
        proof {
            reveal_with_fuel(pow10, 4);
            lemma_decimal_len(*self as nat, 3);
        }
        let at = fill_u8(*self, &mut buf);
        f.write_str(ascii_tail(&buf, at))
    }
}

impl uDisplay for u8 {
    /// The decimal digits, as one fragment.
    open spec fn display_script(&self, pretty: bool, depth: nat) -> Seq<Seq<char>> {
        seq![decimal(*self as nat)]
    }

    fn fmt<W: uWrite>(&self, f: &mut Formatter<'_, W>) -> (r: Result<(), W::Error>) {
        <u8 as uDebug>::fmt(self, f)
    }
}

impl uDebug for u16 {
    /// The decimal digits, as one fragment.
    open spec fn debug_script(&self, pretty: bool, depth: nat) -> Seq<Seq<char>> {
        seq![decimal(*self as nat)]
    }

    fn fmt<W: uWrite>(&self, f: &mut Formatter<'_, W>) -> (r: Result<(), W::Error>) {
        let mut buf: [u8; 5] = [0; 5];
        proof {
            reveal_with_fuel(pow10, 6);
            lemma_decimal_len(*self as nat, 5);
        }
        let at = fill_u16(*self, &mut buf);
        f.write_str(ascii_tail(&buf, at))
    }
}

impl uDisplay for u16 {
    /// The decimal digits, as one fragment.
    open spec fn display_script(&self, pretty: bool, depth: nat) -> Seq<Seq<char>> {
        seq![decimal(*self as nat)]
    }

    fn fmt<W: uWrite>(&self, f: &mut Formatter<'_, W>) -> (r: Result<(), W::Error>) {
        <u16 as uDebug>::fmt(self, f)
    }
}

impl uDebug for u32 {
    /// The decimal digits, as one fragment.
    open spec fn debug_script(&self, pretty: bool, depth: nat) -> Seq<Seq<char>> {
        seq![decimal(*self as nat)]
    }

    fn fmt<W: uWrite>(&self, f: &mut Formatter<'_, W>) -> (r: Result<(), W::Error>) {
        let mut buf: [u8; 10] = [0; 10];
        proof {
            reveal_with_fuel(pow10, 11);
            lemma_decimal_len(*self as nat, 10);
        }
        let at = fill_u32(*self, &mut buf);
        f.write_str(ascii_tail(&buf, at))
    }
}

impl uDisplay for u32 {
    /// The decimal digits, as one fragment.
    open spec fn display_script(&self, pretty: bool, depth: nat) -> Seq<Seq<char>> {
        seq![decimal(*self as nat)]
    }

    fn fmt<W: uWrite>(&self, f: &mut Formatter<'_, W>) -> (r: Result<(), W::Error>) {
        <u32 as uDebug>::fmt(self, f)
    }
}

impl uDebug for u64 {
    /// The decimal digits, as one fragment.
    open spec fn debug_script(&self, pretty: bool, depth: nat) -> Seq<Seq<char>> {
        seq![decimal(*self as nat)]
    }

    fn fmt<W: uWrite>(&self, f: &mut Formatter<'_, W>) -> (r: Result<(), W::Error>) {
        let mut buf: [u8; 20] = [0; 20];
        proof {
            reveal_with_fuel(pow10, 21);
            lemma_decimal_len(*self as nat, 20);
        }
        let at = fill_u64(*self, &mut buf);
        f.write_str(ascii_tail(&buf, at))
    }
}

impl uDisplay for u64 {
    /// The decimal digits, as one fragment.
    open spec fn display_script(&self, pretty: bool, depth: nat) -> Seq<Seq<char>> {
        seq![decimal(*self as nat)]
    }

    fn fmt<W: uWrite>(&self, f: &mut Formatter<'_, W>) -> (r: Result<(), W::Error>) {
        <u64 as uDebug>::fmt(self, f)
    }
}

impl uDebug for u128 {
    /// The decimal digits, as one fragment.
    open spec fn debug_script(&self, pretty: bool, depth: nat) -> Seq<Seq<char>> {
        seq![decimal(*self as nat)]
    }

    fn fmt<W: uWrite>(&self, f: &mut Formatter<'_, W>) -> (r: Result<(), W::Error>) {
        let mut buf: [u8; 39] = [0; 39];
        proof {
            reveal_with_fuel(pow10, 40);
            lemma_decimal_len(*self as nat, 39);
        }
        let at = fill_u128(*self, &mut buf);
        f.write_str(ascii_tail(&buf, at))
    }
}

impl uDisplay for u128 {
    /// The decimal digits, as one fragment.
    open spec fn display_script(&self, pretty: bool, depth: nat) -> Seq<Seq<char>> {
        seq![decimal(*self as nat)]
    }

    fn fmt<W: uWrite>(&self, f: &mut Formatter<'_, W>) -> (r: Result<(), W::Error>) {
        <u128 as uDebug>::fmt(self, f)
    }
}

impl uDebug for usize {
    /// The decimal digits, as one fragment.
    open spec fn debug_script(&self, pretty: bool, depth: nat) -> Seq<Seq<char>> {
        seq![decimal(*self as nat)]
    }

    fn fmt<W: uWrite>(&self, f: &mut Formatter<'_, W>) -> (r: Result<(), W::Error>) {
        let mut buf: [u8; 20] = [0; 20];
        proof {
            reveal_with_fuel(pow10, 21);
            lemma_decimal_len(*self as nat, 20);
        }
        let at = fill_u64(*self as u64, &mut buf);
        f.write_str(ascii_tail(&buf, at))
    }
}

impl uDisplay for usize {
    /// The decimal digits, as one fragment.
    open spec fn display_script(&self, pretty: bool, depth: nat) -> Seq<Seq<char>> {
        seq![decimal(*self as nat)]
    }

    fn fmt<W: uWrite>(&self, f: &mut Formatter<'_, W>) -> (r: Result<(), W::Error>) {
        <usize as uDebug>::fmt(self, f)
    }
}

} // verus!
