use vstd::prelude::*;
use crate::decimal::{
    ascii_tail, lemma_decimal_len, magnitude, pow10, signed_decimal, fill_i8, fill_i16, fill_i32,
    fill_i64, fill_i128,
};
use crate::formatter::{uDebug, uDisplay, Formatter};
use crate::write::uWrite;

verus! {

impl uDebug for i8 {
    /// The decimal text, with its sign, as one fragment.
    open spec fn debug_script(&self, pretty: bool, depth: nat) -> Seq<Seq<char>> {
        seq![signed_decimal(*self as int)]
    }

    fn fmt<W: uWrite>(&self, f: &mut Formatter<'_, W>) -> (r: Result<(), W::Error>) {
        let mut buf: [u8; 4] = [0; 4];
        proof {
            reveal_with_fuel(pow10, 4);
            lemma_decimal_len(magnitude(*self as int), 3);
        }
        let at = fill_i8(*self, &mut buf);
        f.write_str(ascii_tail(&buf, at))
    }
}

impl uDisplay for i8 {
    /// The decimal text, with its sign, as one fragment.
    open spec fn display_script(&self, pretty: bool, depth: nat) -> Seq<Seq<char>> {
        seq![signed_decimal(*self as int)]
    }

    fn fmt<W: uWrite>(&self, f: &mut Formatter<'_, W>) -> (r: Result<(), W::Error>) {
        <i8 as uDebug>::fmt(self, f)
    }
}

impl uDebug for i16 {
    /// The decimal text, with its sign, as one fragment.
    open spec fn debug_script(&self, pretty: bool, depth: nat) -> Seq<Seq<char>> {
        seq![signed_decimal(*self as int)]
    }

    fn fmt<W: uWrite>(&self, f: &mut Formatter<'_, W>) -> (r: Result<(), W::Error>) {
        let mut buf: [u8; 6] = [0; 6];
        proof {
            reveal_with_fuel(pow10, 6);
            lemma_decimal_len(magnitude(*self as int), 5);
        }
        let at = fill_i16(*self, &mut buf);
        f.write_str(ascii_tail(&buf, at))
    }
}

impl uDisplay for i16 {
    /// The decimal text, with its sign, as one fragment.
    open spec fn display_script(&self, pretty: bool, depth: nat) -> Seq<Seq<char>> {
        seq![signed_decimal(*self as int)]
    }

    fn fmt<W: uWrite>(&self, f: &mut Formatter<'_, W>) -> (r: Result<(), W::Error>) {
        <i16 as uDebug>::fmt(self, f)
    }
}

impl uDebug for i32 {
    /// The decimal text, with its sign, as one fragment.
    open spec fn debug_script(&self, pretty: bool, depth: nat) -> Seq<Seq<char>> {
        seq![signed_decimal(*self as int)]
    }

    fn fmt<W: uWrite>(&self, f: &mut Formatter<'_, W>) -> (r: Result<(), W::Error>) {
        let mut buf: [u8; 11] = [0; 11];
        proof {
            reveal_with_fuel(pow10, 11);
            lemma_decimal_len(magnitude(*self as int), 10);
        }
        let at = fill_i32(*self, &mut buf);
        f.write_str(ascii_tail(&buf, at))
    }
}

impl uDisplay for i32 {
    /// The decimal text, with its sign, as one fragment.
    open spec fn display_script(&self, pretty: bool, depth: nat) -> Seq<Seq<char>> {
        seq![signed_decimal(*self as int)]
    }

    fn fmt<W: uWrite>(&self, f: &mut Formatter<'_, W>) -> (r: Result<(), W::Error>) {
        <i32 as uDebug>::fmt(self, f)
    }
}

impl uDebug for i64 {
    /// The decimal text, with its sign, as one fragment.
    open spec fn debug_script(&self, pretty: bool, depth: nat) -> Seq<Seq<char>> {
        seq![signed_decimal(*self as int)]
    }

    fn fmt<W: uWrite>(&self, f: &mut Formatter<'_, W>) -> (r: Result<(), W::Error>) {
        let mut buf: [u8; 20] = [0; 20];
        proof {
            reveal_with_fuel(pow10, 20);
            lemma_decimal_len(magnitude(*self as int), 19);
        }
        let at = fill_i64(*self, &mut buf);
        f.write_str(ascii_tail(&buf, at))
    }
}

impl uDisplay for i64 {
    /// The decimal text, with its sign, as one fragment.
    open spec fn display_script(&self, pretty: bool, depth: nat) -> Seq<Seq<char>> {
        seq![signed_decimal(*self as int)]
    }

    fn fmt<W: uWrite>(&self, f: &mut Formatter<'_, W>) -> (r: Result<(), W::Error>) {
        <i64 as uDebug>::fmt(self, f)
    }
}

impl uDebug for i128 {
    /// The decimal text, with its sign, as one fragment.
    open spec fn debug_script(&self, pretty: bool, depth: nat) -> Seq<Seq<char>> {
        seq![signed_decimal(*self as int)]
    }

    fn fmt<W: uWrite>(&self, f: &mut Formatter<'_, W>) -> (r: Result<(), W::Error>) {
        let mut buf: [u8; 40] = [0; 40];
        proof {
            reveal_with_fuel(pow10, 40);
            lemma_decimal_len(magnitude(*self as int), 39);
        }
        let at = fill_i128(*self, &mut buf);
        f.write_str(ascii_tail(&buf, at))
    }
}

impl uDisplay for i128 {
    /// The decimal text, with its sign, as one fragment.
    open spec fn display_script(&self, pretty: bool, depth: nat) -> Seq<Seq<char>> {
        seq![signed_decimal(*self as int)]
    }

    fn fmt<W: uWrite>(&self, f: &mut Formatter<'_, W>) -> (r: Result<(), W::Error>) {
        <i128 as uDebug>::fmt(self, f)
    }
}

impl uDebug for isize {
    /// The decimal text, with its sign, as one fragment.
    open spec fn debug_script(&self, pretty: bool, depth: nat) -> Seq<Seq<char>> {
        seq![signed_decimal(*self as int)]
    }

    fn fmt<W: uWrite>(&self, f: &mut Formatter<'_, W>) -> (r: Result<(), W::Error>) {
        let mut buf: [u8; 20] = [0; 20];
        proof {
            reveal_with_fuel(pow10, 20);
            lemma_decimal_len(magnitude(*self as int), 19);
        }
        let at = fill_i64(*self as i64, &mut buf);
        f.write_str(ascii_tail(&buf, at))
    }
}

impl uDisplay for isize {
    /// The decimal text, with its sign, as one fragment.
    open spec fn display_script(&self, pretty: bool, depth: nat) -> Seq<Seq<char>> {
        seq![signed_decimal(*self as int)]
    }

    fn fmt<W: uWrite>(&self, f: &mut Formatter<'_, W>) -> (r: Result<(), W::Error>) {
        <isize as uDebug>::fmt(self, f)
    }
}

} // verus!
