use vstd::prelude::*;
use crate::formatter::{uDebug, uDisplay, Formatter};
use crate::impls::array::{fmt_list, list_script};
use crate::write::uWrite;

verus! {

impl<T: uDebug + ?Sized> uDebug for &T {
    open spec fn debug_script(&self, pretty: bool, depth: nat) -> Seq<Seq<char>> {
        (**self).debug_script(pretty, depth)
    }

    fn fmt<W: uWrite>(&self, f: &mut Formatter<'_, W>) -> (r: Result<(), W::Error>) {
        <T as uDebug>::fmt(*self, f)
    }
}

impl<T: uDisplay + ?Sized> uDisplay for &T {
    open spec fn display_script(&self, pretty: bool, depth: nat) -> Seq<Seq<char>> {
        (**self).display_script(pretty, depth)
    }

    fn fmt<W: uWrite>(&self, f: &mut Formatter<'_, W>) -> (r: Result<(), W::Error>) {
        <T as uDisplay>::fmt(*self, f)
    }
}

impl<T: uDebug> uDebug for Box<T> {
    open spec fn debug_script(&self, pretty: bool, depth: nat) -> Seq<Seq<char>> {
        (**self).debug_script(pretty, depth)
    }

    fn fmt<W: uWrite>(&self, f: &mut Formatter<'_, W>) -> (r: Result<(), W::Error>) {
        <T as uDebug>::fmt(&**self, f)
    }
}

impl<T: uDisplay> uDisplay for Box<T> {
    open spec fn display_script(&self, pretty: bool, depth: nat) -> Seq<Seq<char>> {
        (**self).display_script(pretty, depth)
    }

    fn fmt<W: uWrite>(&self, f: &mut Formatter<'_, W>) -> (r: Result<(), W::Error>) {
        <T as uDisplay>::fmt(&**self, f)
    }
}

impl uDisplay for str {
    /// The text itself, as one fragment.
    open spec fn display_script(&self, pretty: bool, depth: nat) -> Seq<Seq<char>> {
        seq![self@]
    }

    fn fmt<W: uWrite>(&self, f: &mut Formatter<'_, W>) -> (r: Result<(), W::Error>) {
        f.write_str(self)
    }
}

impl uDisplay for String {
    /// The text itself, as one fragment.
    open spec fn display_script(&self, pretty: bool, depth: nat) -> Seq<Seq<char>> {
        seq![self@]
    }

    fn fmt<W: uWrite>(&self, f: &mut Formatter<'_, W>) -> (r: Result<(), W::Error>) {
        <str as uDisplay>::fmt(self.as_str(), f)
    }
}

impl<T: uDebug> uDebug for Vec<T> {
    open spec fn debug_script(&self, pretty: bool, depth: nat) -> Seq<Seq<char>> {
        list_script(self@, pretty, depth)
    }

    fn fmt<W: uWrite>(&self, f: &mut Formatter<'_, W>) -> (r: Result<(), W::Error>) {
        fmt_list(self.as_slice(), f)
    }
}

} // verus!
