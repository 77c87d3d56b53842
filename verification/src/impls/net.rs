use vstd::prelude::*;
use crate::decimal::decimal;
use crate::formatter::{lemma_arrived, lemma_at_start, uDebug, uDisplay, Formatter};
use crate::write::uWrite;

verus! {

/// An IPv4 address, as its four octets.
#[derive(Debug, PartialEq, Eq, Clone, Copy)]
pub struct Ipv4 {
    pub octets: [u8; 4],
}

/// The fragments of an IPv4 address: the four octets in decimal, with a dot
/// between each two.
pub open spec fn ipv4_script(octets: Seq<u8>) -> Seq<Seq<char>> {
    seq![
        decimal(octets[0] as nat),
        seq!['.'],
        decimal(octets[1] as nat),
        seq!['.'],
        decimal(octets[2] as nat),
        seq!['.'],
        decimal(octets[3] as nat),
    ]
}

impl uDisplay for Ipv4 {
    open spec fn display_script(&self, pretty: bool, depth: nat) -> Seq<Seq<char>> {
        ipv4_script(self.octets@)
    }

    fn fmt<W: uWrite>(&self, f: &mut Formatter<'_, W>) -> (r: Result<(), W::Error>) {
        let ghost pre = f@;
        let ghost full = ipv4_script(self.octets@);
        let a = self.octets[0];
        let b = self.octets[1];
        let c = self.octets[2];
        let d = self.octets[3];
        proof {
            lemma_at_start(pre, full);
            assert(full.subrange(0, 1) =~= seq![decimal(a as nat)]);
            assert(full.subrange(2, 3) =~= seq![decimal(b as nat)]);
            assert(full.subrange(4, 5) =~= seq![decimal(c as nat)]);
            assert(full.subrange(6, 7) =~= seq![decimal(d as nat)]);
        }
        match f.next_display(&a, Ghost(pre), Ghost(full), Ghost(0)) {
            Ok(_) => {},
            Err(e) => {
                return Err(e);
            },
        }
        match f.next_char('.', Ghost(pre), Ghost(full), Ghost(1)) {
            Ok(_) => {},
            Err(e) => {
                return Err(e);
            },
        }
        match f.next_display(&b, Ghost(pre), Ghost(full), Ghost(2)) {
            Ok(_) => {},
            Err(e) => {
                return Err(e);
            },
        }
        match f.next_char('.', Ghost(pre), Ghost(full), Ghost(3)) {
            Ok(_) => {},
            Err(e) => {
                return Err(e);
            },
        }
        match f.next_display(&c, Ghost(pre), Ghost(full), Ghost(4)) {
            Ok(_) => {},
            Err(e) => {
                return Err(e);
            },
        }
        match f.next_char('.', Ghost(pre), Ghost(full), Ghost(5)) {
            Ok(_) => {},
            Err(e) => {
                return Err(e);
            },
        }
        match f.next_display(&d, Ghost(pre), Ghost(full), Ghost(6)) {
            Ok(_) => {},
            Err(e) => {
                return Err(e);
            },
        }
        proof {
            lemma_arrived(pre, f@, full);
        }
        Ok(())
    }
}

impl uDebug for Ipv4 {
    open spec fn debug_script(&self, pretty: bool, depth: nat) -> Seq<Seq<char>> {
        ipv4_script(self.octets@)
    }

    fn fmt<W: uWrite>(&self, f: &mut Formatter<'_, W>) -> (r: Result<(), W::Error>) {
        <Ipv4 as uDisplay>::fmt(self, f)
    }
}

} // verus!
