use vstd::prelude::*;
use std::collections::TryReserveError;

verus! {

/// A destination for UTF-8 text. Its two spec functions have defaults only so
/// that code outside the verifier can implement the trait without them.
#[allow(non_camel_case_types)]
pub trait uWrite {
    /// The failure that the destination reports.
    type Error;

    /// The text that the destination has accepted so far. The default is one
    /// unknown text that never changes: it fits no destination that is verified.
    open spec fn text(&self) -> Seq<char> {
        arbitrary()
    }

    /// Writes the whole of `s`, or reports a failure. A write that succeeds has
    /// appended exactly `s`; what may come of a write at all, `may_write` says.
    fn write_str(&mut self, s: &str) -> (r: Result<(), Self::Error>)
        ensures
            r is Ok ==> final(self).text() == old(self).text() + s@,
            old(self).may_write(s@, final(self), r),
    ;

    /// Writes one character, encoded as UTF-8, with a single `write_str`.
    fn write_char(&mut self, c: char) -> (r: Result<(), Self::Error>)
        ensures
            r is Ok ==> final(self).text() == old(self).text().push(c),
            old(self).may_write(seq![c], final(self), r),
    {
        let mut buf: [u8; 4] = [0; 4];
        let s = encode_utf8(c, &mut buf);
        let r = self.write_str(s);
        proof {
            assert(old(self).text() + seq![c] =~= old(self).text().push(c));
        }
        r
    }

    /// Whether a write of `s` may take the destination from this state to
    /// `after` and answer `r`. The default admits every outcome, and so says
    /// nothing of a destination; a verified destination defines its own.
    open spec fn may_write(&self, s: Seq<char>, after: &Self, r: Result<(), Self::Error>) -> bool {
        true
    }
}

impl uWrite for String {
    type Error = TryReserveError;

    open spec fn text(&self) -> Seq<char> {
        self@
    }

    /// A write that succeeds appends `s`; one that fails changes nothing.
    open spec fn may_write(
        &self,
        s: Seq<char>,
        after: &Self,
        r: Result<(), TryReserveError>,
    ) -> bool {
        match r {
            Ok(_) => after@ == self@ + s,
            Err(_) => after@ == self@,
        }
    }

    /// Appends `s` once room for it is reserved; a string that could not grow
    /// is left as it was.
    fn write_str(&mut self, s: &str) -> (r: Result<(), TryReserveError>)
        ensures
            r is Ok ==> final(self)@ == old(self)@ + s@,
            r is Err ==> final(self)@ == old(self)@,
    {
        // Whether the room is granted is the allocator's to say; what follows
        // from its answer is `append_reserved`'s to do.
        let reserved = try_reserve(self, s.len());
        append_reserved(self, s, reserved)
    }
}

/// Appends `s` to `text` if room for it was `reserved`, and hands the refusal
/// on if it was not: the string is then left as it was.
pub fn append_reserved(text: &mut String, s: &str, reserved: Result<(), TryReserveError>) -> (r:
    Result<(), TryReserveError>)
    ensures
        match reserved {
            Ok(_) => r is Ok && final(text)@ == old(text)@ + s@,
            Err(e) => r == Err::<(), TryReserveError>(e) && final(text)@ == old(text)@,
        },
{
    match reserved {
        Ok(_) => {
            text.append(s);
            Ok(())
        },
        Err(e) => Err(e),
    }
}

/// `char::encode_utf8`: the returned string slice holds exactly the character
/// `c`. A buffer of four bytes is large enough for every character.
#[verifier::external_body]
pub(crate) fn encode_utf8<'a>(c: char, buf: &'a mut [u8; 4]) -> (s: &'a str)
    ensures
        s@ == seq![c],
{
    c.encode_utf8(buf)
}

/// `String::try_reserve`: asks for room for `additional` more bytes. Whether or
/// not the room is granted, the string's contents stay as they were.
#[verifier::external_body]
fn try_reserve(s: &mut String, additional: usize) -> (r: Result<(), TryReserveError>)
    ensures
        final(s)@ == old(s)@,
{
    s.try_reserve(additional)
}

} // verus!
