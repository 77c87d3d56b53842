use vstd::prelude::*;
use crate::formatter::{
    at, lemma_at_start, uDebug, wrote, Formatter, FormatterView,
};
use crate::helpers::{
    close, close_script, entry_head, entry_tail, field_depth, head_script, tail_script,
};
use crate::write::uWrite;

verus! {

/// The fragments of one field of a tuple, laid out at `depth`.
pub open spec fn tuple_field_script(
    first: bool,
    pretty: bool,
    depth: nat,
    value: Seq<Seq<char>>,
) -> Seq<Seq<char>> {
    head_script(first, pretty, depth, "("@, ", "@, false) + value + tail_script(pretty)
}

/// The fragments that close a tuple opened at `depth`: nothing for a tuple
/// without fields, which renders as its bare name.
pub open spec fn tuple_finish_script(first: bool, pretty: bool, depth: nat) -> Seq<Seq<char>> {
    close_script(first, pretty, depth, ')', false, false)
}

/// A tuple under construction. Each step consumes the builder, so that a
/// finished builder cannot be used again.
pub struct DebugTuple<'f, 'w, W: uWrite> {
    first: bool,
    outer: u8,
    formatter: &'f mut Formatter<'w, W>,
    base: Ghost<FormatterView<W::Error>>,
    script: Ghost<Seq<Seq<char>>>,
}

impl<'f, 'w, W: uWrite> DebugTuple<'f, 'w, W> {
    /// The formatter that the builder writes through.
    pub closed spec fn formatter(&self) -> &'f mut Formatter<'w, W> {
        self.formatter
    }

    /// The formatter's view when the builder was opened.
    pub closed spec fn base(&self) -> FormatterView<W::Error> {
        self.base@
    }

    /// The fragments written since the builder was opened.
    pub closed spec fn script(&self) -> Seq<Seq<char>> {
        self.script@
    }

    /// Whether no field has been written yet.
    pub closed spec fn is_first(&self) -> bool {
        self.first
    }

    /// The depth at which the builder lays out what it holds.
    pub open spec fn depth(&self) -> nat {
        field_depth(self.base().pretty, self.base().depth)
    }

    /// The builder's record of what was written agrees with its formatter.
    pub closed spec fn wf(&self) -> bool {
        &&& at(self.base@, self.formatter@, self.script@)
        &&& self.formatter@.pretty == self.base@.pretty
        &&& self.formatter@.depth == field_depth(self.base@.pretty, self.base@.depth)
        &&& self.outer as nat == self.base@.depth
    }

    /// Writes one field: the opening parenthesis before the first field or the
    /// separator before a later one, and the value in its structured form.
    pub fn field<T: uDebug>(self, value: &T) -> (r: Result<Self, W::Error>)
        requires
            self.wf(),
        ensures
            match r {
                Ok(b) => {
                    &&& b.wf()
                    &&& !b.is_first()
                    &&& b.base() == self.base()
                    &&& b.script() == self.script() + tuple_field_script(
                        self.is_first(),
                        self.base().pretty,
                        self.depth(),
                        value.debug_script(self.base().pretty, self.depth()),
                    )
                    &&& *final(b.formatter()) == *final(self.formatter())
                    &&& *final(b.formatter().sink()) == *final(self.formatter().sink())
                },
                Err(e) => {
                    &&& wrote(
                        self.base(),
                        (*final(self.formatter()))@,
                        self.script() + tuple_field_script(
                            self.is_first(),
                            self.base().pretty,
                            self.depth(),
                            value.debug_script(self.base().pretty, self.depth()),
                        ),
                        Err(e),
                    )
                    &&& *final((*final(self.formatter())).sink()) == *final(self.formatter().sink())
                },
            },
    {
        let mut b = self;
        let ghost pre = b.base@;
        let ghost pretty = pre.pretty;
        let ghost depth = field_depth(pre.pretty, pre.depth);
        let ghost head = head_script(
            b.first,
            pretty,
            depth,
            "("@,
            ", "@,
            false,
        );
        let ghost inner = value.debug_script(pretty, depth);
        let ghost part = tuple_field_script(
            b.first,
            pretty,
            depth,
            value.debug_script(pretty, depth),
        );
        let ghost full = b.script@ + part;
        let ghost mut n: int = b.script@.len() as int;
        proof {
            assert(full.take(n) =~= b.script@);
            assert(full.subrange(n, n + head.len()) =~= head);
        }
        match entry_head(
            b.formatter,
            b.first,
            "(",
            ", ",
            false,
            Ghost(pre),
            Ghost(full),
            Ghost(n),
        ) {
            Ok(_) => {},
            Err(e) => {
                return Err(e);
            },
        }
        proof {
            n = n + head.len();
        }
        proof {
            assert(full.subrange(n, n + inner.len()) =~= inner);
        }
        match b.formatter.next_debug(value, Ghost(pre), Ghost(full), Ghost(n)) {
            Ok(_) => {},
            Err(e) => {
                return Err(e);
            },
        }
        proof {
            n = n + inner.len();
        }
        proof {
            assert(full.subrange(n, n + tail_script(pretty).len()) =~= tail_script(pretty));
        }
        match entry_tail(b.formatter, Ghost(pre), Ghost(full), Ghost(n)) {
            Ok(_) => {},
            Err(e) => {
                return Err(e);
            },
        }
        proof {
            n = n + tail_script(pretty).len();
            assert(full.take(n) =~= full);
        }
        b.first = false;
        b.script = Ghost(full);
        Ok(b)
    }

    /// Closes the tuple: after at least one field, the closing parenthesis, on
    /// a line of its own in the pretty layout.
    pub fn finish(self) -> (r: Result<(), W::Error>)
        requires
            self.wf(),
        ensures
            wrote(
                self.base(),
                (*final(self.formatter()))@,
                self.script() + tuple_finish_script(
                    self.is_first(),
                    self.base().pretty,
                    self.base().depth,
                ),
                r,
            ),
            *final((*final(self.formatter())).sink()) == *final(self.formatter().sink()),
    {
        let b = self;
        let ghost pre = b.base@;
        let ghost part = tuple_finish_script(b.first, pre.pretty, pre.depth);
        let ghost full = b.script@ + part;
        let ghost n: int = b.script@.len() as int;
        proof {
            assert(full.take(n) =~= b.script@);
            assert(full.subrange(n, full.len() as int) =~= part);
        }
        close(
            b.formatter,
            b.first,
            b.outer,
            ')',
            false,
            false,
            Ghost(pre),
            Ghost(full),
            Ghost(n),
        )
    }
}

impl<'w, W: uWrite> Formatter<'w, W> {
    /// Opens a tuple: writes its name.
    pub fn debug_tuple<'f>(&'f mut self, name: &str) -> (r: Result<
        DebugTuple<'f, 'w, W>,
        W::Error,
    >)
        ensures
            match r {
                Ok(b) => {
                    &&& b.wf()
                    &&& b.is_first()
                    &&& b.base() == old(self)@
                    &&& b.script() == seq![name@]
                    &&& *final(self) == *final(b.formatter())
                    &&& *final(b.formatter().sink()) == *final(old(self).sink())
                },
                Err(e) => {
                    &&& wrote(old(self)@, final(self)@, seq![name@], Err(e))
                    &&& *final(final(self).sink()) == *final(old(self).sink())
                },
            },
    {
        let outer = self.depth();
        let ghost pre = self@;
        let ghost opening = seq![name@];
        proof {
            lemma_at_start(pre, opening);
        }
        match self.next_str(name, Ghost(pre), Ghost(opening), Ghost(0)) {
            Ok(_) => {},
            Err(e) => {
                return Err(e);
            },
        }
        proof {
            assert(opening.take(1) =~= opening);
        }
        self.nest();
        let base = Ghost(pre);
        let script = Ghost(opening);
        Ok(DebugTuple { first: true, outer, formatter: self, base, script })
    }
}

} // verus!
