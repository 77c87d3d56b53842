use vstd::prelude::*;
use crate::formatter::{
    at, lemma_at_start, lemma_wrote_stop, uDebug, wrote, Formatter, FormatterView,
};
use crate::helpers::{
    close, close_script, entries_script, entry_head, entry_script, entry_tail, field_depth,
    head_script, lemma_entries_split, tail_script,
};
use crate::write::uWrite;

verus! {

/// The fragments that close a set opened at `depth`: the closing delimiter,
/// on a line of its own in the pretty layout of a set with entries.
pub open spec fn set_finish_script(first: bool, pretty: bool, depth: nat) -> Seq<Seq<char>> {
    close_script(first, pretty, depth, '}', false, true)
}

/// A set under construction. Each step consumes the builder, so that a
/// finished builder cannot be used again.
pub struct DebugSet<'f, 'w, W: uWrite> {
    first: bool,
    outer: u8,
    formatter: &'f mut Formatter<'w, W>,
    base: Ghost<FormatterView<W::Error>>,
    script: Ghost<Seq<Seq<char>>>,
}

impl<'f, 'w, W: uWrite> DebugSet<'f, 'w, W> {
    /// The formatter that the builder writes through.
    pub closed spec fn formatter(&self) -> &'f mut Formatter<'w, W> {
        self.formatter
    }

    /// The formatter's view when the builder was opened.
    pub closed spec fn base(&self) -> FormatterView<W::Error> {
        self.base@
    }

    /// The fragments written since the builder was opened.
    pub closed spec fn script(&self) -> Seq<Seq<char>> {
        self.script@
    }

    /// Whether no entry has been written yet.
    pub closed spec fn is_first(&self) -> bool {
        self.first
    }

    /// The depth at which the builder lays out what it holds.
    pub open spec fn depth(&self) -> nat {
        field_depth(self.base().pretty, self.base().depth)
    }

    /// The builder's record of what was written agrees with its formatter.
    pub closed spec fn wf(&self) -> bool {
        &&& at(self.base@, self.formatter@, self.script@)
        &&& self.formatter@.pretty == self.base@.pretty
        &&& self.formatter@.depth == field_depth(self.base@.pretty, self.base@.depth)
        &&& self.outer as nat == self.base@.depth
    }

    /// Writes one entry: the separator after an earlier entry, and the entry in
    /// its structured form.
    pub fn entry<T: uDebug>(self, entry: &T) -> (r: Result<Self, W::Error>)
        requires
            self.wf(),
        ensures
            match r {
                Ok(b) => {
                    &&& b.wf()
                    &&& !b.is_first()
                    &&& b.base() == self.base()
                    &&& b.script() == self.script() + entry_script(
                        self.is_first(),
                        self.base().pretty,
                        self.depth(),
                        entry.debug_script(self.base().pretty, self.depth()),
                    )
                    &&& *final(b.formatter()) == *final(self.formatter())
                    &&& *final(b.formatter().sink()) == *final(self.formatter().sink())
                },
                Err(e) => {
                    &&& wrote(
                        self.base(),
                        (*final(self.formatter()))@,
                        self.script() + entry_script(
                            self.is_first(),
                            self.base().pretty,
                            self.depth(),
                            entry.debug_script(self.base().pretty, self.depth()),
                        ),
                        Err(e),
                    )
                    &&& *final((*final(self.formatter())).sink()) == *final(self.formatter().sink())
                },
            },
    {
        let mut b = self;
        let ghost pre = b.base@;
        let ghost pretty = pre.pretty;
        let ghost depth = field_depth(pre.pretty, pre.depth);
        let ghost head = head_script(
            b.first,
            pretty,
            depth,
            Seq::empty(),
            ", "@,
            false,
        );
        let ghost inner = entry.debug_script(pretty, depth);
        let ghost part = entry_script(
            b.first,
            pretty,
            depth,
            entry.debug_script(pretty, depth),
        );
        let ghost full = b.script@ + part;
        let ghost mut n: int = b.script@.len() as int;
        proof {
            reveal_strlit("");
            assert(""@ =~= Seq::<char>::empty());
            assert(full.take(n) =~= b.script@);
            assert(full.subrange(n, n + head.len()) =~= head);
        }
        match entry_head(
            b.formatter,
            b.first,
            "",
            ", ",
            false,
            Ghost(pre),
            Ghost(full),
            Ghost(n),
        ) {
            Ok(_) => {},
            Err(e) => {
                return Err(e);
            },
        }
        proof {
            n = n + head.len();
        }
        proof {
            assert(full.subrange(n, n + inner.len()) =~= inner);
        }
        match b.formatter.next_debug(entry, Ghost(pre), Ghost(full), Ghost(n)) {
            Ok(_) => {},
            Err(e) => {
                return Err(e);
            },
        }
        proof {
            n = n + inner.len();
        }
        proof {
            assert(full.subrange(n, n + tail_script(pretty).len()) =~= tail_script(pretty));
        }
        match entry_tail(b.formatter, Ghost(pre), Ghost(full), Ghost(n)) {
            Ok(_) => {},
            Err(e) => {
                return Err(e);
            },
        }
        proof {
            n = n + tail_script(pretty).len();
            assert(full.take(n) =~= full);
        }
        b.first = false;
        b.script = Ghost(full);
        Ok(b)
    }

    /// Writes each of `items` as an entry, in order.
    pub fn entries<T: uDebug>(self, items: &[T]) -> (r: Result<Self, W::Error>)
        requires
            self.wf(),
        ensures
            match r {
                Ok(b) => {
                    &&& b.wf()
                    &&& b.is_first() == (self.is_first() && items@.len() == 0)
                    &&& b.base() == self.base()
                    &&& b.script() == self.script() + entries_script(
                        self.is_first(),
                        self.base().pretty,
                        self.depth(),
                        items@,
                    )
                    &&& *final(b.formatter()) == *final(self.formatter())
                    &&& *final(b.formatter().sink()) == *final(self.formatter().sink())
                },
                Err(e) => {
                    &&& wrote(
                        self.base(),
                        (*final(self.formatter()))@,
                        self.script() + entries_script(
                            self.is_first(),
                            self.base().pretty,
                            self.depth(),
                            items@,
                        ),
                        Err(e),
                    )
                    &&& *final((*final(self.formatter())).sink()) == *final(self.formatter().sink())
                },
            },
    {
        let ghost pre = self.base@;
        let ghost first = self.first;
        let ghost depth = field_depth(pre.pretty, pre.depth);
        let ghost start = self.script@;
        let ghost all = entries_script(first, pre.pretty, depth, items@);
        let mut b = self;
        let mut i: usize = 0;
        proof {
            assert(items@.take(0) =~= Seq::<T>::empty());
            assert(start + Seq::<Seq<char>>::empty() =~= start);
        }
        while i < items.len()
            invariant
                i <= items@.len(),
                b.wf(),
                b.first == (first && i == 0),
                b.base@ == pre,
                first == self.first,
                pre == self.base@,
                start == self.script@,
                depth == field_depth(pre.pretty, pre.depth),
                all == entries_script(first, pre.pretty, depth, items@),
                b.script@ == start + entries_script(
                    first,
                    pre.pretty,
                    depth,
                    items@.take(i as int),
                ),
                *final(b.formatter) == *final(self.formatter),
                *final(b.formatter.sink()) == *final(self.formatter.sink()),
            decreases items@.len() - i,
        {
            let ghost done = entries_script(first, pre.pretty, depth, items@.take(i as int));
            let ghost step = entry_script(
                first && i == 0,
                pre.pretty,
                depth,
                items@[i as int].debug_script(pre.pretty, depth),
            );
            proof {
                assert(items@.take(i + 1).drop_last() =~= items@.take(i as int));
                assert(start + done + step =~= start + (done + step));
            }
            let ghost formatter = b.formatter;
            b = match b.entry(&items[i]) {
                Ok(next) => next,
                Err(e) => {
                    proof {
                        let rest = lemma_entries_split(first, pre.pretty, depth, items@, i + 1);
                        assert(start + (done + step) + rest =~= start + all);
                        lemma_wrote_stop(pre, (*final(formatter))@, start + (done + step), rest, e);
                    }
                    return Err(e);
                },
            };
            i = i + 1;
        }
        proof {
            assert(items@.take(i as int) =~= items@);
        }
        Ok(b)
    }

    /// Closes the set: the closing delimiter, on a line of its own in the pretty
    /// layout of a set with entries.
    pub fn finish(self) -> (r: Result<(), W::Error>)
        requires
            self.wf(),
        ensures
            wrote(
                self.base(),
                (*final(self.formatter()))@,
                self.script() + set_finish_script(
                    self.is_first(),
                    self.base().pretty,
                    self.base().depth,
                ),
                r,
            ),
            *final((*final(self.formatter())).sink()) == *final(self.formatter().sink()),
    {
        let b = self;
        let ghost pre = b.base@;
        let ghost part = set_finish_script(b.first, pre.pretty, pre.depth);
        let ghost full = b.script@ + part;
        let ghost n: int = b.script@.len() as int;
        proof {
            assert(full.take(n) =~= b.script@);
            assert(full.subrange(n, full.len() as int) =~= part);
        }
        close(
            b.formatter,
            b.first,
            b.outer,
            '}',
            false,
            true,
            Ghost(pre),
            Ghost(full),
            Ghost(n),
        )
    }
}

impl<'w, W: uWrite> Formatter<'w, W> {
    /// Opens a set: writes the opening delimiter.
    pub fn debug_set<'f>(&'f mut self) -> (r: Result<
        DebugSet<'f, 'w, W>,
        W::Error,
    >)
        ensures
            match r {
                Ok(b) => {
                    &&& b.wf()
                    &&& b.is_first()
                    &&& b.base() == old(self)@
                    &&& b.script() == seq!["{"@]
                    &&& *final(self) == *final(b.formatter())
                    &&& *final(b.formatter().sink()) == *final(old(self).sink())
                },
                Err(e) => {
                    &&& wrote(old(self)@, final(self)@, seq!["{"@], Err(e))
                    &&& *final(final(self).sink()) == *final(old(self).sink())
                },
            },
    {
        let outer = self.depth();
        let ghost pre = self@;
        let ghost opening = seq!["{"@];
        proof {
            lemma_at_start(pre, opening);
        }
        match self.next_str("{", Ghost(pre), Ghost(opening), Ghost(0)) {
            Ok(_) => {},
            Err(e) => {
                return Err(e);
            },
        }
        proof {
            assert(opening.take(1) =~= opening);
        }
        self.nest();
        let base = Ghost(pre);
        let script = Ghost(opening);
        Ok(DebugSet { first: true, outer, formatter: self, base, script })
    }
}

} // verus!
