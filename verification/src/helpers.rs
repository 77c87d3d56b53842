pub mod debug_list;
pub mod debug_map;
pub mod debug_set;
pub mod debug_struct;
pub mod debug_tuple;

use vstd::prelude::*;
use crate::formatter::{
    at, indentation, lemma_arrived, uDebug, wrote, Formatter, FormatterView,
};
use crate::write::uWrite;

verus! {

/// The depth at which the entries of a builder are laid out, when the builder
/// was opened at `depth`: one level deeper in the pretty layout, up to the
/// deepest level that is counted.
pub open spec fn field_depth(pretty: bool, depth: nat) -> nat {
    if pretty && depth < 255 {
        depth + 1
    } else {
        depth
    }
}

/// The fragments that come before the body of an entry. Before the first
/// entry stands `opening`, unless it is empty; before a later one, in the
/// one-line layout, stands `later`. Then the line starts: with a line break
/// and the indentation in the pretty layout, with one space in the one-line
/// layout of a builder that pads.
pub open spec fn head_script(
    first: bool,
    pretty: bool,
    depth: nat,
    opening: Seq<char>,
    later: Seq<char>,
    pad: bool,
) -> Seq<Seq<char>> {
    (if first {
        if opening.len() > 0 {
            seq![opening]
        } else {
            Seq::empty()
        }
    } else if !pretty {
        seq![later]
    } else {
        Seq::empty()
    }) + (if pretty {
        seq![seq!['\n']] + indentation(depth)
    } else if pad {
        seq![seq![' ']]
    } else {
        Seq::empty()
    })
}

/// The fragments that come after the body of an entry: a comma in the pretty
/// layout.
pub open spec fn tail_script(pretty: bool) -> Seq<Seq<char>> {
    if pretty {
        seq![seq![',']]
    } else {
        Seq::empty()
    }
}

/// The fragments that close a builder opened at `depth`. After at least one
/// entry the closing delimiter stands on a line of its own in the pretty
/// layout, and after one space in the one-line layout of a builder that pads.
/// A builder without entries writes its delimiter only if it `always` does.
pub open spec fn close_script(
    first: bool,
    pretty: bool,
    depth: nat,
    closer: char,
    pad: bool,
    always: bool,
) -> Seq<Seq<char>> {
    if first {
        if always {
            seq![seq![closer]]
        } else {
            Seq::empty()
        }
    } else {
        (if pretty {
            seq![seq!['\n']] + indentation(depth)
        } else if pad {
            seq![seq![' ']]
        } else {
            Seq::empty()
        }) + seq![seq![closer]]
    }
}

/// The fragments of one entry of a list or a set, laid out at `depth`.
pub open spec fn entry_script(
    first: bool,
    pretty: bool,
    depth: nat,
    entry: Seq<Seq<char>>,
) -> Seq<Seq<char>> {
    head_script(first, pretty, depth, Seq::empty(), ", "@, false) + entry + tail_script(pretty)
}

/// The fragments of the entries `items` of a list or a set, in order, where
/// `first` says whether no entry stands before them.
pub open spec fn entries_script<T: uDebug>(
    first: bool,
    pretty: bool,
    depth: nat,
    items: Seq<T>,
) -> Seq<Seq<char>>
    decreases items.len(),
{
    if items.len() == 0 {
        Seq::empty()
    } else {
        entries_script(first, pretty, depth, items.drop_last()) + entry_script(
            first && items.len() == 1,
            pretty,
            depth,
            items.last().debug_script(pretty, depth),
        )
    }
}

/// The fragments of the first `i` entries stand at the start of the fragments
/// of all entries; the lemma gives the fragments that follow them.
pub proof fn lemma_entries_split<T: uDebug>(
    first: bool,
    pretty: bool,
    depth: nat,
    items: Seq<T>,
    i: int,
) -> (rest: Seq<Seq<char>>)
    requires
        0 <= i <= items.len(),
    ensures
        entries_script(first, pretty, depth, items) == entries_script(
            first,
            pretty,
            depth,
            items.take(i),
        ) + rest,
    decreases items.len() - i,
{
    if i == items.len() {
        assert(items.take(i) =~= items);
        assert(entries_script(first, pretty, depth, items) + Seq::<Seq<char>>::empty()
            =~= entries_script(first, pretty, depth, items));
        Seq::empty()
    } else {
        let rest = lemma_entries_split(first, pretty, depth, items, i + 1);
        let step = entry_script(
            first && i == 0,
            pretty,
            depth,
            items[i].debug_script(pretty, depth),
        );
        assert(items.take(i + 1).drop_last() =~= items.take(i));
        assert(entries_script(first, pretty, depth, items.take(i)) + (step + rest)
            =~= entries_script(first, pretty, depth, items.take(i)) + step + rest);
        step + rest
    }
}

/// The fragments of one entry of a mapping, laid out at `depth`: the key, a
/// colon and the value.
pub open spec fn map_entry_script(
    first: bool,
    pretty: bool,
    depth: nat,
    key: Seq<Seq<char>>,
    value: Seq<Seq<char>>,
) -> Seq<Seq<char>> {
    head_script(first, pretty, depth, Seq::empty(), ", "@, false) + key + seq![": "@] + value
        + tail_script(pretty)
}

/// The fragments of the entries `items` of a mapping, in order, where `first`
/// says whether no entry stands before them.
pub open spec fn map_entries_script<K: uDebug, V: uDebug>(
    first: bool,
    pretty: bool,
    depth: nat,
    items: Seq<(K, V)>,
) -> Seq<Seq<char>>
    decreases items.len(),
{
    if items.len() == 0 {
        Seq::empty()
    } else {
        map_entries_script(first, pretty, depth, items.drop_last()) + map_entry_script(
            first && items.len() == 1,
            pretty,
            depth,
            items.last().0.debug_script(pretty, depth),
            items.last().1.debug_script(pretty, depth),
        )
    }
}

/// The fragments of the first `i` entries of a mapping stand at the start of
/// the fragments of all entries; the lemma gives the fragments that follow
/// them.
pub proof fn lemma_map_entries_split<K: uDebug, V: uDebug>(
    first: bool,
    pretty: bool,
    depth: nat,
    items: Seq<(K, V)>,
    i: int,
) -> (rest: Seq<Seq<char>>)
    requires
        0 <= i <= items.len(),
    ensures
        map_entries_script(first, pretty, depth, items) == map_entries_script(
            first,
            pretty,
            depth,
            items.take(i),
        ) + rest,
    decreases items.len() - i,
{
    if i == items.len() {
        assert(items.take(i) =~= items);
        assert(map_entries_script(first, pretty, depth, items) + Seq::<Seq<char>>::empty()
            =~= map_entries_script(first, pretty, depth, items));
        Seq::empty()
    } else {
        let rest = lemma_map_entries_split(first, pretty, depth, items, i + 1);
        let step = map_entry_script(
            first && i == 0,
            pretty,
            depth,
            items[i].0.debug_script(pretty, depth),
            items[i].1.debug_script(pretty, depth),
        );
        assert(items.take(i + 1).drop_last() =~= items.take(i));
        assert(map_entries_script(first, pretty, depth, items.take(i)) + (step + rest)
            =~= map_entries_script(first, pretty, depth, items.take(i)) + step + rest);
        step + rest
    }
}

/// Writes the head of an entry as the fragments of `full` from `n` on.
pub(crate) fn entry_head<W: uWrite>(
    f: &mut Formatter<'_, W>,
    first: bool,
    opening: &str,
    later: &str,
    pad: bool,
    Ghost(pre): Ghost<FormatterView<W::Error>>,
    Ghost(full): Ghost<Seq<Seq<char>>>,
    Ghost(n): Ghost<int>,
) -> (r: Result<(), W::Error>)
    requires
        at(pre, old(f)@, full.take(n)),
        0 <= n,
        n + head_script(first, old(f)@.pretty, old(f)@.depth, opening@, later@, pad).len()
            <= full.len(),
        full.subrange(
            n,
            n + head_script(first, old(f)@.pretty, old(f)@.depth, opening@, later@, pad).len(),
        ) == head_script(first, old(f)@.pretty, old(f)@.depth, opening@, later@, pad),
    ensures
        r is Ok ==> at(
            pre,
            final(f)@,
            full.take(
                n + head_script(first, old(f)@.pretty, old(f)@.depth, opening@, later@, pad).len(),
            ),
        ),
        r is Ok ==> final(f)@.pretty == old(f)@.pretty,
        r is Ok ==> final(f)@.depth == old(f)@.depth,
        r is Err ==> wrote(pre, final(f)@, full, r),
        *final(final(f).sink()) == *final(old(f).sink()),
{
    let pretty = f.is_pretty();
    let ghost depth = f@.depth;
    let ghost head = head_script(first, pretty, depth, opening@, later@, pad);
    let ghost mut m: int = n;
    if first {
        if !opening.is_empty() {
            proof {
                assert(full[m] == head[0]);
            }
            match f.next_str(opening, Ghost(pre), Ghost(full), Ghost(m)) {
                Ok(_) => {},
                Err(e) => {
                    return Err(e);
                },
            }
            proof {
                m = m + 1;
            }
        }
    } else if !pretty {
        proof {
            assert(full[m] == head[0]);
        }
        match f.next_str(later, Ghost(pre), Ghost(full), Ghost(m)) {
            Ok(_) => {},
            Err(e) => {
                return Err(e);
            },
        }
        proof {
            m = m + 1;
        }
    }
    if pretty {
        proof {
            assert(full[m] == head[m - n]);
        }
        match f.next_char('\n', Ghost(pre), Ghost(full), Ghost(m)) {
            Ok(_) => {},
            Err(e) => {
                return Err(e);
            },
        }
        proof {
            m = m + 1;
            assert(full.subrange(m, m + depth) =~= head.subrange(m - n, m - n + depth));
            assert(head.subrange(m - n, m - n + depth) =~= indentation(depth));
        }
        match f.next_indent(Ghost(pre), Ghost(full), Ghost(m)) {
            Ok(_) => {},
            Err(e) => {
                return Err(e);
            },
        }
        proof {
            m = m + depth;
        }
    } else if pad {
        proof {
            assert(full[m] == head[m - n]);
        }
        match f.next_char(' ', Ghost(pre), Ghost(full), Ghost(m)) {
            Ok(_) => {},
            Err(e) => {
                return Err(e);
            },
        }
        proof {
            m = m + 1;
        }
    }
    Ok(())
}

/// Writes the tail of an entry as the fragments of `full` from `n` on.
pub(crate) fn entry_tail<W: uWrite>(
    f: &mut Formatter<'_, W>,
    Ghost(pre): Ghost<FormatterView<W::Error>>,
    Ghost(full): Ghost<Seq<Seq<char>>>,
    Ghost(n): Ghost<int>,
) -> (r: Result<(), W::Error>)
    requires
        at(pre, old(f)@, full.take(n)),
        0 <= n,
        n + tail_script(old(f)@.pretty).len() <= full.len(),
        full.subrange(n, n + tail_script(old(f)@.pretty).len()) == tail_script(old(f)@.pretty),
    ensures
        r is Ok ==> at(pre, final(f)@, full.take(n + tail_script(old(f)@.pretty).len())),
        r is Ok ==> final(f)@.pretty == old(f)@.pretty,
        r is Ok ==> final(f)@.depth == old(f)@.depth,
        r is Err ==> wrote(pre, final(f)@, full, r),
        *final(final(f).sink()) == *final(old(f).sink()),
{
    if f.is_pretty() {
        proof {
            assert(full[n] == tail_script(true)[0]);
        }
        f.next_char(',', Ghost(pre), Ghost(full), Ghost(n))
    } else {
        Ok(())
    }
}

/// Leaves the builder's depth for `outer` and writes what closes the builder,
/// as the last fragments of `full`.
pub(crate) fn close<W: uWrite>(
    f: &mut Formatter<'_, W>,
    first: bool,
    outer: u8,
    closer: char,
    pad: bool,
    always: bool,
    Ghost(pre): Ghost<FormatterView<W::Error>>,
    Ghost(full): Ghost<Seq<Seq<char>>>,
    Ghost(n): Ghost<int>,
) -> (r: Result<(), W::Error>)
    requires
        at(pre, old(f)@, full.take(n)),
        0 <= n,
        pre.pretty == old(f)@.pretty,
        pre.depth == outer,
        n + close_script(first, pre.pretty, pre.depth, closer, pad, always).len() == full.len(),
        full.subrange(n, full.len() as int) == close_script(
            first,
            pre.pretty,
            pre.depth,
            closer,
            pad,
            always,
        ),
    ensures
        wrote(pre, final(f)@, full, r),
        *final(final(f).sink()) == *final(old(f).sink()),
{
    let pretty = f.is_pretty();
    let ghost tail = close_script(first, pretty, outer as nat, closer, pad, always);
    let ghost mut m: int = n;
    f.unnest(outer);
    if !first {
        if pretty {
            proof {
                assert(full[m] == tail[0]);
            }
            match f.next_char('\n', Ghost(pre), Ghost(full), Ghost(m)) {
                Ok(_) => {},
                Err(e) => {
                    return Err(e);
                },
            }
            proof {
                m = m + 1;
                assert(full.subrange(m, m + outer) =~= tail.subrange(1, 1 + outer));
                assert(tail.subrange(1, 1 + outer) =~= indentation(outer as nat));
            }
            match f.next_indent(Ghost(pre), Ghost(full), Ghost(m)) {
                Ok(_) => {},
                Err(e) => {
                    return Err(e);
                },
            }
            proof {
                m = m + outer;
            }
        } else if pad {
            proof {
                assert(full[m] == tail[0]);
            }
            match f.next_char(' ', Ghost(pre), Ghost(full), Ghost(m)) {
                Ok(_) => {},
                Err(e) => {
                    return Err(e);
                },
            }
            proof {
                m = m + 1;
            }
        }
    }
    if !first || always {
        proof {
            assert(full[m] == tail[m - n]);
        }
        match f.next_char(closer, Ghost(pre), Ghost(full), Ghost(m)) {
            Ok(_) => {},
            Err(e) => {
                return Err(e);
            },
        }
        proof {
            m = m + 1;
        }
    }
    proof {
        lemma_arrived(pre, f@, full);
    }
    Ok(())
}

} // verus!
