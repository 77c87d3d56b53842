use vstd::prelude::*;
use crate::formatter::{lemma_wrote_stop, uDebug, wrote, Formatter};
use crate::helpers::debug_list::list_finish_script;
use crate::helpers::{entries_script, field_depth};
use crate::write::uWrite;

verus! {

/// The fragments of a sequence of values rendered as a list: the opening
/// bracket, the entries, and what closes the list.
pub open spec fn list_script<T: uDebug>(items: Seq<T>, pretty: bool, depth: nat) -> Seq<Seq<char>> {
    seq!["["@] + entries_script(true, pretty, field_depth(pretty, depth), items)
        + list_finish_script(items.len() == 0, pretty, depth)
}

/// Renders the values of a slice as a list.
pub fn fmt_list<T: uDebug, W: uWrite>(items: &[T], f: &mut Formatter<'_, W>) -> (r: Result<
    (),
    W::Error,
>)
    ensures
        wrote(old(f)@, final(f)@, list_script(items@, old(f)@.pretty, old(f)@.depth), r),
        *final(final(f).sink()) == *final(old(f).sink()),
{
    let ghost pre = f@;
    let ghost inner = field_depth(pre.pretty, pre.depth);
    let ghost opening = seq!["["@];
    let ghost filled = opening + entries_script(true, pre.pretty, inner, items@);
    let ghost full = filled + list_finish_script(items@.len() == 0, pre.pretty, pre.depth);
    let list = match f.debug_list() {
        Ok(list) => list,
        Err(e) => {
            proof {
                assert(opening + full.skip(1) =~= full);
                lemma_wrote_stop(pre, f@, opening, full.skip(1), e);
            }
            return Err(e);
        },
    };
    let list = match list.entries(items) {
        Ok(list) => list,
        Err(e) => {
            proof {
                lemma_wrote_stop(
                    pre,
                    f@,
                    filled,
                    list_finish_script(items@.len() == 0, pre.pretty, pre.depth),
                    e,
                );
            }
            return Err(e);
        },
    };
    list.finish()
}

impl<T: uDebug> uDebug for [T] {
    open spec fn debug_script(&self, pretty: bool, depth: nat) -> Seq<Seq<char>> {
        list_script(self@, pretty, depth)
    }

    fn fmt<W: uWrite>(&self, f: &mut Formatter<'_, W>) -> (r: Result<(), W::Error>) {
        fmt_list(self, f)
    }
}

impl<T: uDebug, const N: usize> uDebug for [T; N] {
    open spec fn debug_script(&self, pretty: bool, depth: nat) -> Seq<Seq<char>> {
        list_script(self@, pretty, depth)
    }

    fn fmt<W: uWrite>(&self, f: &mut Formatter<'_, W>) -> (r: Result<(), W::Error>) {
        fmt_list(self.as_slice(), f)
    }
}

} // verus!
