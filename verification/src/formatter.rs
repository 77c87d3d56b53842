use vstd::prelude::*;
use crate::write::uWrite;

verus! {

/// One fragment handed to the destination, and the failure that the
/// destination answered with, if it refused the fragment.
pub struct Attempt<E> {
    pub fragment: Seq<char>,
    pub refusal: Option<E>,
}

/// The failure in the answer of a destination, if there is one.
pub open spec fn refusal_of<E>(r: Result<(), E>) -> Option<E> {
    match r {
        Ok(_) => None,
        Err(e) => Some(e),
    }
}

/// What a formatter stands for in contracts.
pub struct FormatterView<E> {
    /// Every fragment handed to the destination so far, oldest first.
    pub trace: Seq<Attempt<E>>,
    /// The text that the destination holds.
    pub text: Seq<char>,
    /// Whether structured values are laid out over several lines.
    pub pretty: bool,
    /// The number of open builders that indent their fields.
    pub depth: nat,
}

/// The fragments of `script` joined into one text.
pub open spec fn concat(script: Seq<Seq<char>>) -> Seq<char>
    decreases script.len(),
{
    if script.len() == 0 {
        Seq::empty()
    } else {
        concat(script.drop_last()) + script.last()
    }
}

/// One unit of indentation.
pub const INDENT: &'static str = "    ";

/// The fragments that indent a line at the given depth.
pub open spec fn indentation(depth: nat) -> Seq<Seq<char>> {
    Seq::new(depth, |i: int| INDENT@)
}

/// The attempts of a destination that took every fragment of `script`.
pub open spec fn accepted<E>(script: Seq<Seq<char>>) -> Seq<Attempt<E>> {
    Seq::new(script.len(), |i: int| Attempt { fragment: script[i], refusal: None })
}

/// The attempts of a destination that took the first `k` fragments of `script`
/// and refused the next with `e`.
pub open spec fn refused<E>(script: Seq<Seq<char>>, k: int, e: E) -> Seq<Attempt<E>> {
    accepted::<E>(script.take(k)).push(Attempt { fragment: script[k], refusal: Some(e) })
}

/// A call that had `script` to write took the formatter from `pre` to `post`
/// and returned `r`: on success every fragment was written, in order, and the
/// layout state is as before; on failure the fragments were written up to the
/// one that the destination refused, whose error is `r`'s, and none after it.
pub open spec fn wrote<E>(
    pre: FormatterView<E>,
    post: FormatterView<E>,
    script: Seq<Seq<char>>,
    r: Result<(), E>,
) -> bool {
    match r {
        Ok(_) => post == (FormatterView {
            trace: pre.trace + accepted::<E>(script),
            text: pre.text + concat(script),
            ..pre
        }),
        Err(e) => exists|k: int|
            0 <= k < script.len() && post.trace == pre.trace + #[trigger] refused(script, k, e),
    }
}

/// A call that failed has handed the destination the fragments of its
/// script, in order, up to the one that the destination refused, and none
/// after it. The destination took every fragment before that one, and the
/// failure that the call returned is the one that the destination answered
/// with.
pub proof fn lemma_failure_ends_rendering<E>(
    pre: FormatterView<E>,
    post: FormatterView<E>,
    script: Seq<Seq<char>>,
    e: E,
)
    requires
        wrote(pre, post, script, Err(e)),
    ensures
        exists|k: int|
            #![trigger script[k]]
            {
                &&& 0 <= k < script.len()
                &&& post.trace.len() == pre.trace.len() + k + 1
                &&& post.trace.take(pre.trace.len() as int) == pre.trace
                &&& forall|i: int|
                    0 <= i < k ==> #[trigger] post.trace[pre.trace.len() + i] == (Attempt::<E> {
                        fragment: script[i],
                        refusal: None,
                    })
                &&& post.trace.last() == (Attempt { fragment: script[k], refusal: Some(e) })
            },
{
    let k = choose|k: int|
        0 <= k < script.len() && post.trace == pre.trace + #[trigger] refused(script, k, e);
    assert(post.trace.take(pre.trace.len() as int) =~= pre.trace);
    assert forall|i: int| 0 <= i < k implies #[trigger] post.trace[pre.trace.len() + i] == (
    Attempt::<E> { fragment: script[i], refusal: None }) by {
        assert(refused(script, k, e)[i] == accepted::<E>(script.take(k))[i]);
    }
    assert(post.trace.len() == pre.trace.len() + k + 1);
}

/// A call that succeeded has handed the destination every fragment of its
/// script, in order, and the destination took each of them: its text has
/// grown by the fragments joined.
pub proof fn lemma_success_writes_all<E>(
    pre: FormatterView<E>,
    post: FormatterView<E>,
    script: Seq<Seq<char>>,
)
    requires
        wrote(pre, post, script, Ok(())),
    ensures
        post.trace.len() == pre.trace.len() + script.len(),
        post.trace.take(pre.trace.len() as int) == pre.trace,
        forall|i: int|
            0 <= i < script.len() ==> #[trigger] post.trace[pre.trace.len() + i] == (Attempt::<E> {
                fragment: script[i],
                refusal: None,
            }),
        post.text == pre.text + concat(script),
{
    assert(post.trace.take(pre.trace.len() as int) =~= pre.trace);
}

/// Joining no fragments gives the empty text; joining one gives that fragment.
pub proof fn lemma_concat_unit(s: Seq<char>)
    ensures
        concat(Seq::<Seq<char>>::empty()) == Seq::<char>::empty(),
        concat(seq![s]) == s,
{
    reveal_with_fuel(concat, 2);
    assert(seq![s].drop_last() =~= Seq::<Seq<char>>::empty());
    assert(Seq::<char>::empty() + s =~= s);
}

/// Joining distributes over the concatenation of two scripts.
pub proof fn lemma_concat_add(a: Seq<Seq<char>>, b: Seq<Seq<char>>)
    ensures
        concat(a + b) == concat(a) + concat(b),
    decreases b.len(),
{
    if b.len() == 0 {
        assert(a + b =~= a);
        assert(concat(a) + concat(b) =~= concat(a));
    } else {
        lemma_concat_add(a, b.drop_last());
        assert((a + b).drop_last() =~= a + b.drop_last());
        assert((a + b).last() == b.last());
        assert(concat(a) + concat(b.drop_last()) + b.last() =~= concat(a) + (concat(b.drop_last())
            + b.last()));
    }
}

/// A call that had nothing to write and changed nothing has written nothing.
pub proof fn lemma_wrote_nothing<E>(pre: FormatterView<E>)
    ensures
        wrote(pre, pre, Seq::empty(), Ok(())),
{
    assert(pre.trace + accepted::<E>(Seq::empty()) =~= pre.trace);
    assert(pre.text + concat(Seq::empty()) =~= pre.text);
}

/// Two calls in a row, the first of which succeeded, amount to one call that
/// had both scripts to write.
pub proof fn lemma_wrote_then<E>(
    a: FormatterView<E>,
    b: FormatterView<E>,
    c: FormatterView<E>,
    first: Seq<Seq<char>>,
    second: Seq<Seq<char>>,
    r: Result<(), E>,
)
    requires
        wrote(a, b, first, Ok(())),
        wrote(b, c, second, r),
    ensures
        wrote(a, c, first + second, r),
{
    let both = first + second;
    match r {
        Ok(_) => {
            lemma_concat_add(first, second);
            assert(a.trace + accepted::<E>(first) + accepted::<E>(second) =~= a.trace
                + accepted::<E>(both));
            assert(a.text + concat(first) + concat(second) =~= a.text + (concat(first) + concat(
                second,
            )));
        },
        Err(e) => {
            let k = choose|k: int|
                0 <= k < second.len() && c.trace == b.trace + #[trigger] refused(second, k, e);
            let n = first.len() as int + k;
            assert(both.take(n) =~= first + second.take(k));
            assert(accepted::<E>(both.take(n)) =~= accepted::<E>(first) + accepted::<E>(
                second.take(k),
            ));
            assert(both[n] == second[k]);
            assert(a.trace + refused(both, n, e) =~= a.trace + accepted::<E>(first) + refused(
                second,
                k,
                e,
            ));
        },
    }
}

/// A call that failed while writing a script has failed in the same way while
/// writing any script that begins with it.
pub proof fn lemma_wrote_stop<E>(
    a: FormatterView<E>,
    b: FormatterView<E>,
    first: Seq<Seq<char>>,
    rest: Seq<Seq<char>>,
    e: E,
)
    requires
        wrote(a, b, first, Err(e)),
    ensures
        wrote(a, b, first + rest, Err(e)),
{
    let both = first + rest;
    let k = choose|k: int|
        0 <= k < first.len() && b.trace == a.trace + #[trigger] refused(first, k, e);
    assert(both.take(k) =~= first.take(k));
    assert(both[k] == first[k]);
    assert(refused(both, k, e) == refused(first, k, e));
}

/// Since the formatter was in `pre`, exactly the fragments of `done` were
/// written, and the destination took each of them. Nothing is said of the
/// layout.
pub open spec fn at<E>(pre: FormatterView<E>, cur: FormatterView<E>, done: Seq<Seq<char>>) -> bool {
    &&& cur.trace == pre.trace + accepted::<E>(done)
    &&& cur.text == pre.text + concat(done)
}

/// A formatter that has just been observed has written nothing since.
pub proof fn lemma_at_start<E>(pre: FormatterView<E>, full: Seq<Seq<char>>)
    ensures
        at(pre, pre, full.take(0)),
{
    assert(pre.trace + accepted::<E>(full.take(0)) =~= pre.trace);
    assert(pre.text + concat(full.take(0)) =~= pre.text);
}

/// One more call on the way through the script `full`: after the first `n`
/// fragments, a call had the next fragments, `part`, to write. If it succeeded,
/// the formatter is that much further; if it failed, the whole of `full` has
/// failed in the same way.
pub proof fn lemma_progress<E>(
    pre: FormatterView<E>,
    mid: FormatterView<E>,
    end: FormatterView<E>,
    full: Seq<Seq<char>>,
    n: int,
    part: Seq<Seq<char>>,
    r: Result<(), E>,
)
    requires
        at(pre, mid, full.take(n)),
        wrote(mid, end, part, r),
        0 <= n,
        n + part.len() <= full.len(),
        full.subrange(n, n + part.len()) == part,
    ensures
        r is Ok ==> at(pre, end, full.take(n + part.len())) && end.pretty == mid.pretty && end.depth
            == mid.depth,
        r is Err ==> wrote(pre, end, full, r),
{
    let m = n + part.len();
    assert(full.take(m) =~= full.take(n) + part);
    match r {
        Ok(_) => {
            lemma_concat_add(full.take(n), part);
            assert(accepted::<E>(full.take(m)) =~= accepted::<E>(full.take(n)) + accepted::<E>(
                part,
            ));
            assert(pre.trace + accepted::<E>(full.take(n)) + accepted::<E>(part) =~= pre.trace
                + accepted::<E>(full.take(m)));
            assert(pre.text + concat(full.take(n)) + concat(part) =~= pre.text + (concat(
                full.take(n),
            ) + concat(part)));
        },
        Err(e) => {
            let k = choose|k: int|
                0 <= k < part.len() && end.trace == mid.trace + #[trigger] refused(part, k, e);
            assert(full.take(n + k) =~= full.take(n) + part.take(k));
            assert(accepted::<E>(full.take(n + k)) =~= accepted::<E>(full.take(n)) + accepted::<E>(
                part.take(k),
            ));
            assert(full[n + k] == part[k]);
            assert(pre.trace + refused(full, n + k, e) =~= pre.trace + accepted::<E>(full.take(n))
                + refused(part, k, e));
        },
    }
}

/// A formatter that has come through the whole of `full` with its layout as
/// it was has written `full`.
pub proof fn lemma_arrived<E>(pre: FormatterView<E>, end: FormatterView<E>, full: Seq<Seq<char>>)
    requires
        at(pre, end, full.take(full.len() as int)),
        end.pretty == pre.pretty,
        end.depth == pre.depth,
    ensures
        wrote(pre, end, full, Ok(())),
{
    assert(full.take(full.len() as int) =~= full);
}

/// A value with a structured, developer-facing text form.
#[allow(non_camel_case_types)]
pub trait uDebug {
    /// The fragments that the value writes, in order, under the given layout.
    /// The default is one unknown script, the same for every value and every
    /// layout: it fits no type that is verified, and is there so that code
    /// outside the verifier can implement the trait without a script.
    open spec fn debug_script(&self, pretty: bool, depth: nat) -> Seq<Seq<char>> {
        arbitrary()
    }

    /// Writes the value's structured form.
    fn fmt<W: uWrite>(&self, f: &mut Formatter<'_, W>) -> (r: Result<(), W::Error>)
        ensures
            wrote(old(f)@, final(f)@, self.debug_script(old(f)@.pretty, old(f)@.depth), r),
            *final(final(f).sink()) == *final(old(f).sink()),
    ;
}

/// A value with a direct, user-facing text form.
#[allow(non_camel_case_types)]
pub trait uDisplay {
    /// The fragments that the value writes, in order, under the given layout.
    /// The default is one unknown script, the same for every value and every
    /// layout: it fits no type that is verified, and is there so that code
    /// outside the verifier can implement the trait without a script.
    open spec fn display_script(&self, pretty: bool, depth: nat) -> Seq<Seq<char>> {
        arbitrary()
    }

    /// Writes the value's direct form.
    fn fmt<W: uWrite>(&self, f: &mut Formatter<'_, W>) -> (r: Result<(), W::Error>)
        ensures
            wrote(old(f)@, final(f)@, self.display_script(old(f)@.pretty, old(f)@.depth), r),
            *final(final(f).sink()) == *final(old(f).sink()),
    ;
}

/// A handle on one destination for the time of one rendering: it writes
/// through to the destination and carries the layout, which the builders
/// that are opened on it read and change.
pub struct Formatter<'w, W: uWrite> {
    indentation: u8,
    pretty: bool,
    writer: &'w mut W,
    trace: Ghost<Seq<Attempt<W::Error>>>,
}

impl<'w, W: uWrite> View for Formatter<'w, W> {
    type V = FormatterView<W::Error>;

    closed spec fn view(&self) -> FormatterView<W::Error> {
        FormatterView {
            trace: self.trace@,
            text: self.writer.text(),
            pretty: self.pretty,
            depth: self.indentation as nat,
        }
    }
}

impl<'w, W: uWrite> Formatter<'w, W> {
    /// The destination that the formatter writes to.
    pub closed spec fn sink(&self) -> &'w mut W {
        self.writer
    }

    /// Once the formatter is no longer used, its destination holds the text
    /// that the formatter last saw in it.
    pub proof fn lemma_released(self)
        requires
            has_resolved(self),
        ensures
            (*final(self.sink())).text() == self@.text,
    {
    }

    /// A formatter on `writer`, in the one-line layout and outside any
    /// builder, that has written nothing yet.
    pub fn new(writer: &'w mut W) -> (f: Self)
        ensures
            f@ == (FormatterView::<W::Error> {
                trace: Seq::empty(),
                text: old(writer).text(),
                pretty: false,
                depth: 0,
            }),
            *final(f.sink()) == *final(writer),
    {
        Formatter { indentation: 0, pretty: false, writer, trace: Ghost(Seq::empty()) }
    }

    /// Renders `value` in its structured form with the pretty layout switched
    /// on, and puts the layout back as it was once the value is written.
    pub fn pretty<T: uDebug>(&mut self, value: &T) -> (r: Result<(), W::Error>)
        ensures
            wrote(old(self)@, final(self)@, value.debug_script(true, old(self)@.depth), r),
            *final(final(self).sink()) == *final(old(self).sink()),
    {
        let pretty = self.pretty;
        self.pretty = true;
        let ghost inner = self@;
        match value.fmt(self) {
            Ok(_) => {
                self.pretty = pretty;
                proof {
                    assert(self@ == (FormatterView { pretty: old(self)@.pretty, ..self@ }));
                }
                Ok(())
            },
            Err(e) => {
                Err(e)
            },
        }
    }

    /// Writes one character as a single fragment.
    pub fn write_char(&mut self, c: char) -> (r: Result<(), W::Error>)
        ensures
            wrote(old(self)@, final(self)@, seq![seq![c]], r),
            r is Ok ==> final(self)@.text == old(self)@.text.push(c),
            *final(final(self).sink()) == *final(old(self).sink()),
    {
        let r = self.writer.write_char(c);
        let ghost refusal = refusal_of(r);
        self.trace = Ghost(self.trace@.push(Attempt { fragment: seq![c], refusal }));
        proof {
            let script = seq![seq![c]];
            lemma_concat_unit(seq![c]);
            assert(old(self)@.text + seq![c] =~= old(self)@.text.push(c));
            if r is Ok {
                assert(old(self)@.trace + accepted::<W::Error>(script) =~= self@.trace);
            } else {
                assert(accepted::<W::Error>(script.take(0)) =~= Seq::<Attempt<W::Error>>::empty());
                assert(old(self)@.trace + refused(script, 0, r->Err_0) =~= self@.trace);
            }
        }
        r
    }

    /// The current depth of indentation.
    pub(crate) fn depth(&self) -> (d: u8)
        ensures
            d as nat == self@.depth,
    {
        self.indentation
    }

    /// Goes one level deeper in the pretty layout, up to the deepest level
    /// that is counted; stays where it is otherwise.
    pub(crate) fn nest(&mut self)
        ensures
            final(self)@ == (FormatterView {
                depth: if old(self)@.pretty && old(self)@.depth < 255 {
                    old(self)@.depth + 1
                } else {
                    old(self)@.depth
                },
                ..old(self)@
            }),
            *final(final(self).sink()) == *final(old(self).sink()),
    {
        if self.pretty && self.indentation < 255 {
            self.indentation = self.indentation + 1;
        }
    }

    /// Goes back to the given depth.
    pub(crate) fn unnest(&mut self, depth: u8)
        ensures
            final(self)@ == (FormatterView { depth: depth as nat, ..old(self)@ }),
            *final(final(self).sink()) == *final(old(self).sink()),
    {
        self.indentation = depth;
    }

    /// Whether the pretty layout is on.
    pub(crate) fn is_pretty(&self) -> (p: bool)
        ensures
            p == self@.pretty,
    {
        self.pretty
    }

    /// Writes `s` as fragment `n` of the script `full`.
    pub(crate) fn next_str(
        &mut self,
        s: &str,
        Ghost(pre): Ghost<FormatterView<W::Error>>,
        Ghost(full): Ghost<Seq<Seq<char>>>,
        Ghost(n): Ghost<int>,
    ) -> (r: Result<(), W::Error>)
        requires
            at(pre, old(self)@, full.take(n)),
            0 <= n < full.len(),
            full[n] == s@,
        ensures
            r is Ok ==> at(pre, final(self)@, full.take(n + 1)),
            r is Ok ==> final(self)@.pretty == old(self)@.pretty,
            r is Ok ==> final(self)@.depth == old(self)@.depth,
            r is Err ==> wrote(pre, final(self)@, full, r),
            *final(final(self).sink()) == *final(old(self).sink()),
    {
        let r = self.write_str(s);
        proof {
            assert(full.subrange(n, n + 1) =~= seq![s@]);
            lemma_progress(pre, old(self)@, self@, full, n, seq![s@], r);
        }
        r
    }

    /// Writes `c` as fragment `n` of the script `full`.
    pub(crate) fn next_char(
        &mut self,
        c: char,
        Ghost(pre): Ghost<FormatterView<W::Error>>,
        Ghost(full): Ghost<Seq<Seq<char>>>,
        Ghost(n): Ghost<int>,
    ) -> (r: Result<(), W::Error>)
        requires
            at(pre, old(self)@, full.take(n)),
            0 <= n < full.len(),
            full[n] == seq![c],
        ensures
            r is Ok ==> at(pre, final(self)@, full.take(n + 1)),
            r is Ok ==> final(self)@.pretty == old(self)@.pretty,
            r is Ok ==> final(self)@.depth == old(self)@.depth,
            r is Err ==> wrote(pre, final(self)@, full, r),
            *final(final(self).sink()) == *final(old(self).sink()),
    {
        let r = self.write_char(c);
        proof {
            assert(full.subrange(n, n + 1) =~= seq![seq![c]]);
            lemma_progress(pre, old(self)@, self@, full, n, seq![seq![c]], r);
        }
        r
    }

    /// Writes the direct form of `value` as the fragments of `full` from `n`
    /// on.
    pub(crate) fn next_display<T: uDisplay>(
        &mut self,
        value: &T,
        Ghost(pre): Ghost<FormatterView<W::Error>>,
        Ghost(full): Ghost<Seq<Seq<char>>>,
        Ghost(n): Ghost<int>,
    ) -> (r: Result<(), W::Error>)
        requires
            at(pre, old(self)@, full.take(n)),
            0 <= n,
            n + value.display_script(old(self)@.pretty, old(self)@.depth).len() <= full.len(),
            full.subrange(n, n + value.display_script(old(self)@.pretty, old(self)@.depth).len())
                == value.display_script(old(self)@.pretty, old(self)@.depth),
        ensures
            r is Ok ==> at(
                pre,
                final(self)@,
                full.take(n + value.display_script(old(self)@.pretty, old(self)@.depth).len()),
            ),
            r is Ok ==> final(self)@.pretty == old(self)@.pretty,
            r is Ok ==> final(self)@.depth == old(self)@.depth,
            r is Err ==> wrote(pre, final(self)@, full, r),
            *final(final(self).sink()) == *final(old(self).sink()),
    {
        let r = value.fmt(self);
        proof {
            lemma_progress(
                pre,
                old(self)@,
                self@,
                full,
                n,
                value.display_script(old(self)@.pretty, old(self)@.depth),
                r,
            );
        }
        r
    }

    /// Writes the indentation of the current depth as the fragments of `full`
    /// from `n` on.
    pub(crate) fn next_indent(
        &mut self,
        Ghost(pre): Ghost<FormatterView<W::Error>>,
        Ghost(full): Ghost<Seq<Seq<char>>>,
        Ghost(n): Ghost<int>,
    ) -> (r: Result<(), W::Error>)
        requires
            at(pre, old(self)@, full.take(n)),
            0 <= n,
            n + old(self)@.depth <= full.len(),
            full.subrange(n, n + old(self)@.depth) == indentation(old(self)@.depth),
        ensures
            r is Ok ==> at(pre, final(self)@, full.take(n + old(self)@.depth)),
            r is Ok ==> final(self)@.pretty == old(self)@.pretty,
            r is Ok ==> final(self)@.depth == old(self)@.depth,
            r is Err ==> wrote(pre, final(self)@, full, r),
            *final(final(self).sink()) == *final(old(self).sink()),
    {
        let r = self.indent();
        proof {
            lemma_progress(pre, old(self)@, self@, full, n, indentation(old(self)@.depth), r);
        }
        r
    }

    /// Writes the structured form of `value` as the fragments of `full` from
    /// `n` on.
    pub(crate) fn next_debug<T: uDebug>(
        &mut self,
        value: &T,
        Ghost(pre): Ghost<FormatterView<W::Error>>,
        Ghost(full): Ghost<Seq<Seq<char>>>,
        Ghost(n): Ghost<int>,
    ) -> (r: Result<(), W::Error>)
        requires
            at(pre, old(self)@, full.take(n)),
            0 <= n,
            n + value.debug_script(old(self)@.pretty, old(self)@.depth).len() <= full.len(),
            full.subrange(n, n + value.debug_script(old(self)@.pretty, old(self)@.depth).len())
                == value.debug_script(old(self)@.pretty, old(self)@.depth),
        ensures
            r is Ok ==> at(
                pre,
                final(self)@,
                full.take(n + value.debug_script(old(self)@.pretty, old(self)@.depth).len()),
            ),
            r is Ok ==> final(self)@.pretty == old(self)@.pretty,
            r is Ok ==> final(self)@.depth == old(self)@.depth,
            r is Err ==> wrote(pre, final(self)@, full, r),
            *final(final(self).sink()) == *final(old(self).sink()),
    {
        let r = value.fmt(self);
        proof {
            lemma_progress(
                pre,
                old(self)@,
                self@,
                full,
                n,
                value.debug_script(old(self)@.pretty, old(self)@.depth),
                r,
            );
        }
        r
    }

    /// Writes the indentation of the current depth, one unit per level.
    pub(crate) fn indent(&mut self) -> (r: Result<(), W::Error>)
        ensures
            wrote(old(self)@, final(self)@, indentation(old(self)@.depth), r),
            *final(final(self).sink()) == *final(old(self).sink()),
    {
        let mut i: u8 = 0;
        proof {
            lemma_wrote_nothing(self@);
            assert(indentation(0) =~= Seq::<Seq<char>>::empty());
        }
        while i < self.indentation
            invariant
                i <= self.indentation,
                self.indentation == old(self).indentation,
                wrote(old(self)@, self@, indentation(i as nat), Ok(())),
                *final(self.sink()) == *final(old(self).sink()),
            decreases self.indentation - i,
        {
            let ghost before = self@;
            match self.write_str(INDENT) {
                Ok(_) => {
                    proof {
                        lemma_wrote_then(
                            old(self)@,
                            before,
                            self@,
                            indentation(i as nat),
                            seq![INDENT@],
                            Ok(()),
                        );
                        assert(indentation(i as nat) + seq![INDENT@] =~= indentation(
                            (i + 1) as nat,
                        ));
                    }
                },
                Err(e) => {
                    proof {
                        lemma_wrote_then(
                            old(self)@,
                            before,
                            self@,
                            indentation(i as nat),
                            seq![INDENT@],
                            Err(e),
                        );
                        let rest = Seq::new(
                            (old(self)@.depth - i - 1) as nat,
                            |j: int| INDENT@,
                        );
                        assert(indentation(i as nat) + seq![INDENT@] + rest =~= indentation(
                            old(self)@.depth,
                        ));
                        lemma_wrote_stop(
                            old(self)@,
                            self@,
                            indentation(i as nat) + seq![INDENT@],
                            rest,
                            e,
                        );
                    }
                    return Err(e);
                },
            }
            i = i + 1;
        }
        Ok(())
    }

    pub fn write_str(&mut self, s: &str) -> (r: Result<(), W::Error>)
        ensures
            wrote(old(self)@, final(self)@, seq![s@], r),
            r is Ok ==> final(self)@.text == old(self)@.text + s@,
            *final(final(self).sink()) == *final(old(self).sink()),
    {
        let r = self.writer.write_str(s);
        let ghost refusal = refusal_of(r);
        self.trace = Ghost(self.trace@.push(Attempt { fragment: s@, refusal }));
        proof {
            let script = seq![s@];
            lemma_concat_unit(s@);
            if r is Ok {
                assert(old(self)@.trace + accepted::<W::Error>(script) =~= self@.trace);
            } else {
                assert(accepted::<W::Error>(script.take(0)) =~= Seq::<Attempt<W::Error>>::empty());
                assert(old(self)@.trace + refused(script, 0, r->Err_0) =~= self@.trace);
            }
        }
        r
    }
}

} // verus!
