use vstd::prelude::*;
use std::collections::TryReserveError;
use crate::argument::Argument;
use crate::format_str::{
    arity, check_arity, classes_of, parse_format_str, parse_template, piece_views, positional_count,
    push_char, with_newline, FormatArgType, Piece, PieceView, TemplateError,
};
use crate::formatter::{
    accepted, at, concat, lemma_arrived, lemma_at_start, lemma_progress, refused, wrote, Formatter,
    FormatterView,
};
use crate::write::uWrite;

verus! {

/// The position in `named` of the first value called `name`, from `from` on.
pub open spec fn lookup<A>(named: Seq<(String, A)>, name: Seq<char>, from: int) -> Option<int>
    decreases named.len() - from,
{
    if from < 0 || from >= named.len() {
        None
    } else if named[from].0@ == name {
        Some(from)
    } else {
        lookup(named, name, from + 1)
    }
}

/// The position in `named` of the first value called `name`.
pub fn find_named<A>(named: &[(String, A)], name: &String) -> (r: Option<usize>)
    ensures
        match r {
            Some(j) => lookup(named@, name@, 0) == Some(j as int) && j < named@.len(),
            None => lookup(named@, name@, 0) is None,
        },
{
    let mut j: usize = 0;
    while j < named.len()
        invariant
            j <= named@.len(),
            lookup(named@, name@, 0) == lookup(named@, name@, j as int),
        decreases named@.len() - j,
    {
        if named[j].0 == *name {
            return Some(j);
        }
        j = j + 1;
    }
    None
}

/// The value that piece `i` stands for: the next positional argument for a
/// placeholder without a name, the first value of that name for one with a
/// name, and none for a literal or where no such value is supplied.
pub open spec fn bound<A>(
    pieces: Seq<PieceView>,
    i: int,
    args: Seq<A>,
    named: Seq<(String, A)>,
) -> Option<A> {
    match pieces[i] {
        PieceView::Literal(_) => None,
        PieceView::Arg { implicit_capture: None, .. } => {
            let k = positional_count(pieces.take(i));
            if k < args.len() {
                Some(args[k as int])
            } else {
                None
            }
        },
        PieceView::Arg { implicit_capture: Some(name), .. } => match lookup(named, name, 0) {
            Some(j) => Some(named[j].1),
            None => None,
        },
    }
}

/// Every placeholder among the pieces has its value, and the value has the
/// form that the placeholder asks for.
pub open spec fn bindable<'a, W: uWrite>(
    pieces: Seq<PieceView>,
    args: Seq<Argument<'a, W>>,
    named: Seq<(String, Argument<'a, W>)>,
) -> bool {
    forall|i: int|
        0 <= i < pieces.len() && pieces[i] is Arg ==> piece_error(pieces, i, args, named) is None
}

/// What stands against rendering piece `i` with the values supplied, if
/// anything does: a placeholder needs its value, and the value must have the
/// form that the placeholder asks for.
pub open spec fn piece_error<'a, W: uWrite>(
    pieces: Seq<PieceView>,
    i: int,
    args: Seq<Argument<'a, W>>,
    named: Seq<(String, Argument<'a, W>)>,
) -> Option<TemplateError> {
    match pieces[i] {
        PieceView::Literal(_) => None,
        PieceView::Arg { arg_type, .. } => match bound(pieces, i, args, named) {
            None => Some(TemplateError::UnknownName { piece: i as usize }),
            Some(value) => if value.offers(arg_type) {
                None
            } else {
                Some(TemplateError::MissingForm { piece: i as usize })
            },
        },
    }
}

/// The fragments of one piece: the text of a literal, and for a placeholder
/// the form of its value that the placeholder asks for.
pub open spec fn piece_script<'a, W: uWrite>(
    piece: PieceView,
    value: Option<Argument<'a, W>>,
    pretty: bool,
    depth: nat,
) -> Seq<Seq<char>> {
    match piece {
        PieceView::Literal(text) => seq![text],
        PieceView::Arg { arg_type, .. } => match value {
            None => Seq::empty(),
            Some(value) => value.script(arg_type, pretty, depth),
        },
    }
}

/// The fragments of piece `j` of a template.
pub open spec fn fragments_of<'a, W: uWrite>(
    pieces: Seq<PieceView>,
    args: Seq<Argument<'a, W>>,
    named: Seq<(String, Argument<'a, W>)>,
    pretty: bool,
    depth: nat,
    j: int,
) -> Seq<Seq<char>> {
    piece_script(pieces[j], bound(pieces, j, args, named), pretty, depth)
}

/// The fragments of the first `upto` pieces of a template, in order: each
/// piece gives its fragments once, and none is left out.
pub open spec fn template_script<'a, W: uWrite>(
    pieces: Seq<PieceView>,
    args: Seq<Argument<'a, W>>,
    named: Seq<(String, Argument<'a, W>)>,
    pretty: bool,
    depth: nat,
    upto: int,
) -> Seq<Seq<char>>
    decreases upto,
{
    if upto <= 0 {
        Seq::empty()
    } else {
        template_script(pieces, args, named, pretty, depth, upto - 1) + fragments_of(
            pieces,
            args,
            named,
            pretty,
            depth,
            upto - 1,
        )
    }
}

/// A rendering of the first `upto` pieces of a template that failed has
/// written some of the pieces in full, in order, has stopped within the next
/// piece at the fragment that the destination refused, and has written
/// nothing of the pieces after it.
pub proof fn lemma_failure_ends_template<'a, W: uWrite, E>(
    pre: FormatterView<E>,
    post: FormatterView<E>,
    pieces: Seq<PieceView>,
    args: Seq<Argument<'a, W>>,
    named: Seq<(String, Argument<'a, W>)>,
    pretty: bool,
    depth: nat,
    upto: int,
    e: E,
)
    requires
        wrote(pre, post, template_script(pieces, args, named, pretty, depth, upto), Err(e)),
    ensures
        exists|j: int, k: int|
            {
                &&& 0 <= j < upto
                &&& 0 <= k < fragments_of(pieces, args, named, pretty, depth, j).len()
                &&& post.trace == pre.trace + accepted::<E>(
                    template_script(pieces, args, named, pretty, depth, j),
                ) + #[trigger] refused(fragments_of(pieces, args, named, pretty, depth, j), k, e)
            },
    decreases upto,
{
    let full = template_script(pieces, args, named, pretty, depth, upto);
    let k = choose|k: int|
        0 <= k < full.len() && post.trace == pre.trace + #[trigger] refused(full, k, e);
    let before = template_script(pieces, args, named, pretty, depth, upto - 1);
    let last = fragments_of(pieces, args, named, pretty, depth, upto - 1);
    assert(upto > 0);
    assert(full == before + last);
    if k < before.len() {
        assert(full.take(k) =~= before.take(k));
        assert(refused(full, k, e) == refused(before, k, e));
        lemma_failure_ends_template(pre, post, pieces, args, named, pretty, depth, upto - 1, e);
    } else {
        let j = upto - 1;
        let inner = k - before.len();
        assert(full.take(k) =~= before + last.take(inner));
        assert(accepted::<E>(full.take(k)) =~= accepted::<E>(before) + accepted::<E>(
            last.take(inner),
        ));
        assert(pre.trace + refused(full, k, e) =~= pre.trace + accepted::<E>(before) + refused(
            last,
            inner,
            e,
        ));
        assert(post.trace == pre.trace + accepted::<E>(
            template_script(pieces, args, named, pretty, depth, j),
        ) + refused(fragments_of(pieces, args, named, pretty, depth, j), inner, e));
    }
}

/// The fragments of the first `i` pieces stand at the start of the fragments
/// of the first `j`.
pub proof fn lemma_template_prefix<'a, W: uWrite>(
    pieces: Seq<PieceView>,
    args: Seq<Argument<'a, W>>,
    named: Seq<(String, Argument<'a, W>)>,
    pretty: bool,
    depth: nat,
    i: int,
    j: int,
)
    requires
        0 <= i <= j,
    ensures
        template_script(pieces, args, named, pretty, depth, i).len() <= template_script(
            pieces,
            args,
            named,
            pretty,
            depth,
            j,
        ).len(),
        template_script(pieces, args, named, pretty, depth, j).take(
            template_script(pieces, args, named, pretty, depth, i).len() as int,
        ) == template_script(pieces, args, named, pretty, depth, i),
    decreases j - i,
{
    let short = template_script(pieces, args, named, pretty, depth, i);
    if i == j {
        assert(short.take(short.len() as int) =~= short);
    } else {
        lemma_template_prefix(pieces, args, named, pretty, depth, i, j - 1);
        let before = template_script(pieces, args, named, pretty, depth, j - 1);
        let long = template_script(pieces, args, named, pretty, depth, j);
        assert(long.take(short.len() as int) =~= before.take(short.len() as int));
    }
}

/// Counting the positional pieces goes up by one at each positional piece.
pub proof fn lemma_positional_step(pieces: Seq<PieceView>, i: int)
    requires
        0 <= i < pieces.len(),
    ensures
        positional_count(pieces.take(i + 1)) == positional_count(pieces.take(i)) + if pieces[i]
            .is_positional_arg() {
            1nat
        } else {
            0nat
        },
{
    assert(pieces.take(i + 1).drop_last() =~= pieces.take(i));
}

/// What stands against rendering the pieces from `from` on, piece by piece in
/// order, if anything does.
pub open spec fn first_error<'a, W: uWrite>(
    pieces: Seq<PieceView>,
    args: Seq<Argument<'a, W>>,
    named: Seq<(String, Argument<'a, W>)>,
    from: int,
) -> Option<TemplateError>
    decreases pieces.len() - from,
{
    if from < 0 || from >= pieces.len() {
        None
    } else {
        match piece_error(pieces, from, args, named) {
            Some(e) => Some(e),
            None => first_error(pieces, args, named, from + 1),
        }
    }
}

/// Why the pieces cannot be rendered with the values supplied, if they cannot:
/// the number of positional arguments is held against the pieces first, then
/// each placeholder against its value.
pub open spec fn binding_error<'a, W: uWrite>(
    pieces: Seq<PieceView>,
    args: Seq<Argument<'a, W>>,
    named: Seq<(String, Argument<'a, W>)>,
) -> Option<TemplateError> {
    match arity(positional_count(pieces), args.len()) {
        Some(e) => Some(e),
        None => first_error(pieces, args, named, 0),
    }
}

/// Nothing stands against any piece from `from` on, if `first_error` finds
/// nothing.
pub proof fn lemma_first_error<'a, W: uWrite>(
    pieces: Seq<PieceView>,
    args: Seq<Argument<'a, W>>,
    named: Seq<(String, Argument<'a, W>)>,
    from: int,
)
    requires
        0 <= from,
        first_error(pieces, args, named, from) is None,
    ensures
        forall|i: int|
            from <= i < pieces.len() ==> piece_error(pieces, i, args, named) is None,
    decreases pieces.len() - from,
{
    if from < pieces.len() {
        lemma_first_error(pieces, args, named, from + 1);
    }
}

/// The positional pieces among the first `i` are no more than those among the
/// first `j`.
pub proof fn lemma_positional_monotonic(pieces: Seq<PieceView>, i: int, j: int)
    requires
        0 <= i <= j <= pieces.len(),
    ensures
        positional_count(pieces.take(i)) <= positional_count(pieces.take(j)),
    decreases j - i,
{
    if i < j {
        lemma_positional_monotonic(pieces, i, j - 1);
        lemma_positional_step(pieces, j - 1);
    }
}

/// Pieces that pass the check of their bindings have a value for each
/// placeholder.
pub proof fn lemma_bindable<'a, W: uWrite>(
    pieces: Seq<PieceView>,
    args: Seq<Argument<'a, W>>,
    named: Seq<(String, Argument<'a, W>)>,
)
    requires
        binding_error(pieces, args, named) is None,
    ensures
        bindable(pieces, args, named),
{
    lemma_first_error(pieces, args, named, 0);
}

/// Holds the values supplied against the pieces of a template: the number of
/// positional arguments must be the number of placeholders without a name,
/// each captured name must be among the names supplied, and each value must
/// have the form that its placeholder asks for.
pub fn check_bindings<'a, W: uWrite>(
    pieces: &[Piece],
    args: &[Argument<'a, W>],
    named: &[(String, Argument<'a, W>)],
) -> (r: Result<(), TemplateError>)
    ensures
        match r {
            Ok(_) => binding_error(piece_views(pieces@), args@, named@) is None && bindable(
                piece_views(pieces@),
                args@,
                named@,
            ),
            Err(e) => binding_error(piece_views(pieces@), args@, named@) == Some(e),
        },
{
    let ghost views = piece_views(pieces@);
    match check_arity(pieces, args.len()) {
        Ok(_) => {},
        Err(e) => {
            return Err(e);
        },
    }
    let mut next: usize = 0;
    let mut i: usize = 0;
    proof {
        assert(views.take(0) =~= Seq::<PieceView>::empty());
    }
    while i < pieces.len()
        invariant
            i <= pieces@.len(),
            views == piece_views(pieces@),
            arity(positional_count(views), args@.len()) is None,
            first_error(views, args@, named@, 0) == first_error(views, args@, named@, i as int),
            next == positional_count(views.take(i as int)),
            next <= i,
        decreases pieces@.len() - i,
    {
        proof {
            lemma_positional_step(views, i as int);
            lemma_positional_monotonic(views, i + 1, views.len() as int);
            assert(views.take(views.len() as int) =~= views);
        }
        match &pieces[i] {
            Piece::Arg { arg_type, implicit_capture } => {
                let value = match implicit_capture {
                    None => {
                        let k = next;
                        next = next + 1;
                        &args[k]
                    },
                    Some(name) => match find_named(named, name) {
                        Some(j) => &named[j].1,
                        None => {
                            return Err(TemplateError::UnknownName { piece: i });
                        },
                    },
                };
                if !value.has(arg_type) {
                    return Err(TemplateError::MissingForm { piece: i });
                }
            },
            Piece::Literal(_) => {},
        }
        i = i + 1;
    }
    proof {
        lemma_bindable(views, args@, named@);
    }
    Ok(())
}

/// Writes the pieces of a template in order: each literal as it stands, each
/// placeholder as the form of its value that it asks for. The first write
/// that fails ends the rendering.
pub fn render<'a, W: uWrite>(
    f: &mut Formatter<'_, W>,
    pieces: &[Piece],
    args: &[Argument<'a, W>],
    named: &[(String, Argument<'a, W>)],
) -> (r: Result<(), W::Error>)
    requires
        bindable(piece_views(pieces@), args@, named@),
    ensures
        wrote(
            old(f)@,
            final(f)@,
            template_script(
                piece_views(pieces@),
                args@,
                named@,
                old(f)@.pretty,
                old(f)@.depth,
                pieces@.len() as int,
            ),
            r,
        ),
        *final(final(f).sink()) == *final(old(f).sink()),
{
    let ghost pre = f@;
    let ghost views = piece_views(pieces@);
    let ghost total = pieces@.len() as int;
    let ghost full = template_script(views, args@, named@, pre.pretty, pre.depth, total);
    let mut next: usize = 0;
    let mut i: usize = 0;
    proof {
        lemma_at_start(pre, full);
        assert(views.take(0) =~= Seq::<PieceView>::empty());
    }
    while i < pieces.len()
        invariant
            i <= pieces@.len(),
            pre == old(f)@,
            views == piece_views(pieces@),
            total == pieces@.len(),
            full == template_script(views, args@, named@, pre.pretty, pre.depth, total),
            bindable(views, args@, named@),
            at(
                pre,
                f@,
                full.take(
                    template_script(
                        views,
                        args@,
                        named@,
                        pre.pretty,
                        pre.depth,
                        i as int,
                    ).len() as int,
                ),
            ),
            f@.pretty == pre.pretty,
            f@.depth == pre.depth,
            next == positional_count(views.take(i as int)),
            next <= i,
            *final(f.sink()) == *final(old(f).sink()),
        decreases pieces@.len() - i,
    {
        let ghost done = template_script(views, args@, named@, pre.pretty, pre.depth, i as int);
        let ghost value = bound(views, i as int, args@, named@);
        let ghost part = piece_script(views[i as int], value, pre.pretty, pre.depth);
        let ghost n = done.len() as int;
        proof {
            lemma_template_prefix(views, args@, named@, pre.pretty, pre.depth, i + 1, total);
            let after = template_script(views, args@, named@, pre.pretty, pre.depth, i + 1);
            assert(after == done + part);
            assert(full.take(after.len() as int) == after);
            assert(full.subrange(n, n + part.len()) =~= after.subrange(n, n + part.len()));
            assert(after.subrange(n, n + part.len()) =~= part);
            lemma_positional_step(views, i as int);
            assert(piece_error(views, i as int, args@, named@) is None);
        }
        let r = match &pieces[i] {
            Piece::Literal(text) => {
                proof {
                    assert(full[n] == part[0]);
                }
                f.next_str(text.as_str(), Ghost(pre), Ghost(full), Ghost(n))
            },
            Piece::Arg { arg_type, implicit_capture } => {
                let bound: &Argument<'a, W> = match implicit_capture {
                    None => {
                        let k = next;
                        next = next + 1;
                        &args[k]
                    },
                    Some(name) => match find_named(named, name) {
                        Some(j) => &named[j].1,
                        None => {
                            proof {
                                assert(false);
                            }
                            vstd::pervasive::unreached()
                        },
                    },
                };
                let ghost mid = f@;
                let r = bound.write(arg_type, f);
                proof {
                    lemma_progress(pre, mid, f@, full, n, part, r);
                }
                r
            },
        };
        match r {
            Ok(_) => {},
            Err(e) => {
                return Err(e);
            },
        }
        i = i + 1;
    }
    proof {
        lemma_arrived(pre, f@, full);
    }
    Ok(())
}

/// Why a template was not rendered in full.
#[derive(Debug, PartialEq)]
pub enum FormatError<E> {
    /// The template or its bindings are refused; nothing was written.
    Template(TemplateError),
    /// The destination refused a write.
    Write(E),
}

/// The pieces that a template is rendered from with the values supplied, or
/// the reason why it is not rendered: errors of syntax come first, then those
/// of the bindings.
pub open spec fn planned<'a, W: uWrite>(
    template: Seq<char>,
    newline: bool,
    args: Seq<Argument<'a, W>>,
    named: Seq<(String, Argument<'a, W>)>,
) -> Result<Seq<PieceView>, TemplateError> {
    let text = with_newline(template, newline);
    match parse_template(text, classes_of(text)) {
        Err(e) => Err(e),
        Ok(pieces) => match binding_error(pieces, args, named) {
            Some(e) => Err(e),
            None => Ok(pieces),
        },
    }
}

/// The fragments of a whole template under the given layout.
pub open spec fn whole_script<'a, W: uWrite>(
    pieces: Seq<PieceView>,
    args: Seq<Argument<'a, W>>,
    named: Seq<(String, Argument<'a, W>)>,
    pretty: bool,
    depth: nat,
) -> Seq<Seq<char>> {
    template_script(pieces, args, named, pretty, depth, pieces.len() as int)
}

/// The text that a template renders as, outside any builder and in the
/// one-line layout.
pub open spec fn rendered<'a, W: uWrite>(
    pieces: Seq<PieceView>,
    args: Seq<Argument<'a, W>>,
    named: Seq<(String, Argument<'a, W>)>,
) -> Seq<char> {
    concat(whole_script(pieces, args, named, false, 0))
}

/// What comes of compiling a template and rendering it through a formatter
/// that was in `pre` and is left in `post`. A template that is refused, and
/// no other, gives its error and leaves the formatter as it was. A template
/// that is accepted is rendered: either every fragment was written, or the
/// rendering stopped at the fragment that the destination refused and gives
/// the destination's answer, which takes a template that has a fragment to
/// write.
pub open spec fn template_outcome<'a, W: uWrite, E>(
    pre: FormatterView<E>,
    post: FormatterView<E>,
    template: Seq<char>,
    newline: bool,
    args: Seq<Argument<'a, W>>,
    named: Seq<(String, Argument<'a, W>)>,
    r: Result<(), FormatError<E>>,
) -> bool {
    match planned(template, newline, args, named) {
        Err(e) => r == Err::<(), FormatError<E>>(FormatError::Template(e)) && post == pre,
        Ok(pieces) => {
            let script = whole_script(pieces, args, named, pre.pretty, pre.depth);
            match r {
                Ok(_) => wrote(pre, post, script, Ok(())),
                Err(FormatError::Write(e)) => script.len() > 0 && wrote(pre, post, script, Err(e)),
                Err(FormatError::Template(_)) => false,
            }
        },
    }
}

/// Compiles `template`, with a line break at its end if `newline` is set,
/// and renders it through `f` with the values supplied. The template is
/// checked in full before anything is written, and the first write that the
/// destination refuses ends the rendering.
///
/// The template is compiled at each call; a caller that uses a template more
/// than once keeps the pieces of `parse_format_str` and calls `render`.
pub fn write_template<'a, W: uWrite>(
    f: &mut Formatter<'_, W>,
    template: &str,
    newline: bool,
    args: &[Argument<'a, W>],
    named: &[(String, Argument<'a, W>)],
) -> (r: Result<(), FormatError<W::Error>>)
    ensures
        template_outcome(old(f)@, final(f)@, template@, newline, args@, named@, r),
        *final(final(f).sink()) == *final(old(f).sink()),
{
    let mut format = String::from_str(template);
    if newline {
        push_char(&mut format, '\n');
    }
    let pieces = match parse_format_str(format.as_str()) {
        Ok(pieces) => pieces,
        Err(e) => {
            return Err(FormatError::Template(e));
        },
    };
    match check_bindings(pieces.as_slice(), args, named) {
        Ok(_) => {},
        Err(e) => {
            return Err(FormatError::Template(e));
        },
    }
    match render(f, pieces.as_slice(), args, named) {
        Ok(_) => Ok(()),
        Err(e) => Err(FormatError::Write(e)),
    }
}

/// Renders `template` through `f` with the values supplied.
pub fn uwrite<'a, W: uWrite>(
    f: &mut Formatter<'_, W>,
    template: &str,
    args: &[Argument<'a, W>],
    named: &[(String, Argument<'a, W>)],
) -> (r: Result<(), FormatError<W::Error>>)
    ensures
        template_outcome(old(f)@, final(f)@, template@, false, args@, named@, r),
        *final(final(f).sink()) == *final(old(f).sink()),
{
    write_template(f, template, false, args, named)
}

/// Renders `template` and a line break through `f` with the values supplied.
pub fn uwriteln<'a, W: uWrite>(
    f: &mut Formatter<'_, W>,
    template: &str,
    args: &[Argument<'a, W>],
    named: &[(String, Argument<'a, W>)],
) -> (r: Result<(), FormatError<W::Error>>)
    ensures
        template_outcome(old(f)@, final(f)@, template@, true, args@, named@, r),
        *final(final(f).sink()) == *final(old(f).sink()),
{
    write_template(f, template, true, args, named)
}

/// Renders `template` with the values supplied into a new string. A template
/// that is refused, and no other, gives its error. A template that is
/// accepted gives its text, unless the string could not grow for one of its
/// fragments: a template without a fragment to write always gives its text,
/// which is empty.
pub fn uformat<'a>(
    template: &str,
    args: &[Argument<'a, String>],
    named: &[(String, Argument<'a, String>)],
) -> (r: Result<String, FormatError<TryReserveError>>)
    ensures
        match planned(template@, false, args@, named@) {
            Err(e) => r == Err::<String, FormatError<TryReserveError>>(FormatError::Template(e)),
            Ok(pieces) => match r {
                Ok(text) => text@ == rendered(pieces, args@, named@),
                Err(FormatError::Write(_)) => whole_script(pieces, args@, named@, false, 0).len()
                    > 0,
                Err(FormatError::Template(_)) => false,
            },
        },
{
    let mut s = String::new();
    let mut f = Formatter::new(&mut s);
    let r = uwrite(&mut f, template, args, named);
    proof {
        f.lemma_released();
    }
    match r {
        Ok(_) => {
            proof {
                let pieces = planned(template@, false, args@, named@).unwrap();
                assert(Seq::<char>::empty() + rendered(pieces, args@, named@) =~= rendered(
                    pieces,
                    args@,
                    named@,
                ));
            }
            Ok(s)
        },
        Err(e) => Err(e),
    }
}

} // verus!
