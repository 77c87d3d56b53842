use vstd::prelude::*;
use crate::format_str::FormatArgType;
use crate::formatter::{uDebug, uDisplay, wrote, Formatter};
use crate::write::uWrite;

verus! {

/// A value of any type with a direct form, as a formatter on `W` sees it.
pub trait DisplayFor<W: uWrite> {
    /// The fragments that the value writes in its direct form.
    spec fn display_fragments(&self, pretty: bool, depth: nat) -> Seq<Seq<char>>;

    /// Writes the value's direct form.
    fn display_to(&self, f: &mut Formatter<'_, W>) -> (r: Result<(), W::Error>)
        ensures
            wrote(old(f)@, final(f)@, self.display_fragments(old(f)@.pretty, old(f)@.depth), r),
            *final(final(f).sink()) == *final(old(f).sink()),
    ;
}

impl<W: uWrite, T: uDisplay> DisplayFor<W> for T {
    open spec fn display_fragments(&self, pretty: bool, depth: nat) -> Seq<Seq<char>> {
        self.display_script(pretty, depth)
    }

    fn display_to(&self, f: &mut Formatter<'_, W>) -> (r: Result<(), W::Error>) {
        uDisplay::fmt(self, f)
    }
}

/// A value of any type with a structured form, as a formatter on `W` sees it.
pub trait DebugFor<W: uWrite> {
    /// The fragments that the value writes in its structured form.
    spec fn debug_fragments(&self, pretty: bool, depth: nat) -> Seq<Seq<char>>;

    /// Writes the value's structured form, laid out as the formatter is.
    fn debug_to(&self, f: &mut Formatter<'_, W>) -> (r: Result<(), W::Error>)
        ensures
            wrote(old(f)@, final(f)@, self.debug_fragments(old(f)@.pretty, old(f)@.depth), r),
            *final(final(f).sink()) == *final(old(f).sink()),
    ;

    /// Writes the value's structured form in the pretty layout, and puts the
    /// layout back as it was once the value is written.
    fn pretty_to(&self, f: &mut Formatter<'_, W>) -> (r: Result<(), W::Error>)
        ensures
            wrote(old(f)@, final(f)@, self.debug_fragments(true, old(f)@.depth), r),
            *final(final(f).sink()) == *final(old(f).sink()),
    ;
}

impl<W: uWrite, T: uDebug> DebugFor<W> for T {
    open spec fn debug_fragments(&self, pretty: bool, depth: nat) -> Seq<Seq<char>> {
        self.debug_script(pretty, depth)
    }

    fn debug_to(&self, f: &mut Formatter<'_, W>) -> (r: Result<(), W::Error>) {
        uDebug::fmt(self, f)
    }

    fn pretty_to(&self, f: &mut Formatter<'_, W>) -> (r: Result<(), W::Error>) {
        f.pretty(self)
    }
}

/// A value supplied for a placeholder, with the forms that it has. Values of
/// different types stand side by side in one list of arguments.
#[verifier::reject_recursive_types(W)]
pub struct Argument<'a, W: uWrite> {
    /// The value in its direct form, if it has one.
    pub display: Option<&'a dyn DisplayFor<W>>,
    /// The value in its structured form, if it has one.
    pub debug: Option<&'a dyn DebugFor<W>>,
}

impl<'a, W: uWrite> Argument<'a, W> {
    /// Whether the value has the form that a placeholder asks for.
    pub open spec fn offers(self, arg_type: FormatArgType) -> bool {
        match arg_type {
            FormatArgType::Display => self.display is Some,
            FormatArgType::Debug { .. } => self.debug is Some,
        }
    }

    /// The fragments of the value in the form that a placeholder asks for, and
    /// none if the value does not have that form. A placeholder that asks
    /// for the pretty layout gets it; any other is laid out as the formatter
    /// is.
    pub open spec fn script(self, arg_type: FormatArgType, pretty: bool, depth: nat) -> Seq<
        Seq<char>,
    > {
        match arg_type {
            FormatArgType::Display => match self.display {
                Some(value) => value.display_fragments(pretty, depth),
                None => Seq::empty(),
            },
            FormatArgType::Debug { pretty: asked } => match self.debug {
                Some(value) => value.debug_fragments(asked || pretty, depth),
                None => Seq::empty(),
            },
        }
    }

    /// A value with both forms.
    pub fn new<T: uDisplay + uDebug>(value: &'a T) -> (arg: Self)
        ensures
            arg.display matches Some(d) && forall|pretty: bool, depth: nat|
                #[trigger] d.display_fragments(pretty, depth) == value.display_script(
                    pretty,
                    depth,
                ),
            arg.debug matches Some(d) && forall|pretty: bool, depth: nat|
                #[trigger] d.debug_fragments(pretty, depth) == value.debug_script(pretty, depth),
    {
        Argument { display: Some(value), debug: Some(value) }
    }

    /// A value with its direct form only.
    pub fn display<T: uDisplay>(value: &'a T) -> (arg: Self)
        ensures
            arg.display matches Some(d) && forall|pretty: bool, depth: nat|
                #[trigger] d.display_fragments(pretty, depth) == value.display_script(
                    pretty,
                    depth,
                ),
            arg.debug is None,
    {
        Argument { display: Some(value), debug: None }
    }

    /// A value with its structured form only.
    pub fn debug<T: uDebug>(value: &'a T) -> (arg: Self)
        ensures
            arg.display is None,
            arg.debug matches Some(d) && forall|pretty: bool, depth: nat|
                #[trigger] d.debug_fragments(pretty, depth) == value.debug_script(pretty, depth),
    {
        Argument { display: None, debug: Some(value) }
    }

    /// Whether the value has the form that a placeholder asks for.
    pub fn has(&self, arg_type: &FormatArgType) -> (b: bool)
        ensures
            b == self.offers(*arg_type),
    {
        match arg_type {
            FormatArgType::Display => self.display.is_some(),
            FormatArgType::Debug { .. } => self.debug.is_some(),
        }
    }

    /// Writes the value in the form that a placeholder asks for, which the
    /// value has.
    pub(crate) fn write(&self, arg_type: &FormatArgType, f: &mut Formatter<'_, W>) -> (r: Result<
        (),
        W::Error,
    >)
        requires
            self.offers(*arg_type),
        ensures
            wrote(old(f)@, final(f)@, self.script(*arg_type, old(f)@.pretty, old(f)@.depth), r),
            *final(final(f).sink()) == *final(old(f).sink()),
    {
        match arg_type {
            FormatArgType::Display => match self.display {
                Some(value) => value.display_to(f),
                None => vstd::pervasive::unreached(),
            },
            FormatArgType::Debug { pretty: false } => match self.debug {
                Some(value) => value.debug_to(f),
                None => vstd::pervasive::unreached(),
            },
            FormatArgType::Debug { pretty: true } => match self.debug {
                Some(value) => value.pretty_to(f),
                None => vstd::pervasive::unreached(),
            },
        }
    }
}

} // verus!
