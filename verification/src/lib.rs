//! A small text formatter for programs without an allocator.
//!
//! Values say how they render through two capabilities, [`uDisplay`] and
//! [`uDebug`]; a [`Formatter`] carries what they write to a destination, a
//! [`uWrite`]. Records, tuples, lists, sets and mappings are written with the
//! builders of [`helpers`]; templates are compiled by [`format_str`] and
//! rendered by [`render`] with a list of [`Argument`]s, which may be of
//! different types; integers and addresses are converted to text in buffers
//! of fixed size by [`decimal`] and [`impls::ptr`].
//!
//! Every function comes with a contract over the fragments that it hands to
//! the destination, in order. A rendering that fails has stopped at the write
//! that the destination refused.

pub mod argument;
pub mod decimal;
pub mod format_str;
pub mod formatter;
pub mod helpers;
pub mod impls;
pub mod render;
pub mod write;

pub use argument::Argument;
pub use format_str::{FormatArgType, Piece, TemplateError};
pub use formatter::{uDebug, uDisplay, Formatter};
pub use helpers::debug_list::DebugList;
pub use helpers::debug_map::DebugMap;
pub use helpers::debug_set::DebugSet;
pub use helpers::debug_struct::DebugStruct;
pub use helpers::debug_tuple::DebugTuple;
pub use render::{uformat, uwrite, uwriteln, FormatError};
pub use write::uWrite;
