//! A streaming, forward-only XML writer.
//!
//! A sequence of imperative calls (open an element, set an attribute, write
//! text, close an element, ...) is turned into a correctly nested, correctly
//! escaped XML byte stream, appended to a byte buffer that the writer owns
//! for its lifetime and hands back on finalization.  No document tree is ever
//! built, and bytes once written are final.
//!
//! Every public operation carries a contract that pins down the exact bytes
//! it appends and the exact writer state it leaves behind, stated over the
//! ghost model in [`writer::WriterModel`]; [`laws`] proves what holds of
//! whole call sequences, and [`escape`] proves the escaping laws.

pub mod escape;
pub mod laws;
pub mod options;
mod output;
pub mod writer;

pub use escape::Escape;
pub use options::{Indent, Options};
pub use writer::{contains_cdata_terminator, XmlWriter};
