//! Writer configuration and the indentation engine.
//!
//! Indentation is a pure function from a nesting depth and an indent style to
//! a sequence of whitespace bytes; [`indent_bytes`] is that function, and the
//! executable side lives in [`crate::output::write_indent`].

use vstd::prelude::*;

verus! {

/// An XML node indention style.
#[derive(Clone, Copy, PartialEq, Eq, Structural, Debug)]
pub enum Indent {
    /// Disable indention and new lines.
    Off,
    /// Indent with spaces. Preferred range is 0..4.
    Spaces(u8),
    /// Indent with tabs.
    Tabs,
}

/// XML writing options, immutable for the writer's lifetime.
#[derive(Clone, Copy, Debug)]
pub struct Options {
    /// Use single quote marks instead of double quote.
    pub use_single_quote: bool,
    /// Indention of element nodes.
    pub indent: Indent,
    /// Indention of attributes, independent of `indent`.  When it is not
    /// `Indent::Off`, every attribute starts on a line of its own, one
    /// level deeper than the element that carries it.
    pub attributes_indent: Indent,
    /// Emit `<tag/>` for a childless element.  When disabled, a childless
    /// element is rendered as an explicit open/close pair instead, for
    /// output dialects that forbid the self-closing syntax.
    pub enable_self_closing: bool,
}

/// The configuration `Options::default()` returns: double quotes, elements
/// indented by four spaces, attributes kept on the element's line, and
/// self-closing tags enabled.
pub open spec fn default_options() -> Options {
    Options {
        use_single_quote: false,
        indent: Indent::Spaces(4),
        attributes_indent: Indent::Off,
        enable_self_closing: true,
    }
}

impl Default for Options {
    fn default() -> (r: Self)
        ensures
            r == default_options(),
    {
        Options {
            use_single_quote: false,
            indent: Indent::Spaces(4),
            attributes_indent: Indent::Off,
            enable_self_closing: true,
        }
    }
}

/// The whitespace one nesting level contributes.
pub open spec fn indent_unit(indent: Indent) -> Seq<u8> {
    match indent {
        Indent::Off => Seq::empty(),
        Indent::Spaces(n) => Seq::new(n as nat, |i: int| (' ' as u8)),
        Indent::Tabs => seq![('\t' as u8)],
    }
}

/// The whitespace written before a node at nesting depth `depth`: `depth`
/// repetitions of the indention unit, or nothing at all while whitespace is
/// being preserved or indention is disabled.
pub open spec fn indent_bytes(indent: Indent, depth: nat, preserve: bool) -> Seq<u8>
    decreases depth,
{
    if preserve || indent == Indent::Off || depth == 0 {
        Seq::empty()
    } else {
        indent_unit(indent) + indent_bytes(indent, (depth - 1) as nat, preserve)
    }
}

/// One more nesting level appends one more unit; since every level
/// contributes the same unit, it may be added at the back.
pub proof fn lemma_indent_bytes_unfold_back(indent: Indent, depth: nat, preserve: bool)
    requires
        !preserve,
        indent != Indent::Off,
    ensures
        indent_bytes(indent, depth + 1, preserve) == indent_bytes(indent, depth, preserve)
            + indent_unit(indent),
    decreases depth,
{
    if depth == 0 {
        assert(indent_bytes(indent, 0, preserve) == Seq::<u8>::empty());
        assert(indent_bytes(indent, 1, preserve) == indent_unit(indent) + indent_bytes(
            indent,
            0,
            preserve,
        ));
        assert(indent_unit(indent) + Seq::<u8>::empty() =~= Seq::<u8>::empty() + indent_unit(
            indent,
        ));
    } else {
        lemma_indent_bytes_unfold_back(indent, (depth - 1) as nat, preserve);
        assert(indent_bytes(indent, depth + 1, preserve) =~= indent_bytes(indent, depth, preserve)
            + indent_unit(indent));
    }
}

} // verus!
