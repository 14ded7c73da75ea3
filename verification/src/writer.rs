//! The writer state machine.
//!
//! [`XmlWriter`] owns the element nesting stack, the lifecycle state, the
//! document-wide options, and the output buffer it writes into.  Every public
//! operation's contract states the exact bytes it appends and the exact
//! state it leaves behind, over the ghost [`WriterModel`]; the `spec_*`
//! functions in this module are those transitions.

use vstd::prelude::*;
use vstd::string::StringSliceAdditionalSpecFns;
use vstd::string::StrSliceExecFns;

use crate::escape::{escape_bytes, Escape};
use crate::options::{indent_bytes, Indent, Options};
use crate::output;

verus! {

/// The writer lifecycle state.
#[derive(Clone, Copy, PartialEq, Eq, Structural, Debug)]
pub enum State {
    /// Nothing has been written yet; the only state in which a declaration
    /// may be written.
    Empty,
    /// The last operation completed a node; siblings or closes may follow.
    Document,
    /// The most recently started element's opening tag is still missing its
    /// `>`; the only state in which attributes may be written.
    Attributes,
    /// Inside an open CDATA section; consecutive CDATA writes to the same
    /// node are merged without re-opening the section.
    CData,
}

/// One entry of the nesting stack: an open element's name and whether it has
/// received child content yet.
struct Frame {
    name: Vec<u8>,
    has_children: bool,
}

/// The ghost image of a [`Frame`].
#[verifier::ext_equal]
pub ghost struct FrameView {
    pub name: Seq<u8>,
    pub has_children: bool,
}

impl View for Frame {
    type V = FrameView;

    closed spec fn view(&self) -> FrameView {
        FrameView { name: self.name@, has_children: self.has_children }
    }
}

/// The ghost image of a writer: its lifecycle state, the nesting stack
/// (outermost element first), the preserve-whitespace flag, the immutable
/// options, and every byte written so far.
#[verifier::ext_equal]
pub ghost struct WriterModel {
    pub state: State,
    pub stack: Seq<FrameView>,
    pub preserve_whitespaces: bool,
    pub opt: Options,
    pub out: Seq<u8>,
}

/// The active quote character.
pub open spec fn quote_byte(opt: Options) -> u8 {
    if opt.use_single_quote {
        '\'' as u8
    } else {
        '"' as u8
    }
}

/// The bytes a line break contributes: nothing while indention is disabled
/// or whitespace is being preserved.
pub open spec fn new_line_bytes(opt: Options, preserve: bool) -> Seq<u8> {
    if opt.indent != Indent::Off && !preserve {
        seq![('\n' as u8)]
    } else {
        Seq::empty()
    }
}

/// The indention written before a node at the writer's current depth.
pub open spec fn node_indent_bytes(m: WriterModel) -> Seq<u8> {
    indent_bytes(m.opt.indent, m.stack.len(), m.preserve_whitespaces)
}

/// `<!--`
pub open spec fn comment_open() -> Seq<u8> {
    seq![('<' as u8), ('!' as u8), ('-' as u8), ('-' as u8)]
}

/// `-->`
pub open spec fn comment_close() -> Seq<u8> {
    seq![('-' as u8), ('-' as u8), ('>' as u8)]
}

/// `<![CDATA[`
pub open spec fn cdata_open() -> Seq<u8> {
    seq![
        ('<' as u8),
        ('!' as u8),
        ('[' as u8),
        ('C' as u8),
        ('D' as u8),
        ('A' as u8),
        ('T' as u8),
        ('A' as u8),
        ('[' as u8),
    ]
}

/// `]]>`, the CDATA terminator, reserved inside CDATA content.
pub open spec fn cdata_end() -> Seq<u8> {
    seq![(']' as u8), (']' as u8), ('>' as u8)]
}

/// Whether the reserved CDATA terminator occurs anywhere in `s`.
pub open spec fn contains_cdata_end(s: Seq<u8>) -> bool {
    exists|i: int| 0 <= i && i + 3 <= s.len() && #[trigger] s.subrange(i, i + 3) == cdata_end()
}

/// Terminating a pending start tag: emits the missing `>` and marks the
/// innermost element as having children.  Nothing happens on an empty stack.
pub open spec fn spec_open_element(m: WriterModel) -> WriterModel {
    if m.stack.len() > 0 {
        WriterModel {
            state: State::Document,
            stack: m.stack.update(
                m.stack.len() - 1,
                FrameView { name: m.stack.last().name, has_children: true },
            ),
            out: m.out + seq![('>' as u8)],
            ..m
        }
    } else {
        m
    }
}

/// The auto-close rule shared by every node write: a still-open start tag is
/// terminated before anything further is appended.
pub open spec fn spec_auto_close(m: WriterModel) -> WriterModel {
    if m.state == State::Attributes {
        spec_open_element(m)
    } else {
        m
    }
}

/// What `write_comment` does: auto-close, then a line break and indention
/// (unless this is the very first node or whitespace is preserved), then
/// `<!--text-->` with the text passed through verbatim.
pub open spec fn spec_write_comment(m: WriterModel, text: Seq<u8>) -> WriterModel {
    let m1 = spec_auto_close(m);
    let nl = if m1.state != State::Empty {
        new_line_bytes(m1.opt, m1.preserve_whitespaces)
    } else {
        Seq::empty()
    };
    WriterModel {
        state: State::Document,
        out: m1.out + nl + node_indent_bytes(m1) + comment_open() + text + comment_close(),
        ..m1
    }
}

/// What `start_element` does: auto-close, line break and indention, then the
/// partial opening tag `<name`, and a new frame pushed for the element.
pub open spec fn spec_start_element(m: WriterModel, name: Seq<u8>) -> WriterModel {
    let m1 = spec_auto_close(m);
    let nl = if m1.state != State::Empty {
        new_line_bytes(m1.opt, m1.preserve_whitespaces)
    } else {
        Seq::empty()
    };
    WriterModel {
        state: State::Attributes,
        stack: m1.stack.push(FrameView { name: name, has_children: false }),
        out: m1.out + nl + node_indent_bytes(m1) + seq![('<' as u8)] + name,
        ..m1
    }
}

/// The bytes written before an attribute's value: a single space, or — when
/// attributes are indented — a line break, the parent element's indention,
/// and one unit of the attribute indention; then `name=` and the opening
/// quote.
pub open spec fn attr_prefix_bytes(m: WriterModel, name: Seq<u8>) -> Seq<u8> {
    let lead = if m.opt.attributes_indent == Indent::Off {
        seq![(' ' as u8)]
    } else {
        seq![('\n' as u8)] + (if m.stack.len() > 0 {
            indent_bytes(m.opt.indent, (m.stack.len() - 1) as nat, m.preserve_whitespaces)
        } else {
            Seq::empty()
        }) + indent_bytes(m.opt.attributes_indent, 1, m.preserve_whitespaces)
    };
    lead + name + seq![('=' as u8)] + seq![quote_byte(m.opt)]
}

/// What `write_attribute` does: the prefix, then the value escaped in the
/// attribute-value context, then the closing quote.
pub open spec fn spec_write_attribute(m: WriterModel, name: Seq<u8>, value: Seq<u8>) -> WriterModel {
    WriterModel {
        out: m.out + attr_prefix_bytes(m, name) + escape_bytes(
            value,
            Escape::AttributeValue,
            m.opt.use_single_quote,
        ) + seq![quote_byte(m.opt)],
        ..m
    }
}

/// What `write_attribute_raw` does: as `write_attribute`, but the value
/// bytes bypass the escaping engine.
pub open spec fn spec_write_attribute_raw(
    m: WriterModel,
    name: Seq<u8>,
    value: Seq<u8>,
) -> WriterModel {
    WriterModel { out: m.out + attr_prefix_bytes(m, name) + value + seq![quote_byte(m.opt)], ..m }
}

/// What `write_declaration` does: `<?xml`, the three fixed pseudo-attributes
/// quoted with the configured quote character, and `?>`.
pub open spec fn spec_write_declaration(m: WriterModel) -> WriterModel {
    let decl = seq![('<' as u8), ('?' as u8), ('x' as u8), ('m' as u8), ('l' as u8)]
        + attr_prefix_bytes(m, "version".spec_bytes()) + seq![('1' as u8), ('.' as u8), ('0' as u8)]
        + seq![quote_byte(m.opt)] + attr_prefix_bytes(m, "encoding".spec_bytes()) + seq![
        ('U' as u8),
        ('T' as u8),
        ('F' as u8),
        ('-' as u8),
        ('8' as u8),
    ] + seq![quote_byte(m.opt)] + attr_prefix_bytes(m, "standalone".spec_bytes()) + seq![
        ('n' as u8),
        ('o' as u8),
    ] + seq![quote_byte(m.opt)] + seq![('?' as u8), ('>' as u8)];
    WriterModel { state: State::Document, out: m.out + decl, ..m }
}

/// What `write_text` and `write_cdata_text` do: auto-close, `<![CDATA[` if a
/// CDATA section has to be opened, a line break and indention, then the text
/// — escaped in the text context, or verbatim inside CDATA.
pub open spec fn spec_write_text_node(m: WriterModel, text: Seq<u8>, cdata: bool) -> WriterModel {
    let m1 = spec_auto_close(m);
    let open = if cdata && m1.state != State::CData {
        cdata_open()
    } else {
        Seq::empty()
    };
    let nl = if m1.state != State::Empty {
        new_line_bytes(m1.opt, m1.preserve_whitespaces)
    } else {
        Seq::empty()
    };
    let body = if cdata {
        text
    } else {
        escape_bytes(text, Escape::Text, m1.opt.use_single_quote)
    };
    WriterModel {
        state: if cdata {
            State::CData
        } else {
            State::Document
        },
        out: m1.out + open + nl + node_indent_bytes(m1) + body,
        ..m1
    }
}

/// What `end_element` does.  On an empty stack: nothing at all.  Otherwise
/// the innermost frame is popped and the element is closed: an element with
/// children gets a line break, indention at its own depth, `]]>` if a CDATA
/// section is still open, and `</name>`; a childless element gets `/>`, or —
/// with self-closing disabled — the terminating `>` of its start tag
/// followed by the explicit close.
pub open spec fn spec_end_element(m: WriterModel) -> WriterModel {
    if m.stack.len() == 0 {
        WriterModel { state: State::Document, ..m }
    } else {
        let frame = m.stack.last();
        let popped = m.stack.drop_last();
        let close_full = new_line_bytes(m.opt, m.preserve_whitespaces) + indent_bytes(
            m.opt.indent,
            popped.len(),
            m.preserve_whitespaces,
        ) + (if m.state == State::CData {
            cdata_end()
        } else {
            Seq::empty()
        }) + seq![('<' as u8), ('/' as u8)] + frame.name + seq![('>' as u8)];
        let suffix = if frame.has_children {
            close_full
        } else if m.opt.enable_self_closing {
            seq![('/' as u8), ('>' as u8)]
        } else {
            seq![('>' as u8)] + close_full
        };
        WriterModel { state: State::Document, stack: popped, out: m.out + suffix, ..m }
    }
}

/// Repeated `end_element` until the stack is empty, as `end_document` does.
pub open spec fn spec_close_all(m: WriterModel) -> WriterModel
    decreases m.stack.len(),
{
    if m.stack.len() == 0 {
        m
    } else {
        spec_close_all(spec_end_element(m))
    }
}

/// The full byte stream `end_document` hands back: everything written so
/// far, every still-open element closed, and the trailing line break.
pub open spec fn spec_end_document(m: WriterModel) -> Seq<u8> {
    let m1 = spec_close_all(m);
    m1.out + new_line_bytes(m1.opt, m1.preserve_whitespaces)
}

/// Whether `text` holds the reserved CDATA terminator `]]>`, which
/// `write_cdata_text` refuses.
pub fn contains_cdata_terminator(text: &str) -> (r: bool)
    ensures
        r == contains_cdata_end(text.spec_bytes()),
{
    let s = text.as_bytes();
    if s.len() < 3 {
        proof {
            if contains_cdata_end(s@) {
                let j = choose|j: int|
                    0 <= j && j + 3 <= s@.len() && #[trigger] s@.subrange(j, j + 3) == cdata_end();
            }
        }
        return false;
    }
    let mut i: usize = 0;
    while i <= s.len() - 3
        invariant
            s@ == text.spec_bytes(),
            s@.len() == s.len() >= 3,
            i <= s.len() - 2,
            forall|j: int| 0 <= j < i ==> #[trigger] s@.subrange(j, j + 3) != cdata_end(),
        decreases s.len() - i,
    {
        if s[i] == ']' as u8 && s[i + 1] == ']' as u8 && s[i + 2] == '>' as u8 {
            proof {
                assert(s@.subrange(i as int, i as int + 3) =~= cdata_end());
                assert(0 <= i as int && i as int + 3 <= s@.len() && s@.subrange(
                    i as int,
                    i as int + 3,
                ) == cdata_end());
                assert(contains_cdata_end(s@));
            }
            return true;
        }
        proof {
            let sub = s@.subrange(i as int, i as int + 3);
            assert(sub[0] == s@[i as int] && sub[1] == s@[i as int + 1] && sub[2] == s@[i as int
                + 2]);
        }
        i += 1;
    }
    proof {
        if contains_cdata_end(s@) {
            let j = choose|j: int|
                0 <= j && j + 3 <= s@.len() && #[trigger] s@.subrange(j, j + 3) == cdata_end();
            assert(j < i);
        }
    }
    false
}

/// An XML writer: a forward-only serializer that appends a correctly nested,
/// correctly escaped XML byte stream to the buffer it owns, and hands the
/// buffer back on finalization.
pub struct XmlWriter {
    buf: Vec<u8>,
    state: State,
    preserve_whitespaces: bool,
    depth_stack: Vec<Frame>,
    opt: Options,
}

impl View for XmlWriter {
    type V = WriterModel;

    closed spec fn view(&self) -> WriterModel {
        WriterModel {
            state: self.state,
            stack: Seq::new(self.depth_stack@.len(), |i: int| self.depth_stack@[i]@),
            preserve_whitespaces: self.preserve_whitespaces,
            opt: self.opt,
            out: self.buf@,
        }
    }
}

impl XmlWriter {
    /// Creates a new writer that appends to `writer`, which it owns until
    /// `end_document` hands it back.
    pub fn new(writer: Vec<u8>, opt: Options) -> (w: XmlWriter)
        ensures
            w@ == (WriterModel {
                state: State::Empty,
                stack: Seq::<FrameView>::empty(),
                preserve_whitespaces: false,
                opt: opt,
                out: writer@,
            }),
    {
        let w = XmlWriter {
            buf: writer,
            state: State::Empty,
            preserve_whitespaces: false,
            depth_stack: Vec::new(),
            opt,
        };
        proof {
            assert(w@.stack =~= Seq::<FrameView>::empty());
            assert(w@ =~= (WriterModel {
                state: State::Empty,
                stack: Seq::<FrameView>::empty(),
                preserve_whitespaces: false,
                opt: opt,
                out: w.buf@,
            }));
        }
        w
    }

    /// Sets the preserve-whitespaces flag; while set, line breaks and
    /// indention are suppressed for every newly written node.
    pub fn set_preserve_whitespaces(&mut self, preserve: bool)
        ensures
            final(self)@ == (WriterModel { preserve_whitespaces: preserve, ..old(self)@ }),
    {
        self.preserve_whitespaces = preserve;
        proof {
            assert(self@ =~= (WriterModel { preserve_whitespaces: preserve, ..old(self)@ }));
        }
    }

    /// Writes the line break that separates nodes, if indention is on and
    /// whitespace is not being preserved.
    fn write_new_line(&mut self)
        ensures
            final(self)@ == (WriterModel {
                out: old(self)@.out + new_line_bytes(old(self)@.opt, old(self)@.preserve_whitespaces),
                ..old(self)@
            }),
    {
        if !matches!(self.opt.indent, Indent::Off) && !self.preserve_whitespaces {
            self.buf.push('\n' as u8);
        }
        proof {
            assert(self@ =~= (WriterModel {
                out: old(self)@.out + new_line_bytes(old(self)@.opt, old(self)@.preserve_whitespaces),
                ..old(self)@
            }));
        }
    }

    /// Writes the indention for a node at the current depth.
    fn write_node_indent(&mut self)
        ensures
            final(self)@ == (WriterModel {
                out: old(self)@.out + node_indent_bytes(old(self)@),
                ..old(self)@
            }),
    {
        let depth = self.depth_stack.len();
        output::write_indent(&mut self.buf, depth, self.opt.indent, self.preserve_whitespaces);
        proof {
            assert(self@ =~= (WriterModel {
                out: old(self)@.out + node_indent_bytes(old(self)@),
                ..old(self)@
            }));
        }
    }

    /// The configured quote character.
    fn get_quote_char(&self) -> (r: u8)
        ensures
            r == quote_byte(self@.opt),
    {
        if self.opt.use_single_quote {
            '\'' as u8
        } else {
            '"' as u8
        }
    }

    /// Writes the configured quote character, unescaped.
    fn write_quote(&mut self)
        ensures
            final(self)@ == (WriterModel {
                out: old(self)@.out + seq![quote_byte(old(self)@.opt)],
                ..old(self)@
            }),
    {
        let q = self.get_quote_char();
        self.buf.push(q);
        proof {
            assert(self@ =~= (WriterModel {
                out: old(self)@.out + seq![quote_byte(old(self)@.opt)],
                ..old(self)@
            }));
        }
    }

    /// Terminates the pending start tag with `>`, marking the innermost
    /// element as having children.
    fn write_open_element(&mut self)
        ensures
            final(self)@ == spec_open_element(old(self)@),
    {
        if self.depth_stack.len() > 0 {
            if let Some(mut frame) = self.depth_stack.pop() {
                frame.has_children = true;
                self.depth_stack.push(frame);
            }
            self.buf.push('>' as u8);
            self.state = State::Document;
            proof {
                assert(self@.stack =~= old(self)@.stack.update(
                    old(self)@.stack.len() - 1,
                    FrameView { name: old(self)@.stack.last().name, has_children: true },
                ));
                assert(self@ =~= spec_open_element(old(self)@));
            }
        } else {
            proof {
                assert(self@ =~= spec_open_element(old(self)@));
            }
        }
    }

    /// Writes what comes before an attribute's value: the separating space
    /// (or line break and indention), the attribute name, `=`, and the
    /// opening quote.
    fn write_attribute_prefix(&mut self, name: &str)
        ensures
            final(self)@ == (WriterModel {
                out: old(self)@.out + attr_prefix_bytes(old(self)@, name.spec_bytes()),
                ..old(self)@
            }),
    {
        if matches!(self.opt.attributes_indent, Indent::Off) {
            self.buf.push(' ' as u8);
        } else {
            self.buf.push('\n' as u8);
            let depth = self.depth_stack.len();
            if depth > 0 {
                output::write_indent(
                    &mut self.buf,
                    depth - 1,
                    self.opt.indent,
                    self.preserve_whitespaces,
                );
            }
            output::write_indent(
                &mut self.buf,
                1,
                self.opt.attributes_indent,
                self.preserve_whitespaces,
            );
        }
        output::append_bytes(&mut self.buf, name.as_bytes());
        self.buf.push('=' as u8);
        self.write_quote();
        proof {
            assert(self@ =~= (WriterModel {
                out: old(self)@.out + attr_prefix_bytes(old(self)@, name.spec_bytes()),
                ..old(self)@
            }));
        }
    }

    /// Writes an attribute.  Any occurrence of `&`, `<`, `>` or the active
    /// quote character in the value is escaped.
    ///
    /// May only be called while the current element's start tag is still
    /// open, that is after `start_element()` and before any child content.
    pub fn write_attribute(&mut self, name: &str, value: &str)
        requires
            old(self)@.state == State::Attributes,
        ensures
            final(self)@ == spec_write_attribute(
                old(self)@,
                name.spec_bytes(),
                value.spec_bytes(),
            ),
    {
        self.write_attribute_fmt(name, value);
    }

    /// Writes an attribute from an already-rendered value.  Any occurrence
    /// of `&`, `<`, `>` or the active quote character in the value is
    /// escaped.
    ///
    /// May only be called while the current element's start tag is still
    /// open, that is after `start_element()` and before any child content.
    pub fn write_attribute_fmt(&mut self, name: &str, value: &str)
        requires
            old(self)@.state == State::Attributes,
        ensures
            final(self)@ == spec_write_attribute(
                old(self)@,
                name.spec_bytes(),
                value.spec_bytes(),
            ),
    {
        self.write_attribute_prefix(name);
        output::write_escaped(
            &mut self.buf,
            value.as_bytes(),
            Escape::AttributeValue,
            self.opt.use_single_quote,
        );
        self.write_quote();
        proof {
            assert(self@ =~= spec_write_attribute(
                old(self)@,
                name.spec_bytes(),
                value.spec_bytes(),
            ));
        }
    }

    /// Writes a raw attribute value, bypassing the escaping engine.
    ///
    /// **Warning:** this is an escape hatch for pre-validated content; it
    /// performs no validity checks whatsoever on the written bytes.
    ///
    /// May only be called while the current element's start tag is still
    /// open, that is after `start_element()` and before any child content.
    pub fn write_attribute_raw(&mut self, name: &str, value: &[u8])
        requires
            old(self)@.state == State::Attributes,
        ensures
            final(self)@ == spec_write_attribute_raw(old(self)@, name.spec_bytes(), value@),
    {
        self.write_attribute_prefix(name);
        output::append_bytes(&mut self.buf, value);
        self.write_quote();
        proof {
            assert(self@ =~= spec_write_attribute_raw(old(self)@, name.spec_bytes(), value@));
        }
    }

    /// Writes the XML declaration
    /// `<?xml version="1.0" encoding="UTF-8" standalone="no"?>`,
    /// quoted with the configured quote character.
    ///
    /// May only be called before anything else has been written.
    #[verifier::rlimit(50)]
    pub fn write_declaration(&mut self)
        requires
            old(self)@.state == State::Empty,
        ensures
            final(self)@ == spec_write_declaration(old(self)@),
    {
        // Pretend that an element is open while the pseudo-attributes are
        // written.
        self.state = State::Attributes;
        self.buf.push('<' as u8);
        self.buf.push('?' as u8);
        self.buf.push('x' as u8);
        self.buf.push('m' as u8);
        self.buf.push('l' as u8);
        self.write_attribute_prefix("version");
        self.buf.push('1' as u8);
        self.buf.push('.' as u8);
        self.buf.push('0' as u8);
        self.write_quote();
        self.write_attribute_prefix("encoding");
        self.buf.push('U' as u8);
        self.buf.push('T' as u8);
        self.buf.push('F' as u8);
        self.buf.push('-' as u8);
        self.buf.push('8' as u8);
        self.write_quote();
        self.write_attribute_prefix("standalone");
        self.buf.push('n' as u8);
        self.buf.push('o' as u8);
        self.write_quote();
        self.buf.push('?' as u8);
        self.buf.push('>' as u8);
        self.state = State::Document;
        proof {
            assert(self@ =~= spec_write_declaration(old(self)@));
        }
    }

    /// Writes a comment.  The text is passed through verbatim: even a double
    /// hyphen is not escaped.
    pub fn write_comment(&mut self, text: &str)
        ensures
            final(self)@ == spec_write_comment(old(self)@, text.spec_bytes()),
    {
        self.write_comment_fmt(text);
    }

    /// Writes a comment from an already-rendered value.  The text is passed
    /// through verbatim: even a double hyphen is not escaped.
    pub fn write_comment_fmt(&mut self, text: &str)
        ensures
            final(self)@ == spec_write_comment(old(self)@, text.spec_bytes()),
    {
        if self.state == State::Attributes {
            self.write_open_element();
        }
        if self.state != State::Empty {
            self.write_new_line();
        }
        self.write_node_indent();
        self.buf.push('<' as u8);
        self.buf.push('!' as u8);
        self.buf.push('-' as u8);
        self.buf.push('-' as u8);
        output::write_escaped(
            &mut self.buf,
            text.as_bytes(),
            Escape::Comment,
            self.opt.use_single_quote,
        );
        self.buf.push('-' as u8);
        self.buf.push('-' as u8);
        self.buf.push('>' as u8);
        self.state = State::Document;
        proof {
            crate::escape::lemma_raw_context_identity(
                text.spec_bytes(),
                Escape::Comment,
                old(self)@.opt.use_single_quote,
            );
            assert(self@ =~= spec_write_comment(old(self)@, text.spec_bytes()));
        }
    }

    /// Starts a new element: writes the partial opening tag `<name` and
    /// pushes a frame for it.  The tag is terminated automatically as soon
    /// as child content arrives, or when the element is closed.
    pub fn start_element(&mut self, name: &str)
        ensures
            final(self)@ == spec_start_element(old(self)@, name.spec_bytes()),
    {
        if self.state == State::Attributes {
            self.write_open_element();
        }
        let ghost m1 = self@;
        if self.state != State::Empty {
            self.write_new_line();
        }
        if !self.preserve_whitespaces {
            self.write_node_indent();
        }
        self.buf.push('<' as u8);
        output::append_bytes(&mut self.buf, name.as_bytes());
        self.depth_stack.push(Frame { name: name.as_bytes_vec(), has_children: false });
        self.state = State::Attributes;
        proof {
            assert(self@.stack =~= m1.stack.push(
                FrameView { name: name.spec_bytes(), has_children: false },
            ));
            assert(self@ =~= spec_start_element(old(self)@, name.spec_bytes()));
        }
    }

    /// Writes a text node, escaping `&`, `<` and `>`.
    ///
    /// May only be called inside an element.
    pub fn write_text(&mut self, text: &str)
        requires
            old(self)@.state != State::Empty,
            old(self)@.stack.len() > 0,
        ensures
            final(self)@ == spec_write_text_node(old(self)@, text.spec_bytes(), false),
    {
        self.write_text_fmt(text);
    }

    /// Writes a text node from an already-rendered value, escaping `&`, `<`
    /// and `>`.
    ///
    /// May only be called inside an element.
    pub fn write_text_fmt(&mut self, text: &str)
        requires
            old(self)@.state != State::Empty,
            old(self)@.stack.len() > 0,
        ensures
            final(self)@ == spec_write_text_node(old(self)@, text.spec_bytes(), false),
    {
        self.write_text_fmt_impl(text, false);
    }

    /// Writes text inside a `<![CDATA[ ... ]]>` section, verbatim.  A
    /// consecutive CDATA write to the same node appends to the open section
    /// instead of opening a new one.
    ///
    /// May only be called inside an element, and the text must not contain
    /// the reserved terminator `]]>` (see [`contains_cdata_terminator`]).
    pub fn write_cdata_text(&mut self, text: &str)
        requires
            old(self)@.state != State::Empty,
            old(self)@.stack.len() > 0,
            !contains_cdata_end(text.spec_bytes()),
        ensures
            final(self)@ == spec_write_text_node(old(self)@, text.spec_bytes(), true),
    {
        self.write_text_fmt_impl(text, true);
    }

    fn write_text_fmt_impl(&mut self, text: &str, cdata: bool)
        requires
            old(self)@.state != State::Empty,
            old(self)@.stack.len() > 0,
        ensures
            final(self)@ == spec_write_text_node(old(self)@, text.spec_bytes(), cdata),
    {
        if self.state == State::Attributes {
            self.write_open_element();
        }
        if cdata && !matches!(self.state, State::CData) {
            self.buf.push('<' as u8);
            self.buf.push('!' as u8);
            self.buf.push('[' as u8);
            self.buf.push('C' as u8);
            self.buf.push('D' as u8);
            self.buf.push('A' as u8);
            self.buf.push('T' as u8);
            self.buf.push('A' as u8);
            self.buf.push('[' as u8);
        }
        if self.state != State::Empty {
            self.write_new_line();
        }
        self.write_node_indent();
        output::write_escaped(
            &mut self.buf,
            text.as_bytes(),
            if cdata {
                Escape::CData
            } else {
                Escape::Text
            },
            self.opt.use_single_quote,
        );
        self.state = if cdata {
            State::CData
        } else {
            State::Document
        };
        proof {
            if cdata {
                crate::escape::lemma_raw_context_identity(
                    text.spec_bytes(),
                    Escape::CData,
                    old(self)@.opt.use_single_quote,
                );
            }
            assert(self@ =~= spec_write_text_node(old(self)@, text.spec_bytes(), cdata));
        }
    }

    /// Closes the innermost open element.  A childless element self-closes
    /// (or, with self-closing disabled, is written as an explicit open/close
    /// pair); an element with children gets its closing tag, after the open
    /// CDATA section is terminated if there is one.
    ///
    /// Calling this with no element open is a no-op by design, so that
    /// callers may close defensively: it never fails and writes nothing.
    #[verifier::rlimit(50)]
    pub fn end_element(&mut self)
        ensures
            final(self)@ == spec_end_element(old(self)@),
    {
        let popped = self.depth_stack.pop();
        if let Some(frame) = popped {
            proof {
                assert(self@.stack =~= old(self)@.stack.drop_last());
                assert(frame@ == old(self)@.stack.last());
            }
            if frame.has_children || !self.opt.enable_self_closing {
                if !frame.has_children {
                    // Terminate the still-open start tag before closing.
                    self.buf.push('>' as u8);
                }
                if !self.preserve_whitespaces {
                    self.write_new_line();
                    self.write_node_indent();
                }
                if self.state == State::CData {
                    self.buf.push(']' as u8);
                    self.buf.push(']' as u8);
                    self.buf.push('>' as u8);
                }
                self.buf.push('<' as u8);
                self.buf.push('/' as u8);
                output::append_bytes(&mut self.buf, frame.name.as_slice());
                self.buf.push('>' as u8);
            } else {
                self.buf.push('/' as u8);
                self.buf.push('>' as u8);
            }
        }
        self.state = State::Document;
        proof {
            assert(self@ =~= spec_end_element(old(self)@));
        }
    }

    /// Closes every still-open element, writes the trailing line break, and
    /// hands the byte buffer back.  The writer is consumed: finalization is
    /// the single consuming operation.
    pub fn end_document(self) -> (r: Vec<u8>)
        ensures
            r@ == spec_end_document(self@),
    {
        let ghost m0 = self@;
        let mut this = self;
        while this.depth_stack.len() > 0
            invariant
                spec_close_all(this@) == spec_close_all(m0),
            decreases this.depth_stack@.len(),
        {
            this.end_element();
        }
        proof {
            assert(this@.stack.len() == 0);
            assert(spec_close_all(this@) == this@);
        }
        this.write_new_line();
        proof {
            assert(this.buf@ == spec_end_document(m0));
        }
        this.buf
    }
}

} // verus!
