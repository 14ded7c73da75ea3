//! Laws of the writer as a whole: statements over arbitrary call sequences,
//! proved against the spec transitions of [`crate::writer`].

use vstd::prelude::*;

use crate::options::default_options;
use crate::writer::{
    spec_close_all, spec_end_document, spec_end_element, spec_start_element, spec_write_attribute,
    spec_write_attribute_raw, spec_write_comment, spec_write_declaration, spec_write_text_node,
    FrameView, State, WriterModel,
};

verus! {

/// One public operation of the writer, as the trace model sees it.
pub ghost enum Op {
    WriteDeclaration,
    WriteComment { text: Seq<u8> },
    StartElement { name: Seq<u8> },
    WriteAttribute { name: Seq<u8>, value: Seq<u8> },
    WriteAttributeRaw { name: Seq<u8>, value: Seq<u8> },
    WriteText { text: Seq<u8> },
    WriteCdataText { text: Seq<u8> },
    EndElement,
    SetPreserveWhitespaces { preserve: bool },
}

/// The writer state after one operation, per the spec transitions the
/// executable operations are proved against.
pub open spec fn apply_op(m: WriterModel, op: Op) -> WriterModel {
    match op {
        Op::WriteDeclaration => spec_write_declaration(m),
        Op::WriteComment { text } => spec_write_comment(m, text),
        Op::StartElement { name } => spec_start_element(m, name),
        Op::WriteAttribute { name, value } => spec_write_attribute(m, name, value),
        Op::WriteAttributeRaw { name, value } => spec_write_attribute_raw(m, name, value),
        Op::WriteText { text } => spec_write_text_node(m, text, false),
        Op::WriteCdataText { text } => spec_write_text_node(m, text, true),
        Op::EndElement => spec_end_element(m),
        Op::SetPreserveWhitespaces { preserve } => WriterModel {
            preserve_whitespaces: preserve,
            ..m
        },
    }
}

/// The writer state after a whole sequence of operations, first to last.
pub open spec fn apply_ops(m: WriterModel, ops: Seq<Op>) -> WriterModel
    decreases ops.len(),
{
    if ops.len() == 0 {
        m
    } else {
        apply_ops(apply_op(m, ops[0]), ops.drop_first())
    }
}

/// The number of unmatched element starts after a sequence of operations,
/// starting from `depth` already-open elements: a start opens one, a close
/// closes one unless none is open, and nothing else touches the count.
pub open spec fn unmatched_starts(depth: nat, ops: Seq<Op>) -> nat
    decreases ops.len(),
{
    if ops.len() == 0 {
        depth
    } else {
        let next = match ops[0] {
            Op::StartElement { .. } => depth + 1,
            Op::EndElement => if depth > 0 {
                (depth - 1) as nat
            } else {
                0
            },
            _ => depth,
        };
        unmatched_starts(next, ops.drop_first())
    }
}

/// Whether an operation's precondition holds in state `m`: exactly the
/// `requires` of the corresponding executable operation.
pub open spec fn op_allowed(m: WriterModel, op: Op) -> bool {
    match op {
        Op::WriteDeclaration => m.state == State::Empty,
        Op::WriteAttribute { .. } => m.state == State::Attributes,
        Op::WriteAttributeRaw { .. } => m.state == State::Attributes,
        Op::WriteText { .. } => m.state != State::Empty && m.stack.len() > 0,
        Op::WriteCdataText { .. } => m.state != State::Empty && m.stack.len() > 0,
        _ => true,
    }
}

/// The writer's structural invariant.  The stack only ever changes by a push
/// on element start and a pop on element close, so: the empty state has no
/// open elements; the attributes-open and CDATA states sit inside an open
/// element; and every open element has already received child content,
/// except the innermost one exactly while its start tag is still open.
pub open spec fn wf(m: WriterModel) -> bool {
    &&& (m.state == State::Empty ==> m.stack.len() == 0)
    &&& (m.state == State::Attributes ==> m.stack.len() > 0)
    &&& (m.state == State::CData ==> m.stack.len() > 0)
    &&& (forall|i: int|
        0 <= i < m.stack.len() ==> ((#[trigger] m.stack[i].has_children) <==> !(m.state
            == State::Attributes && i == m.stack.len() - 1)))
}

/// Every allowed operation preserves the invariant.  (A fresh writer — empty
/// state, empty stack — satisfies it at once.)
pub proof fn lemma_op_preserves_wf(m: WriterModel, op: Op)
    requires
        wf(m),
        op_allowed(m, op),
    ensures
        wf(apply_op(m, op)),
{
}

/// The invariant carries over any sequence of operations whose preconditions
/// hold along the way.
pub open spec fn ops_allowed(m: WriterModel, ops: Seq<Op>) -> bool
    decreases ops.len(),
{
    ops.len() == 0 || (op_allowed(m, ops[0]) && ops_allowed(apply_op(m, ops[0]), ops.drop_first()))
}

/// Well-formedness holds after every well-formed call sequence.
pub proof fn lemma_ops_preserve_wf(m: WriterModel, ops: Seq<Op>)
    requires
        wf(m),
        ops_allowed(m, ops),
    ensures
        wf(apply_ops(m, ops)),
    decreases ops.len(),
{
    if ops.len() > 0 {
        lemma_op_preserves_wf(m, ops[0]);
        lemma_ops_preserve_wf(apply_op(m, ops[0]), ops.drop_first());
    }
}

/// After any sequence of operations, the nesting stack is exactly as long as
/// the number of unmatched `start_element` calls: only a start pushes, only
/// a close pops, and a close on an empty stack is a no-op.
pub proof fn lemma_stack_tracks_unmatched_starts(m: WriterModel, ops: Seq<Op>)
    ensures
        apply_ops(m, ops).stack.len() == unmatched_starts(m.stack.len(), ops),
    decreases ops.len(),
{
    if ops.len() > 0 {
        let m1 = apply_op(m, ops[0]);
        match ops[0] {
            Op::StartElement { name } => {
                assert(m1.stack.len() == m.stack.len() + 1);
            },
            Op::EndElement => {},
            _ => {
                assert(m1.stack.len() == m.stack.len());
            },
        }
        lemma_stack_tracks_unmatched_starts(m1, ops.drop_first());
    }
}

/// Finalization closes every element that is still open: after the repeated
/// closes of `end_document`, the nesting stack is empty.
pub proof fn lemma_end_document_closes_all(m: WriterModel)
    ensures
        spec_close_all(m).stack.len() == 0,
    decreases m.stack.len(),
{
    if m.stack.len() > 0 {
        lemma_end_document_closes_all(spec_end_element(m));
    }
}

/// Bytes once written are final: the repeated closes of `end_document` only
/// append, so everything already written stays in place, in order.
pub proof fn lemma_close_all_only_appends(m: WriterModel)
    ensures
        spec_close_all(m).out.subrange(0, m.out.len() as int) == m.out,
        spec_close_all(m).out.len() >= m.out.len(),
    decreases m.stack.len(),
{
    if m.stack.len() > 0 {
        let m1 = spec_end_element(m);
        lemma_close_all_only_appends(m1);
        assert(m1.out.subrange(0, m.out.len() as int) =~= m.out);
        assert(spec_close_all(m).out.subrange(0, m.out.len() as int) =~= m.out);
    } else {
        assert(spec_close_all(m).out.subrange(0, m.out.len() as int) =~= m.out);
    }
}

/// An extra `end_element` beyond the matching `start_element` calls never
/// fails and does not alter the output: on an empty stack it writes nothing
/// and leaves the stack empty.
pub proof fn lemma_extra_end_element_writes_nothing(m: WriterModel)
    requires
        m.stack.len() == 0,
    ensures
        spec_end_element(m).out == m.out,
        spec_end_element(m).stack == m.stack,
{
}

/// A started and immediately closed element, on a fresh writer with the
/// default options, always contributes exactly `<name/>` and the trailing
/// line break — whatever the name and whatever was in the buffer before.
pub proof fn lemma_childless_element_self_closes(out0: Seq<u8>, name: Seq<u8>)
    ensures
        ({
            let m0 = WriterModel {
                state: State::Empty,
                stack: Seq::<FrameView>::empty(),
                preserve_whitespaces: false,
                opt: default_options(),
                out: out0,
            };
            spec_end_document(spec_end_element(spec_start_element(m0, name))) == out0 + seq![
                ('<' as u8),
            ] + name + seq![('/' as u8), ('>' as u8), ('\n' as u8)]
        }),
{
    let m0 = WriterModel {
        state: State::Empty,
        stack: Seq::<FrameView>::empty(),
        preserve_whitespaces: false,
        opt: default_options(),
        out: out0,
    };
    let m1 = spec_start_element(m0, name);
    let m2 = spec_end_element(m1);
    assert(m1.stack =~= Seq::<FrameView>::empty().push(
        FrameView { name: name, has_children: false },
    ));
    assert(m2.stack.len() == 0);
    assert(spec_close_all(m2) == m2);
    assert(spec_end_document(m2) =~= out0 + seq![('<' as u8)] + name + seq![
        ('/' as u8),
        ('>' as u8),
        ('\n' as u8),
    ]);
}

} // verus!
