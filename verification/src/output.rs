//! The output adapter: the executable write path over the byte buffer.
//!
//! Content writes are routed through the escaping engine while being
//! forwarded to the buffer, in a single linear pass with no intermediate
//! allocation: unescaped runs are flushed verbatim, substitutions are written
//! in their place.  Raw writes ([`append_bytes`]) bypass the escaping engine.

use vstd::prelude::*;

use crate::escape::{escape_bytes, escape_one, Escape};
use crate::options::{indent_bytes, indent_unit, lemma_indent_bytes_unfold_back, Indent};

verus! {

/// Appends bytes to the buffer verbatim, with no validity checks.
pub(crate) fn append_bytes(buf: &mut Vec<u8>, bytes: &[u8])
    ensures
        final(buf)@ == old(buf)@ + bytes@,
{
    buf.extend_from_slice(bytes);
    proof {
        assert(buf@ =~= old(buf)@ + bytes@);
    }
}

/// Whether `b` triggers a substitution in the given context.
fn needs_escape(b: u8, ctx: Escape, use_single_quote: bool) -> (r: bool)
    ensures
        r <==> escape_one(b, ctx, use_single_quote) != seq![b],
{
    proof {
        assert(crate::escape::amp_entity().len() == 5);
        assert(crate::escape::lt_entity().len() == 4);
        assert(crate::escape::gt_entity().len() == 4);
        assert(crate::escape::quot_entity().len() == 6);
        assert(crate::escape::apos_entity().len() == 6);
        assert(seq![b].len() == 1);
    }
    match ctx {
        Escape::Comment | Escape::CData => false,
        Escape::Text => b == '&' as u8 || b == '<' as u8 || b == '>' as u8,
        Escape::AttributeValue => b == '&' as u8 || b == '<' as u8 || b == '>' as u8 || (b == '"'
            as u8 && !use_single_quote) || (b == '\'' as u8 && use_single_quote),
    }
}

/// Appends the entity that stands for the escapable byte `b`.
fn push_entity(buf: &mut Vec<u8>, b: u8, ctx: Escape, use_single_quote: bool)
    requires
        escape_one(b, ctx, use_single_quote) != seq![b],
    ensures
        final(buf)@ == old(buf)@ + escape_one(b, ctx, use_single_quote),
{
    buf.push('&' as u8);
    if b == '&' as u8 {
        buf.push('a' as u8);
        buf.push('m' as u8);
        buf.push('p' as u8);
    } else if b == '>' as u8 {
        buf.push('g' as u8);
        buf.push('t' as u8);
    } else if b == '<' as u8 {
        buf.push('l' as u8);
        buf.push('t' as u8);
    } else if b == '"' as u8 {
        buf.push('q' as u8);
        buf.push('u' as u8);
        buf.push('o' as u8);
        buf.push('t' as u8);
    } else {
        buf.push('a' as u8);
        buf.push('p' as u8);
        buf.push('o' as u8);
        buf.push('s' as u8);
    }
    buf.push(';' as u8);
    proof {
        assert(buf@ =~= old(buf)@ + escape_one(b, ctx, use_single_quote));
    }
}

/// Forwards `s` to the buffer through the escaping engine: a single
/// byte-wise scan that flushes each unescaped run verbatim and writes a
/// substitution wherever the context's table demands one.
pub(crate) fn write_escaped(buf: &mut Vec<u8>, s: &[u8], ctx: Escape, use_single_quote: bool)
    ensures
        final(buf)@ == old(buf)@ + escape_bytes(s@, ctx, use_single_quote),
{
    let ghost orig = buf@;
    // Start of the unescaped run that still has to be flushed.
    let mut cut: usize = 0;
    let mut i: usize = 0;
    while i < s.len()
        invariant
            cut <= i <= s@.len(),
            s@.len() == s.len(),
            buf@ == orig + escape_bytes(s@.take(cut as int), ctx, use_single_quote),
            forall|j: int|
                cut <= j < i ==> escape_one(#[trigger] s@[j], ctx, use_single_quote) == seq![s@[j]],
        decreases s@.len() - i,
    {
        let b = s[i];
        if needs_escape(b, ctx, use_single_quote) {
            append_bytes(buf, &s[cut..i]);
            proof {
                crate::escape::lemma_escape_bytes_all_verbatim(
                    s@.subrange(cut as int, i as int),
                    ctx,
                    use_single_quote,
                );
                crate::escape::lemma_escape_bytes_append(
                    s@.take(cut as int),
                    s@.subrange(cut as int, i as int),
                    ctx,
                    use_single_quote,
                );
                assert(s@.take(cut as int) + s@.subrange(cut as int, i as int) =~= s@.take(
                    i as int,
                ));
                assert(buf@ =~= orig + escape_bytes(s@.take(i as int), ctx, use_single_quote));
            }
            push_entity(buf, b, ctx, use_single_quote);
            proof {
                crate::escape::lemma_escape_bytes_append(
                    s@.take(i as int),
                    seq![s@[i as int]],
                    ctx,
                    use_single_quote,
                );
                assert(seq![s@[i as int]].drop_first() =~= Seq::<u8>::empty());
                assert(escape_bytes(Seq::<u8>::empty(), ctx, use_single_quote)
                    == Seq::<u8>::empty());
                assert(escape_bytes(seq![s@[i as int]], ctx, use_single_quote) =~= escape_one(
                    s@[i as int],
                    ctx,
                    use_single_quote,
                ));
                assert(s@.take(i as int) + seq![s@[i as int]] =~= s@.take(i as int + 1));
                assert(buf@ =~= orig + escape_bytes(s@.take(i as int + 1), ctx, use_single_quote));
            }
            cut = i + 1;
        }
        i += 1;
    }
    // Flush the final run, which needs no escaping.
    append_bytes(buf, &s[cut..s.len()]);
    proof {
        crate::escape::lemma_escape_bytes_all_verbatim(
            s@.subrange(cut as int, s@.len() as int),
            ctx,
            use_single_quote,
        );
        crate::escape::lemma_escape_bytes_append(
            s@.take(cut as int),
            s@.subrange(cut as int, s@.len() as int),
            ctx,
            use_single_quote,
        );
        assert(s@.take(cut as int) + s@.subrange(cut as int, s@.len() as int) =~= s@);
        assert(buf@ =~= orig + escape_bytes(s@, ctx, use_single_quote));
    }
}

/// Writes `depth` repetitions of the indention unit, or nothing at all while
/// whitespace is being preserved or indention is disabled.
pub(crate) fn write_indent(buf: &mut Vec<u8>, depth: usize, indent: Indent, preserve: bool)
    ensures
        final(buf)@ == old(buf)@ + indent_bytes(indent, depth as nat, preserve),
{
    if matches!(indent, Indent::Off) || preserve {
        proof {
            assert(buf@ =~= old(buf)@ + indent_bytes(indent, depth as nat, preserve));
        }
        return ;
    }
    let ghost orig = buf@;
    let mut d: usize = 0;
    while d < depth
        invariant
            d <= depth,
            !preserve,
            indent != Indent::Off,
            buf@ == orig + indent_bytes(indent, d as nat, preserve),
        decreases depth - d,
    {
        let ghost before = buf@;
        match indent {
            Indent::Off => {},
            Indent::Spaces(n) => {
                let mut k: u8 = 0;
                while k < n
                    invariant
                        k <= n,
                        buf@ == before + Seq::new(k as nat, |i: int| (' ' as u8)),
                    decreases n - k,
                {
                    buf.push(' ' as u8);
                    proof {
                        assert(buf@ =~= before + Seq::new((k + 1) as nat, |i: int| (' ' as u8)));
                    }
                    k += 1;
                }
                proof {
                    assert(Seq::new(n as nat, |i: int| (' ' as u8)) =~= indent_unit(indent));
                }
            },
            Indent::Tabs => {
                buf.push('\t' as u8);
                proof {
                    assert(buf@ =~= before + indent_unit(indent));
                }
            },
        }
        proof {
            lemma_indent_bytes_unfold_back(indent, d as nat, preserve);
            assert(buf@ =~= orig + indent_bytes(indent, (d + 1) as nat, preserve));
        }
        d += 1;
    }
}

} // verus!
