//! The escaping engine.
//!
//! Escaping is a pure, context-dependent transform of a text fragment into an
//! escaped byte stream.  Substitution triggers are single bytes below 0x80;
//! continuation bytes of multi-byte UTF-8 sequences always have the high bit
//! set, so byte-wise scanning never splits a codepoint.
//!
//! [`escape_bytes`] is the transform itself; [`unescape_bytes`] is the
//! decoder it round-trips with (see [`lemma_escape_round_trip`]).

use vstd::prelude::*;

verus! {

/// The semantic category governing which bytes are substituted during a
/// content write.  It is a one-shot value scoped to a single write, threaded
/// explicitly through the write path.
#[derive(Clone, Copy, PartialEq, Eq, Structural, Debug)]
pub enum Escape {
    /// Comment content: passed through verbatim, even a double hyphen.
    Comment,
    /// An attribute value: `&`, `<`, `>` and the active quote character.
    AttributeValue,
    /// A text node: `&`, `<`, `>`.
    Text,
    /// CDATA content: passed through verbatim.
    CData,
}

/// The escaped form of `&`.
pub open spec fn amp_entity() -> Seq<u8> {
    seq![('&' as u8), ('a' as u8), ('m' as u8), ('p' as u8), (';' as u8)]
}

/// The escaped form of `<`.
pub open spec fn lt_entity() -> Seq<u8> {
    seq![('&' as u8), ('l' as u8), ('t' as u8), (';' as u8)]
}

/// The escaped form of `>`.
pub open spec fn gt_entity() -> Seq<u8> {
    seq![('&' as u8), ('g' as u8), ('t' as u8), (';' as u8)]
}

/// The escaped form of `"`.
pub open spec fn quot_entity() -> Seq<u8> {
    seq![('&' as u8), ('q' as u8), ('u' as u8), ('o' as u8), ('t' as u8), (';' as u8)]
}

/// The escaped form of `'`.
pub open spec fn apos_entity() -> Seq<u8> {
    seq![('&' as u8), ('a' as u8), ('p' as u8), ('o' as u8), ('s' as u8), (';' as u8)]
}

/// Whether the context passes bytes through without any substitution.
pub open spec fn is_raw_context(ctx: Escape) -> bool {
    ctx == Escape::Comment || ctx == Escape::CData
}

/// What one input byte becomes: either itself, or the entity that stands for
/// it in the given context.  Quote characters are substituted only in
/// attribute values, and only the quote character that is active for the
/// document (`'` under single-quote style, `"` under double-quote style).
pub open spec fn escape_one(b: u8, ctx: Escape, use_single_quote: bool) -> Seq<u8> {
    if is_raw_context(ctx) {
        seq![b]
    } else if b == '&' as u8 {
        amp_entity()
    } else if b == '>' as u8 {
        gt_entity()
    } else if b == '<' as u8 {
        lt_entity()
    } else if b == '"' as u8 && ctx == Escape::AttributeValue && !use_single_quote {
        quot_entity()
    } else if b == '\'' as u8 && ctx == Escape::AttributeValue && use_single_quote {
        apos_entity()
    } else {
        seq![b]
    }
}

/// The escaped form of a whole fragment: each byte replaced by
/// [`escape_one`], in order.
pub open spec fn escape_bytes(s: Seq<u8>, ctx: Escape, use_single_quote: bool) -> Seq<u8>
    decreases s.len(),
{
    if s.len() == 0 {
        Seq::empty()
    } else {
        escape_one(s[0], ctx, use_single_quote) + escape_bytes(s.drop_first(), ctx, use_single_quote)
    }
}

/// Escaping distributes over concatenation.
pub proof fn lemma_escape_bytes_append(a: Seq<u8>, b: Seq<u8>, ctx: Escape, use_single_quote: bool)
    ensures
        escape_bytes(a + b, ctx, use_single_quote) == escape_bytes(a, ctx, use_single_quote)
            + escape_bytes(b, ctx, use_single_quote),
    decreases a.len(),
{
    if a.len() == 0 {
        assert(a + b =~= b);
        assert(escape_bytes(a, ctx, use_single_quote) + escape_bytes(b, ctx, use_single_quote)
            =~= escape_bytes(b, ctx, use_single_quote));
    } else {
        assert((a + b).drop_first() =~= a.drop_first() + b);
        lemma_escape_bytes_append(a.drop_first(), b, ctx, use_single_quote);
        assert(escape_bytes(a + b, ctx, use_single_quote) =~= escape_bytes(
            a,
            ctx,
            use_single_quote,
        ) + escape_bytes(b, ctx, use_single_quote));
    }
}

/// A fragment in which no byte triggers a substitution is left verbatim.
pub proof fn lemma_escape_bytes_all_verbatim(s: Seq<u8>, ctx: Escape, use_single_quote: bool)
    requires
        forall|j: int|
            0 <= j < s.len() ==> escape_one(#[trigger] s[j], ctx, use_single_quote) == seq![s[j]],
    ensures
        escape_bytes(s, ctx, use_single_quote) == s,
    decreases s.len(),
{
    if s.len() == 0 {
        assert(escape_bytes(s, ctx, use_single_quote) =~= s);
    } else {
        lemma_escape_bytes_all_verbatim(s.drop_first(), ctx, use_single_quote);
        assert(escape_bytes(s, ctx, use_single_quote) =~= seq![s[0]] + s.drop_first());
        assert(seq![s[0]] + s.drop_first() =~= s);
    }
}

/// Comment and CDATA contexts intentionally perform no escaping: content is
/// passed through verbatim.
pub proof fn lemma_raw_context_identity(s: Seq<u8>, ctx: Escape, use_single_quote: bool)
    requires
        is_raw_context(ctx),
    ensures
        escape_bytes(s, ctx, use_single_quote) == s,
{
    lemma_escape_bytes_all_verbatim(s, ctx, use_single_quote);
}

/// Attribute values substitute `'` only under single-quote style and `"`
/// only under double-quote style; the non-active quote character is never
/// substituted.
pub proof fn lemma_quote_escaping_follows_quote_style(use_single_quote: bool)
    ensures
        escape_one('\'' as u8, Escape::AttributeValue, use_single_quote) == (
        if use_single_quote {
            apos_entity()
        } else {
            seq![('\'' as u8)]
        }),
        escape_one('"' as u8, Escape::AttributeValue, use_single_quote) == (
        if use_single_quote {
            seq![('"' as u8)]
        } else {
            quot_entity()
        }),
{
}

/// The decoder that inverts [`escape_bytes`]: each recognised entity becomes
/// the byte it stands for, and every other byte is kept.
pub open spec fn unescape_bytes(s: Seq<u8>) -> Seq<u8>
    decreases s.len(),
{
    if s.len() == 0 {
        Seq::empty()
    } else if s.len() >= 5 && s.subrange(0, 5) == amp_entity() {
        seq![('&' as u8)] + unescape_bytes(s.skip(5))
    } else if s.len() >= 4 && s.subrange(0, 4) == lt_entity() {
        seq![('<' as u8)] + unescape_bytes(s.skip(4))
    } else if s.len() >= 4 && s.subrange(0, 4) == gt_entity() {
        seq![('>' as u8)] + unescape_bytes(s.skip(4))
    } else if s.len() >= 6 && s.subrange(0, 6) == quot_entity() {
        seq![('"' as u8)] + unescape_bytes(s.skip(6))
    } else if s.len() >= 6 && s.subrange(0, 6) == apos_entity() {
        seq![('\'' as u8)] + unescape_bytes(s.skip(6))
    } else {
        seq![s[0]] + unescape_bytes(s.drop_first())
    }
}

/// Decoding one escaped byte in front of an arbitrary tail recovers that
/// byte: the entities are unambiguous, and a verbatim byte is never `&`, so
/// it can never fake an entity.
proof fn lemma_unescape_one(b: u8, ctx: Escape, use_single_quote: bool, z: Seq<u8>)
    requires
        ctx == Escape::Text || ctx == Escape::AttributeValue,
    ensures
        unescape_bytes(escape_one(b, ctx, use_single_quote) + z) == seq![b] + unescape_bytes(z),
{
    let e = escape_one(b, ctx, use_single_quote);
    let s = e + z;
    if e == seq![b] {
        assert(s[0] == b);
        assert(b != '&' as u8);
        assert(s.len() >= 5 && s.subrange(0, 5) == amp_entity() ==> s[0] == '&' as u8);
        assert(s.len() >= 4 && s.subrange(0, 4) == lt_entity() ==> s[0] == '&' as u8);
        assert(s.len() >= 4 && s.subrange(0, 4) == gt_entity() ==> s[0] == '&' as u8);
        assert(s.len() >= 6 && s.subrange(0, 6) == quot_entity() ==> s[0] == '&' as u8);
        assert(s.len() >= 6 && s.subrange(0, 6) == apos_entity() ==> s[0] == '&' as u8);
        assert(s.drop_first() =~= z);
        assert(unescape_bytes(s) =~= seq![b] + unescape_bytes(z));
    } else if e == amp_entity() {
        assert(s.subrange(0, 5) =~= amp_entity());
        assert(s.skip(5) =~= z);
        assert(unescape_bytes(s) =~= seq![b] + unescape_bytes(z));
    } else if e == lt_entity() {
        assert(s[1] == 'l' as u8);
        assert(s.len() >= 5 && s.subrange(0, 5) == amp_entity() ==> s[1] == 'a' as u8);
        assert(s.subrange(0, 4) =~= lt_entity());
        assert(s.skip(4) =~= z);
        assert(unescape_bytes(s) =~= seq![b] + unescape_bytes(z));
    } else if e == gt_entity() {
        assert(s[1] == 'g' as u8);
        assert(s.len() >= 5 && s.subrange(0, 5) == amp_entity() ==> s[1] == 'a' as u8);
        assert(s.len() >= 4 && s.subrange(0, 4) == lt_entity() ==> s[1] == 'l' as u8);
        assert(s.subrange(0, 4) =~= gt_entity());
        assert(s.skip(4) =~= z);
        assert(unescape_bytes(s) =~= seq![b] + unescape_bytes(z));
    } else if e == quot_entity() {
        assert(s[1] == 'q' as u8);
        assert(s.len() >= 5 && s.subrange(0, 5) == amp_entity() ==> s[1] == 'a' as u8);
        assert(s.len() >= 4 && s.subrange(0, 4) == lt_entity() ==> s[1] == 'l' as u8);
        assert(s.len() >= 4 && s.subrange(0, 4) == gt_entity() ==> s[1] == 'g' as u8);
        assert(s.subrange(0, 6) =~= quot_entity());
        assert(s.skip(6) =~= z);
        assert(unescape_bytes(s) =~= seq![b] + unescape_bytes(z));
    } else {
        assert(e == apos_entity());
        assert(s[1] == 'a' as u8 && s[2] == 'p' as u8);
        assert(s.len() >= 5 && s.subrange(0, 5) == amp_entity() ==> s[2] == 'm' as u8);
        assert(s.len() >= 4 && s.subrange(0, 4) == lt_entity() ==> s[1] == 'l' as u8);
        assert(s.len() >= 4 && s.subrange(0, 4) == gt_entity() ==> s[1] == 'g' as u8);
        assert(s.len() >= 6 && s.subrange(0, 6) == quot_entity() ==> s[1] == 'q' as u8);
        assert(s.subrange(0, 6) =~= apos_entity());
        assert(s.skip(6) =~= z);
        assert(unescape_bytes(s) =~= seq![b] + unescape_bytes(z));
    }
}

/// Round-trip law: in the text and attribute-value contexts, decoding the
/// escaped form of any fragment yields the fragment back.
pub proof fn lemma_escape_round_trip(t: Seq<u8>, ctx: Escape, use_single_quote: bool)
    requires
        ctx == Escape::Text || ctx == Escape::AttributeValue,
    ensures
        unescape_bytes(escape_bytes(t, ctx, use_single_quote)) == t,
    decreases t.len(),
{
    if t.len() == 0 {
    } else {
        lemma_escape_round_trip(t.drop_first(), ctx, use_single_quote);
        lemma_unescape_one(t[0], ctx, use_single_quote, escape_bytes(
            t.drop_first(),
            ctx,
            use_single_quote,
        ));
        assert(seq![t[0]] + t.drop_first() =~= t);
    }
}

/// Whether one of the five entities begins at position `i` of `s`.
pub open spec fn entity_at(s: Seq<u8>, i: int) -> bool {
    (i + 5 <= s.len() && s.subrange(i, i + 5) == amp_entity()) || (i + 4 <= s.len() && s.subrange(
        i,
        i + 4,
    ) == lt_entity()) || (i + 4 <= s.len() && s.subrange(i, i + 4) == gt_entity()) || (i + 6
        <= s.len() && s.subrange(i, i + 6) == quot_entity()) || (i + 6 <= s.len() && s.subrange(
        i,
        i + 6,
    ) == apos_entity())
}

proof fn lemma_entity_at_shift(e: Seq<u8>, z: Seq<u8>, i: int)
    requires
        0 <= i,
        entity_at(z, i),
    ensures
        entity_at(e + z, e.len() + i),
{
    let s = e + z;
    let n = e.len() as int;
    if i + 5 <= z.len() && z.subrange(i, i + 5) == amp_entity() {
        assert(s.subrange(n + i, n + i + 5) =~= z.subrange(i, i + 5));
    } else if i + 4 <= z.len() && z.subrange(i, i + 4) == lt_entity() {
        assert(s.subrange(n + i, n + i + 4) =~= z.subrange(i, i + 4));
    } else if i + 4 <= z.len() && z.subrange(i, i + 4) == gt_entity() {
        assert(s.subrange(n + i, n + i + 4) =~= z.subrange(i, i + 4));
    } else if i + 6 <= z.len() && z.subrange(i, i + 6) == quot_entity() {
        assert(s.subrange(n + i, n + i + 6) =~= z.subrange(i, i + 6));
    } else {
        assert(i + 6 <= z.len() && z.subrange(i, i + 6) == apos_entity());
        assert(s.subrange(n + i, n + i + 6) =~= z.subrange(i, i + 6));
    }
}

/// In the text and attribute-value contexts, escaped output never holds a
/// raw `<` or `>`, and every `&` it holds begins one of the five entities:
/// markup characters cannot leak out of escaped content.
pub proof fn lemma_escaped_no_raw_markup(t: Seq<u8>, ctx: Escape, use_single_quote: bool)
    requires
        ctx == Escape::Text || ctx == Escape::AttributeValue,
    ensures
        forall|i: int|
            0 <= i < escape_bytes(t, ctx, use_single_quote).len() ==> {
                let r = #[trigger] escape_bytes(t, ctx, use_single_quote)[i];
                r != '<' as u8 && r != '>' as u8
            },
        forall|i: int|
            0 <= i < escape_bytes(t, ctx, use_single_quote).len() && #[trigger] escape_bytes(
                t,
                ctx,
                use_single_quote,
            )[i] == '&' as u8 ==> entity_at(escape_bytes(t, ctx, use_single_quote), i),
    decreases t.len(),
{
    let esc = escape_bytes(t, ctx, use_single_quote);
    if t.len() == 0 {
    } else {
        let e = escape_one(t[0], ctx, use_single_quote);
        let z = escape_bytes(t.drop_first(), ctx, use_single_quote);
        lemma_escaped_no_raw_markup(t.drop_first(), ctx, use_single_quote);
        assert(esc == e + z);
        assert forall|i: int| 0 <= i < esc.len() implies {
            let r = #[trigger] esc[i];
            (r != '<' as u8 && r != '>' as u8) && (r == '&' as u8 ==> entity_at(esc, i))
        } by {
            if i < e.len() {
                if e == seq![t[0]] {
                    assert(t[0] != '<' as u8 && t[0] != '>' as u8);
                    assert(t[0] != '&' as u8);
                    assert(esc[i] == t[0]);
                } else {
                    assert(esc[i] == e[i]);
                    if esc[i] == '&' as u8 {
                        assert(i == 0);
                        assert(esc.subrange(0, e.len() as int) =~= e);
                        assert(entity_at(esc, 0));
                    }
                }
            } else {
                assert(esc[i] == z[i - e.len()]);
                if esc[i] == '&' as u8 {
                    lemma_entity_at_shift(e, z, i - e.len());
                }
            }
        }
    }
}

} // verus!
