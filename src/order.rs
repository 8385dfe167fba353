//! Lexicographic order on the UTF-8 bytes of text, the order that `str`
//! comparison uses.
use vstd::prelude::*;

verus! {

/// The UTF-8 encoding of a text.
pub open spec fn text_bytes(s: Seq<char>) -> Seq<u8> {
    vstd::utf8::encode_utf8(s)
}

/// `a` comes no later than `b` in byte-wise lexicographic order.
pub open spec fn lex_le(a: Seq<u8>, b: Seq<u8>) -> bool
    decreases a.len(),
{
    if a.len() == 0 {
        true
    } else if b.len() == 0 {
        false
    } else if a[0] != b[0] {
        a[0] < b[0]
    } else {
        lex_le(a.drop_first(), b.drop_first())
    }
}

/// Text `a` is no greater than text `b`, as `str` compares them.
pub open spec fn text_le(a: Seq<char>, b: Seq<char>) -> bool {
    lex_le(text_bytes(a), text_bytes(b))
}

/// The order is transitive.
pub proof fn lemma_lex_le_transitive(a: Seq<u8>, b: Seq<u8>, c: Seq<u8>)
    requires
        lex_le(a, b),
        lex_le(b, c),
    ensures
        lex_le(a, c),
    decreases a.len(),
{
    if a.len() > 0 && b.len() > 0 && c.len() > 0 && a[0] == b[0] && b[0] == c[0] {
        lemma_lex_le_transitive(a.drop_first(), b.drop_first(), c.drop_first());
    }
}

/// Compares two texts by their UTF-8 bytes.
pub fn le_text(a: &str, b: &str) -> (r: bool)
    ensures
        r == text_le(a@, b@),
{
    let x = a.as_bytes();
    let y = b.as_bytes();
    let ghost xs = x@;
    let ghost ys = y@;
    let mut i: usize = 0;
    assert(xs.skip(0) =~= xs);
    assert(ys.skip(0) =~= ys);
    while i < x.len() && i < y.len() && x[i] == y[i]
        invariant
            xs == x@,
            ys == y@,
            xs == text_bytes(a@),
            ys == text_bytes(b@),
            i <= xs.len(),
            i <= ys.len(),
            lex_le(xs, ys) == lex_le(xs.skip(i as int), ys.skip(i as int)),
        decreases x.len() - i,
    {
        assert(xs.skip(i as int).drop_first() =~= xs.skip(i + 1));
        assert(ys.skip(i as int).drop_first() =~= ys.skip(i + 1));
        i = i + 1;
    }
    if i == x.len() {
        true
    } else if i == y.len() {
        false
    } else {
        x[i] < y[i]
    }
}

} // verus!
