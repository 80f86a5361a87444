//! Texts as UTF-8 bytes: lengths, and the replacement of a byte range.

use vstd::prelude::*;
use vstd::string::*;
use vstd::utf8::*;

verus! {

/// `text` with the bytes of `[start, end)` replaced by `with`.
pub open spec fn splice(text: Seq<u8>, start: int, end: int, with: Seq<u8>) -> Seq<u8> {
    text.subrange(0, start) + with + text.subrange(end, text.len() as int)
}

/// The encoding of a concatenation is the concatenation of the encodings.
pub proof fn lemma_encode_utf8_concat(a: Seq<char>, b: Seq<char>)
    ensures
        encode_utf8(a + b) == encode_utf8(a) + encode_utf8(b),
    decreases a.len(),
{
    if a.len() == 0 {
        assert(a + b =~= b);
        assert(encode_utf8(a) + encode_utf8(b) =~= encode_utf8(b));
    } else {
        lemma_encode_utf8_concat(a.drop_first(), b);
        assert((a + b).drop_first() =~= a.drop_first() + b);
        assert(encode_utf8(a + b) =~= encode_utf8(a) + encode_utf8(b));
    }
}

/// A splice changes the length by the difference between what comes in and
/// what goes out.
pub proof fn lemma_splice_len(text: Seq<u8>, start: int, end: int, with: Seq<u8>)
    requires
        0 <= start <= end <= text.len(),
    ensures
        splice(text, start, end, with).len() == text.len() - (end - start) + with.len(),
{
}

/// A splice leaves the bytes before the range where they were, and moves
/// those behind it by the change of length.
pub proof fn lemma_splice_keeps_rest(text: Seq<u8>, start: int, end: int, with: Seq<u8>)
    requires
        0 <= start <= end <= text.len(),
    ensures
        splice(text, start, end, with).subrange(0, start) == text.subrange(0, start),
        splice(text, start, end, with).subrange(start, start + with.len()) == with,
        splice(text, start, end, with).subrange(
            start + with.len(),
            splice(text, start, end, with).len() as int,
        ) == text.subrange(end, text.len() as int),
{
    let out = splice(text, start, end, with);
    assert(out.subrange(0, start) =~= text.subrange(0, start));
    assert(out.subrange(start, start + with.len()) =~= with);
    assert(out.subrange(start + with.len(), out.len() as int) =~= text.subrange(
        end,
        text.len() as int,
    ));
}

/// Two texts that agree on a prefix agree on every range within it.
pub proof fn lemma_same_prefix_same_range(a: Seq<u8>, b: Seq<u8>, long: int, from: int, to: int)
    requires
        0 <= from <= to <= long,
        long <= a.len(),
        long <= b.len(),
        a.subrange(0, long) == b.subrange(0, long),
    ensures
        a.subrange(from, to) == b.subrange(from, to),
{
    assert(a.subrange(from, to) =~= a.subrange(0, long).subrange(from, to));
    assert(b.subrange(from, to) =~= b.subrange(0, long).subrange(from, to));
}

/// Two texts that agree from one place on agree from every later place on.
pub proof fn lemma_same_suffix_later(a: Seq<u8>, b: Seq<u8>, at_a: int, at_b: int, further: int)
    requires
        0 <= at_a,
        0 <= at_b,
        0 <= further,
        at_a + further <= a.len(),
        at_b <= b.len(),
        a.skip(at_a) == b.skip(at_b),
    ensures
        at_b + further <= b.len(),
        a.skip(at_a + further) == b.skip(at_b + further),
{
    assert(a.skip(at_a).len() == b.skip(at_b).len());
    assert(a.skip(at_a + further) =~= a.skip(at_a).skip(further));
    assert(b.skip(at_b + further) =~= b.skip(at_b).skip(further));
}

/// The length of a text in bytes.
pub fn byte_len(text: &str) -> (n: usize)
    ensures
        n == text.spec_bytes().len(),
{
    text.as_bytes().len()
}

/// Builds the text in which the bytes `[start, end)` of `text` have given
/// way to `with`. Both ends of the range must lie between two characters.
pub fn replace_range(text: &str, start: usize, end: usize, with: &str) -> (r: String)
    requires
        start <= end <= text.spec_bytes().len(),
        is_char_boundary(text.spec_bytes(), start as int),
        is_char_boundary(text.spec_bytes(), end as int),
    ensures
        encode_utf8(r@) == splice(text.spec_bytes(), start as int, end as int, with.spec_bytes()),
{
    let (head, _) = text.split_at(start);
    let (_, tail) = text.split_at(end);
    let mut out: String = head.to_owned();
    out.append(with);
    out.append(tail);
    proof {
        lemma_encode_utf8_concat(head@, with@);
        lemma_encode_utf8_concat(head@ + with@, tail@);
    }
    out
}

/// Whether two byte strings are the same.
pub fn same_bytes(a: &[u8], b: &[u8]) -> (r: bool)
    ensures
        r == (a@ == b@),
{
    if a.len() != b.len() {
        return false;
    }
    let mut i: usize = 0;
    while i < a.len()
        invariant
            a@.len() == b@.len(),
            i <= a@.len(),
            a@.subrange(0, i as int) == b@.subrange(0, i as int),
        decreases a@.len() - i,
    {
        if a[i] != b[i] {
            assert(a@[i as int] != b@[i as int]);
            return false;
        }
        assert(a@.subrange(0, i + 1) =~= a@.subrange(0, i as int).push(a@[i as int]));
        assert(b@.subrange(0, i + 1) =~= b@.subrange(0, i as int).push(b@[i as int]));
        i += 1;
    }
    assert(a@ =~= a@.subrange(0, i as int));
    assert(b@ =~= b@.subrange(0, i as int));
    true
}

} // verus!
