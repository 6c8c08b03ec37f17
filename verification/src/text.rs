//! Byte-level work on `&str`: comparing, testing a prefix, and cutting a
//! piece out where the cut respects character boundaries.

use vstd::prelude::*;
use vstd::string::StringSliceAdditionalSpecFns;
use vstd::utf8::*;

verus! {

/// Whether `s` may be cut at byte `at`: at its end, or before a byte that
/// does not continue a character.
pub open spec fn cut_point(s: Seq<u8>, at: int) -> bool {
    0 <= at <= s.len() && (at < s.len() ==> !is_continuation_byte(s[at]))
}

/// In well-formed UTF-8 a cut point is a character boundary.
pub proof fn lemma_cut_point_is_boundary(s: Seq<u8>, at: int)
    requires
        valid_utf8(s),
        cut_point(s, at),
    ensures
        is_char_boundary(s, at),
{
    if at < s.len() {
        is_char_boundary_iff_not_is_continuation_byte(s, at);
    } else {
        is_char_boundary_start_end_of_seq(s);
    }
}

/// In well-formed UTF-8 an ASCII byte is a character of its own: the text may
/// be cut before it and after it.
pub proof fn lemma_cut_around_ascii(s: Seq<u8>, at: int)
    requires
        valid_utf8(s),
        0 <= at < s.len(),
        s[at] < 0x80,
    ensures
        cut_point(s, at),
        cut_point(s, at + 1),
{
    is_char_boundary_iff_not_is_continuation_byte(s, at);
    valid_utf8_split(s, at);
    let tail = s.subrange(at, s.len() as int);
    assert(tail[0] == s[at]);
    assert(length_of_first_scalar(tail) == 1);
    let after = pop_first_scalar(tail);
    assert(valid_utf8(after));
    if at + 1 < s.len() {
        assert(after[0] == s[at + 1]);
        assert(valid_first_scalar(after));
    }
}

/// Well-formed UTF-8 may be cut at its start and at its end.
pub proof fn lemma_cut_at_ends(s: Seq<u8>)
    requires
        valid_utf8(s),
    ensures
        cut_point(s, 0),
        cut_point(s, s.len() as int),
{
    if s.len() > 0 {
        is_char_boundary_iff_not_is_continuation_byte(s, 0);
    }
}

/// Where well-formed UTF-8 begins with well-formed UTF-8, a character ends
/// where the prefix ends.
pub proof fn lemma_boundary_after_prefix(s: Seq<u8>, prefix: Seq<u8>)
    requires
        valid_utf8(s),
        valid_utf8(prefix),
        prefix.is_prefix_of(s),
    ensures
        is_char_boundary(s, prefix.len() as int),
    decreases prefix.len(),
{
    if prefix.len() > 0 {
        let first = length_of_first_scalar(prefix);
        assert(prefix[0] == s.subrange(0, prefix.len() as int)[0]);
        assert(first == length_of_first_scalar(s));
        assert(first <= prefix.len());
        assert(pop_first_scalar(prefix) =~= pop_first_scalar(s).subrange(
            0,
            prefix.len() - first,
        ));
        lemma_boundary_after_prefix(pop_first_scalar(s), pop_first_scalar(prefix));
    }
}

/// Where well-formed UTF-8 begins with well-formed UTF-8, it may be cut
/// where the prefix ends.
pub proof fn lemma_cut_after_prefix(s: Seq<u8>, prefix: Seq<u8>)
    requires
        valid_utf8(s),
        valid_utf8(prefix),
        prefix.is_prefix_of(s),
    ensures
        cut_point(s, prefix.len() as int),
{
    lemma_boundary_after_prefix(s, prefix);
    if prefix.len() < s.len() {
        is_char_boundary_iff_not_is_continuation_byte(s, prefix.len() as int);
    }
}

/// The bytes of two pieces of text, one after the other, are the bytes of
/// the first and then the bytes of the second.
pub proof fn lemma_bytes_of_concat(a: Seq<char>, b: Seq<char>)
    ensures
        encode_utf8(a + b) == encode_utf8(a) + encode_utf8(b),
    decreases a.len(),
{
    if a.len() == 0 {
        assert(a + b =~= b);
    } else {
        assert((a + b).drop_first() =~= a.drop_first() + b);
        lemma_bytes_of_concat(a.drop_first(), b);
    }
    assert(encode_utf8(a + b) =~= encode_utf8(a) + encode_utf8(b));
}

/// Whether two byte slices hold the same bytes.
pub fn same_bytes(a: &[u8], b: &[u8]) -> (same: bool)
    ensures
        same == (a@ == b@),
{
    if a.len() != b.len() {
        return false;
    }
    let mut i: usize = 0;
    while i < a.len()
        invariant
            a@.len() == b@.len(),
            i <= a@.len(),
            forall|j: int| 0 <= j < i ==> a@[j] == b@[j],
        decreases a@.len() - i,
    {
        if a[i] != b[i] {
            return false;
        }
        i += 1;
    }
    assert(a@ =~= b@);
    true
}

/// Whether `text` begins with the bytes of `prefix`.
pub fn begins_with(text: &[u8], prefix: &[u8]) -> (found: bool)
    ensures
        found == prefix@.is_prefix_of(text@),
{
    if prefix.len() > text.len() {
        return false;
    }
    let mut i: usize = 0;
    while i < prefix.len()
        invariant
            prefix@.len() <= text@.len(),
            i <= prefix@.len(),
            forall|j: int| 0 <= j < i ==> text@[j] == prefix@[j],
        decreases prefix@.len() - i,
    {
        if text[i] != prefix[i] {
            return false;
        }
        i += 1;
    }
    true
}

/// The piece of `text` from byte `from` up to byte `to`.
pub(crate) fn piece<'a>(text: &'a str, from: usize, to: usize) -> (part: &'a str)
    requires
        from <= to,
        cut_point(text.spec_bytes(), from as int),
        cut_point(text.spec_bytes(), to as int),
    ensures
        part.spec_bytes() == text.spec_bytes().subrange(from as int, to as int),
{
    proof {
        encode_utf8_valid_utf8(text@);
        lemma_cut_point_is_boundary(text.spec_bytes(), to as int);
    }
    let (head, _) = text.split_at(to);
    proof {
        encode_utf8_valid_utf8(head@);
        lemma_cut_point_is_boundary(head.spec_bytes(), from as int);
    }
    let (_, part) = head.split_at(from);
    part
}

/// The first `n` bytes of `text`, where it may be cut there.
pub fn leading<'a>(text: &'a str, n: usize) -> (head: Option<&'a str>)
    ensures
        match head {
            Some(part) => cut_point(text.spec_bytes(), n as int) && part.spec_bytes()
                == text.spec_bytes().take(n as int),
            None => !cut_point(text.spec_bytes(), n as int),
        },
{
    let bytes = text.as_bytes();
    if n > bytes.len() {
        return None;
    }
    if n < bytes.len() && 0x80 <= bytes[n] && bytes[n] <= 0xbf {
        return None;
    }
    proof {
        encode_utf8_valid_utf8(text@);
        lemma_cut_at_ends(text.spec_bytes());
    }
    Some(piece(text, 0, n))
}

/// `text` without `prefix` in front, where it begins with it.
pub fn without_prefix<'a>(text: &'a str, prefix: &str) -> (rest: Option<&'a str>)
    ensures
        match rest {
            Some(part) => prefix.spec_bytes().is_prefix_of(text.spec_bytes()) && part.spec_bytes()
                == text.spec_bytes().skip(prefix.spec_bytes().len() as int),
            None => !prefix.spec_bytes().is_prefix_of(text.spec_bytes()),
        },
{
    let bytes = text.as_bytes();
    let start = prefix.as_bytes().len();
    if !begins_with(bytes, prefix.as_bytes()) {
        return None;
    }
    proof {
        encode_utf8_valid_utf8(text@);
        encode_utf8_valid_utf8(prefix@);
        lemma_cut_after_prefix(text.spec_bytes(), prefix.spec_bytes());
        lemma_cut_at_ends(text.spec_bytes());
    }
    Some(piece(text, start, bytes.len()))
}

} // verus!
