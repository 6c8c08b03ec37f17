//! Splitting text at `/` into its non-empty segments.

use vstd::prelude::*;
use vstd::string::StringSliceAdditionalSpecFns;
use vstd::utf8::*;
use crate::text::{cut_point, lemma_cut_around_ascii, lemma_cut_at_ends, piece};

verus! {

/// The byte at which text is split: `/`.
pub const SEPARATOR: u8 = 0x2f;

/// Whether `s` holds no separator.
pub open spec fn separator_free(s: Seq<u8>) -> bool {
    forall|i: int| 0 <= i < s.len() ==> s[i] != SEPARATOR
}

/// How many bytes of `s` come before its first separator; all of them where
/// `s` holds none.
pub open spec fn run_len(s: Seq<u8>) -> nat
    decreases s.len(),
{
    if s.len() == 0 || s[0] == SEPARATOR {
        0
    } else {
        1 + run_len(s.drop_first())
    }
}

/// The pieces between the separators of `s`, in order, without the empty ones
/// that a leading, trailing or doubled separator leaves.
pub open spec fn segments(s: Seq<u8>) -> Seq<Seq<u8>>
    decreases s.len(),
{
    if s.len() == 0 {
        Seq::empty()
    } else {
        let k = run_len(s);
        let rest = if k < s.len() {
            segments(s.skip((k + 1) as int))
        } else {
            Seq::empty()
        };
        if k == 0 {
            rest
        } else {
            seq![s.take(k as int)] + rest
        }
    }
}

/// `run_len` finds the first separator: where the first `k` bytes hold none
/// and the text ends or has a separator at `k`, the run is `k` bytes long.
pub proof fn lemma_run_len(s: Seq<u8>, k: int)
    requires
        0 <= k <= s.len(),
        separator_free(s.take(k)),
        k < s.len() ==> s[k] == SEPARATOR,
    ensures
        run_len(s) == k,
    decreases k,
{
    if k == 0 {
    } else {
        assert(s.take(k)[0] == s[0]);
        let t = s.drop_first();
        let head = t.take(k - 1);
        assert forall|i: int| 0 <= i < head.len() implies head[i] != SEPARATOR by {
            assert(head[i] == s.take(k)[i + 1]);
        }
        lemma_run_len(t, k - 1);
    }
}

/// Where a separator ends a run of `k` bytes at the front of `s`, the
/// segments of `s` are that run, unless it is empty, and then the segments of
/// what follows the separator.
pub proof fn lemma_segments_step(s: Seq<u8>, k: int)
    requires
        0 <= k < s.len(),
        separator_free(s.take(k)),
        s[k] == SEPARATOR,
    ensures
        segments(s) == if k == 0 {
            segments(s.skip(k + 1))
        } else {
            seq![s.take(k)] + segments(s.skip(k + 1))
        },
{
    lemma_run_len(s, k);
}

/// Text without a separator is its own single segment; empty text has none.
pub proof fn lemma_segments_whole(s: Seq<u8>)
    requires
        separator_free(s),
    ensures
        segments(s) == if s.len() == 0 {
            Seq::<Seq<u8>>::empty()
        } else {
            seq![s]
        },
{
    assert(s.take(s.len() as int) =~= s);
    lemma_run_len(s, s.len() as int);
}

/// Whether nothing but separators follows the first separator of `s`, so
/// that `s` holds one segment at most, and holds it at its front.
pub open spec fn ends_in_separators(s: Seq<u8>) -> bool {
    forall|i: int, j: int| 0 <= i <= j < s.len() && s[i] == SEPARATOR ==> s[j] == SEPARATOR
}

/// The run at the front of `s` lies within `s`, holds no separator, and ends
/// at a separator or at the end of `s`.
pub proof fn lemma_run_len_is_first_separator(s: Seq<u8>)
    ensures
        run_len(s) <= s.len(),
        separator_free(s.take(run_len(s) as int)),
        run_len(s) < s.len() ==> s[run_len(s) as int] == SEPARATOR,
    decreases s.len(),
{
    if s.len() == 0 || s[0] == SEPARATOR {
    } else {
        let t = s.drop_first();
        lemma_run_len_is_first_separator(t);
        let k = run_len(s) as int;
        let run = s.take(k);
        let shorter = t.take(k - 1);
        assert forall|i: int| 0 <= i < run.len() implies run[i] != SEPARATOR by {
            if i > 0 {
                assert(run[i] == shorter[i - 1]);
            }
        }
        assert(k < s.len() ==> s[k] == t[k - 1]);
    }
}

/// Every segment holds at least one byte and no separator.
pub proof fn lemma_segments_shape(s: Seq<u8>)
    ensures
        forall|i: int|
            0 <= i < segments(s).len() ==> (#[trigger] segments(s)[i]).len() > 0 && separator_free(
                segments(s)[i],
            ),
    decreases s.len(),
{
    if s.len() > 0 {
        let k = run_len(s);
        lemma_run_len_is_first_separator(s);
        let rest = if k < s.len() {
            segments(s.skip((k + 1) as int))
        } else {
            Seq::empty()
        };
        if k < s.len() {
            lemma_segments_shape(s.skip((k + 1) as int));
        }
        assert forall|i: int| 0 <= i < segments(s).len() implies (#[trigger] segments(s)[i]).len()
            > 0 && separator_free(segments(s)[i]) by {
            if k == 0 {
                assert(segments(s)[i] == rest[i]);
            } else if i == 0 {
                assert(segments(s)[i] == s.take(k as int));
            } else {
                assert(segments(s)[i] == rest[i - 1]);
            }
        }
    }
}

/// Whether `part` stands in `s`, beginning at byte `at`.
pub open spec fn stands_at(s: Seq<u8>, part: Seq<u8>, at: int) -> bool {
    0 <= at && at + part.len() <= s.len() && s.subrange(at, at + part.len()) == part
}

/// Whether `part` stands somewhere in `s`.
pub open spec fn stands_in(s: Seq<u8>, part: Seq<u8>) -> bool {
    exists|at: int| stands_at(s, part, at)
}

/// Every segment of `s` stands somewhere in `s`.
pub proof fn lemma_segments_inside(s: Seq<u8>)
    ensures
        forall|i: int| 0 <= i < segments(s).len() ==> stands_in(s, #[trigger] segments(s)[i]),
    decreases s.len(),
{
    if s.len() > 0 {
        let k = run_len(s) as int;
        lemma_run_len_is_first_separator(s);
        let behind = s.skip(k + 1);
        let rest = if k < s.len() {
            segments(behind)
        } else {
            Seq::empty()
        };
        if k < s.len() {
            lemma_segments_inside(behind);
        }
        assert forall|i: int| 0 <= i < segments(s).len() implies stands_in(
            s,
            #[trigger] segments(s)[i],
        ) by {
            if k > 0 && i == 0 {
                assert(segments(s)[i] == s.take(k));
                assert(stands_at(s, segments(s)[i], 0));
            } else {
                let j = if k == 0 {
                    i
                } else {
                    i - 1
                };
                assert(segments(s)[i] == rest[j]);
                assert(stands_in(behind, rest[j]));
                let at = choose|at: int| stands_at(behind, rest[j], at);
                assert(s.subrange(at + k + 1, at + k + 1 + rest[j].len()) =~= behind.subrange(
                    at,
                    at + rest[j].len(),
                ));
                assert(stands_at(s, segments(s)[i], at + k + 1));
            }
        }
    }
}

/// Text made of separators alone has no segment.
pub proof fn lemma_segments_of_separators(s: Seq<u8>)
    requires
        forall|i: int| 0 <= i < s.len() ==> s[i] == SEPARATOR,
    ensures
        segments(s) == Seq::<Seq<u8>>::empty(),
    decreases s.len(),
{
    if s.len() > 0 {
        lemma_segments_of_separators(s.skip(1));
    }
}

/// A separator in front changes no segment.
pub proof fn lemma_segments_after_separator(s: Seq<u8>)
    ensures
        segments(seq![SEPARATOR] + s) == segments(s),
{
    let t = seq![SEPARATOR] + s;
    assert(t.skip(1) =~= s);
}

/// A run without separators, then a separator, then `s`: the run is the first
/// segment, and the segments of `s` follow.
pub proof fn lemma_segments_after_run(run: Seq<u8>, s: Seq<u8>)
    requires
        run.len() > 0,
        separator_free(run),
    ensures
        segments(run + seq![SEPARATOR] + s) == seq![run] + segments(s),
{
    let t = run + seq![SEPARATOR] + s;
    let k = run.len() as int;
    assert(t.take(k) =~= run);
    assert(t.skip(k + 1) =~= s);
    lemma_segments_step(t, k);
}

/// A run without separators, then text that holds nothing but separators
/// from its first separator on: one segment, the run and what `tail` holds
/// before that separator.
pub proof fn lemma_segments_single(run: Seq<u8>, tail: Seq<u8>)
    requires
        run.len() > 0,
        separator_free(run),
        ends_in_separators(tail),
    ensures
        segments(run + tail) == seq![run + tail.take(run_len(tail) as int)],
{
    let t = run + tail;
    let k = run_len(tail) as int;
    lemma_run_len_is_first_separator(tail);
    let first = run + tail.take(k);
    assert(separator_free(first)) by {
        assert forall|i: int| 0 <= i < first.len() implies first[i] != SEPARATOR by {
            if i >= run.len() {
                assert(first[i] == tail.take(k)[i - run.len()]);
            }
        }
    }
    if k == tail.len() {
        assert(tail.take(k) =~= tail);
        lemma_segments_whole(t);
    } else {
        let cut = run.len() + k;
        assert(t.take(cut) =~= first);
        let after = t.skip(cut + 1);
        assert forall|i: int| 0 <= i < after.len() implies after[i] == SEPARATOR by {
            assert(after[i] == tail[k + 1 + i]);
        }
        lemma_segments_of_separators(after);
        lemma_segments_step(t, cut);
    }
}

/// What each of `parts` holds, as bytes.
pub open spec fn bytes_of(parts: Seq<&str>) -> Seq<Seq<u8>> {
    Seq::new(parts.len(), |i: int| parts[i].spec_bytes())
}

/// Splits `value` at each `/` and returns the pieces that are not empty, in
/// the order in which they stand in `value`.
pub fn split_segments<'a>(value: &'a str) -> (parts: Vec<&'a str>)
    ensures
        bytes_of(parts@) == segments(value.spec_bytes()),
{
    let bytes = value.as_bytes();
    let n = bytes.len();
    let mut parts: Vec<&'a str> = Vec::new();
    let mut start: usize = 0;
    let mut i: usize = 0;
    proof {
        encode_utf8_valid_utf8(value@);
        lemma_cut_at_ends(bytes@);
        assert(bytes@.skip(0) =~= bytes@);
        assert(bytes_of(parts@) + segments(bytes@.skip(0)) =~= segments(bytes@));
    }
    while i < n
        invariant
            bytes@ == value.spec_bytes(),
            valid_utf8(bytes@),
            n == bytes@.len(),
            start <= i <= n,
            cut_point(bytes@, start as int),
            separator_free(bytes@.subrange(start as int, i as int)),
            bytes_of(parts@) + segments(bytes@.skip(start as int)) == segments(bytes@),
        decreases n - i,
    {
        if bytes[i] == SEPARATOR {
            proof {
                let rest = bytes@.skip(start as int);
                assert(rest.take(i - start) =~= bytes@.subrange(start as int, i as int));
                assert(rest.skip(i - start + 1) =~= bytes@.skip(i + 1));
                lemma_segments_step(rest, i - start);
                lemma_cut_around_ascii(bytes@, i as int);
            }
            if start < i {
                let part = piece(value, start, i);
                let ghost before = parts@;
                parts.push(part);
                proof {
                    assert(bytes_of(parts@) =~= bytes_of(before) + seq![part.spec_bytes()]);
                    assert(bytes_of(parts@) + segments(bytes@.skip(i + 1)) =~= bytes_of(before)
                        + (seq![part.spec_bytes()] + segments(bytes@.skip(i + 1))));
                }
            }
            start = i + 1;
            assert(bytes@.subrange(start as int, i + 1) =~= Seq::<u8>::empty());
        } else {
            proof {
                let run = bytes@.subrange(start as int, i as int);
                let longer = bytes@.subrange(start as int, i + 1);
                assert forall|j: int| 0 <= j < longer.len() implies longer[j] != SEPARATOR by {
                    if j < run.len() {
                        assert(run[j] == longer[j]);
                    }
                }
            }
        }
        i += 1;
    }
    proof {
        let rest = bytes@.skip(start as int);
        assert(rest =~= bytes@.subrange(start as int, n as int));
        lemma_segments_whole(rest);
    }
    if start < n {
        let part = piece(value, start, n);
        let ghost before = parts@;
        parts.push(part);
        proof {
            assert(bytes_of(parts@) =~= bytes_of(before) + seq![part.spec_bytes()]);
        }
    } else {
        assert(bytes_of(parts@) + Seq::<Seq<u8>>::empty() =~= bytes_of(parts@));
    }
    parts
}

} // verus!
