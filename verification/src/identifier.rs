//! What a video identifier is, where one stands in a piece of text, and what
//! follows from that for bare identifiers, links, and text that is neither.
//!
//! Text is taken as its UTF-8 bytes, so "eleven" counts bytes. In ASCII text
//! that is eleven characters.

use vstd::prelude::*;
use vstd::string::StringSliceAdditionalSpecFns;
use vstd::utf8::*;
use crate::segments::{
    SEPARATOR, ends_in_separators, lemma_run_len_is_first_separator, lemma_segments_after_run,
    lemma_segments_after_separator, lemma_segments_inside, lemma_segments_shape,
    lemma_segments_single, lemma_segments_whole, run_len, segments, separator_free, stands_at,
    stands_in,
};
use crate::text::{cut_point, lemma_bytes_of_concat, lemma_cut_at_ends};

verus! {

/// The host of a full link.
pub const LONG_HOST: &'static str = "www.youtube.com";

/// The host of a short link.
pub const SHORT_HOST: &'static str = "youtu.be";

/// What the scheme of a link begins with.
pub const SCHEME_START: &'static str = "http";

/// What stands before the identifier in the last segment of a full link.
pub const WATCH_PREFIX: &'static str = "watch?v=";

/// How many bytes a video identifier has.
pub const VIDEO_ID_LEN: usize = 11;

/// Whether `id` has the shape of a video identifier: eleven bytes, none of
/// them a separator. Nothing else is asked of the bytes.
pub open spec fn is_video_id(id: Seq<u8>) -> bool {
    id.len() == VIDEO_ID_LEN && separator_free(id)
}

/// The first eleven bytes of `s`, where `s` has that many and the eleventh is
/// the last byte of a character.
pub open spec fn leading_id(s: Seq<u8>) -> Option<Seq<u8>> {
    if cut_point(s, VIDEO_ID_LEN as int) {
        Some(s.take(VIDEO_ID_LEN as int))
    } else {
        None
    }
}

/// Whether `scheme` and `host` are the first two segments of a link to
/// `host`: the scheme begins with `http`.
pub open spec fn links_to(scheme: Seq<u8>, host: Seq<u8>, wanted: Seq<u8>) -> bool {
    host == wanted && SCHEME_START.spec_bytes().is_prefix_of(scheme)
}

/// The video identifier that `input` names, if it names one.
///
/// `input` is split at `/` into its non-empty segments. Three segments with
/// the long host in the middle are a full link: the identifier is what
/// follows `watch?v=` at the front of the last segment, cut to eleven bytes.
/// Three segments with the short host in the middle are a short link: the
/// identifier is the last segment, cut to eleven bytes. One segment of
/// eleven bytes is the identifier itself. Anything else names none.
pub open spec fn video_id_in(input: Seq<u8>) -> Option<Seq<u8>> {
    let parts = segments(input);
    if parts.len() == 3 && links_to(parts[0], parts[1], LONG_HOST.spec_bytes()) {
        if WATCH_PREFIX.spec_bytes().is_prefix_of(parts[2]) {
            leading_id(parts[2].skip(WATCH_PREFIX.spec_bytes().len() as int))
        } else {
            None
        }
    } else if parts.len() == 3 && links_to(parts[0], parts[1], SHORT_HOST.spec_bytes()) {
        leading_id(parts[2])
    } else if parts.len() == 1 && parts[0].len() == VIDEO_ID_LEN {
        Some(parts[0])
    } else {
        None
    }
}

/// What a full link holds before the identifier, with `https` or `http`.
pub open spec fn full_link_head(secure: bool) -> Seq<u8> {
    if secure {
        "https://www.youtube.com/watch?v=".spec_bytes()
    } else {
        "http://www.youtube.com/watch?v=".spec_bytes()
    }
}

/// What a short link holds before the identifier, with `https` or `http`.
pub open spec fn short_link_head(secure: bool) -> Seq<u8> {
    if secure {
        "https://youtu.be/".spec_bytes()
    } else {
        "http://youtu.be/".spec_bytes()
    }
}

/// The first segment of a link, with `https` or `http`.
pub open spec fn scheme(secure: bool) -> Seq<u8> {
    if secure {
        "https:".spec_bytes()
    } else {
        "http:".spec_bytes()
    }
}

/// The bytes of the fixed pieces of a link, one by one.
pub proof fn lemma_fixed_pieces()
    ensures
        LONG_HOST.spec_bytes() =~= seq![
            0x77u8, 0x77, 0x77, 0x2e, 0x79, 0x6f, 0x75, 0x74, 0x75, 0x62, 0x65, 0x2e, 0x63, 0x6f, 0x6d,
        ],
        SHORT_HOST.spec_bytes() =~= seq![0x79u8, 0x6f, 0x75, 0x74, 0x75, 0x2e, 0x62, 0x65],
        SCHEME_START.spec_bytes() =~= seq![0x68u8, 0x74, 0x74, 0x70],
        WATCH_PREFIX.spec_bytes() =~= seq![0x77u8, 0x61, 0x74, 0x63, 0x68, 0x3f, 0x76, 0x3d],
        scheme(true) =~= seq![0x68u8, 0x74, 0x74, 0x70, 0x73, 0x3a],
        scheme(false) =~= seq![0x68u8, 0x74, 0x74, 0x70, 0x3a],
{
    reveal_strlit("www.youtube.com");
    reveal_strlit("youtu.be");
    reveal_strlit("http");
    reveal_strlit("watch?v=");
    reveal_strlit("https:");
    reveal_strlit("http:");
    is_ascii_chars_encode_utf8(LONG_HOST@);
    is_ascii_chars_encode_utf8(SHORT_HOST@);
    is_ascii_chars_encode_utf8(SCHEME_START@);
    is_ascii_chars_encode_utf8(WATCH_PREFIX@);
    is_ascii_chars_encode_utf8("https:"@);
    is_ascii_chars_encode_utf8("http:"@);
}

/// The head of a link is its scheme, two separators, its host, a separator,
/// and for a full link the watch prefix.
pub proof fn lemma_link_heads(secure: bool)
    ensures
        full_link_head(secure) =~= scheme(secure) + seq![SEPARATOR] + seq![SEPARATOR]
            + LONG_HOST.spec_bytes() + seq![SEPARATOR] + WATCH_PREFIX.spec_bytes(),
        short_link_head(secure) =~= scheme(secure) + seq![SEPARATOR] + seq![SEPARATOR]
            + SHORT_HOST.spec_bytes() + seq![SEPARATOR],
{
    lemma_fixed_pieces();
    reveal_strlit("https://www.youtube.com/watch?v=");
    reveal_strlit("http://www.youtube.com/watch?v=");
    reveal_strlit("https://youtu.be/");
    reveal_strlit("http://youtu.be/");
    is_ascii_chars_encode_utf8("https://www.youtube.com/watch?v="@);
    is_ascii_chars_encode_utf8("http://www.youtube.com/watch?v="@);
    is_ascii_chars_encode_utf8("https://youtu.be/"@);
    is_ascii_chars_encode_utf8("http://youtu.be/"@);
}

/// Whatever `video_id_in` finds has the shape of a video identifier.
pub proof fn lemma_found_is_video_id(input: Seq<u8>)
    ensures
        video_id_in(input) matches Some(id) ==> is_video_id(id),
{
    lemma_segments_shape(input);
    let parts = segments(input);
    if video_id_in(input) is Some {
        let id = video_id_in(input).unwrap();
        let whole = if parts.len() == 3 {
            parts[2]
        } else {
            parts[0]
        };
        assert(separator_free(whole));
        assert forall|i: int| 0 <= i < id.len() implies id[i] != SEPARATOR by {
            if parts.len() == 3 && links_to(parts[0], parts[1], LONG_HOST.spec_bytes()) {
                assert(id[i] == whole[WATCH_PREFIX.spec_bytes().len() + i]);
            } else {
                assert(id[i] == whole[i]);
            }
        }
    }
}

/// Whatever `video_id_in` finds stands in the input: it is eleven bytes of
/// the input, one after the other.
pub proof fn lemma_found_is_inside(input: Seq<u8>)
    ensures
        video_id_in(input) matches Some(id) ==> stands_in(input, id),
{
    lemma_segments_inside(input);
    let parts = segments(input);
    if video_id_in(input) is Some {
        let id = video_id_in(input).unwrap();
        let whole = if parts.len() == 3 {
            parts[2]
        } else {
            parts[0]
        };
        let skipped = if parts.len() == 3 && links_to(parts[0], parts[1], LONG_HOST.spec_bytes()) {
            WATCH_PREFIX.spec_bytes().len() as int
        } else {
            0
        };
        assert(stands_in(input, whole));
        let at = choose|at: int| stands_at(input, whole, at);
        assert(id =~= whole.subrange(skipped, skipped + id.len()));
        assert(input.subrange(at + skipped, at + skipped + id.len()) =~= whole.subrange(
            skipped,
            skipped + id.len(),
        ));
        assert(stands_at(input, id, at + skipped));
    }
}

/// Eleven bytes without a separator are the identifier that they name.
pub proof fn lemma_bare_identifier(id: Seq<u8>)
    requires
        is_video_id(id),
    ensures
        video_id_in(id) == Some(id),
{
    lemma_segments_whole(id);
}

/// A full link names the eleven bytes that follow its head, whatever stands
/// behind them, as long as the link ends in the segment that holds them:
/// behind the first separator of `rest` only separators may follow. The
/// eleventh byte has to end a character, which it does where `rest` is text.
pub proof fn lemma_full_link(secure: bool, id: Seq<u8>, rest: Seq<u8>)
    requires
        is_video_id(id),
        ends_in_separators(rest),
        rest.len() > 0 ==> !is_continuation_byte(rest[0]),
    ensures
        video_id_in(full_link_head(secure) + id + rest) == Some(id),
{
    lemma_fixed_pieces();
    lemma_link_heads(secure);
    let input = full_link_head(secure) + id + rest;
    let watch = WATCH_PREFIX.spec_bytes();
    let host = LONG_HOST.spec_bytes();
    let run = watch + id;
    let kept = rest.take(run_len(rest) as int);
    let last = run + rest;
    let behind_scheme = seq![SEPARATOR] + (host + seq![SEPARATOR] + last);
    lemma_run_len_is_first_separator(rest);
    assert(input =~= scheme(secure) + seq![SEPARATOR] + behind_scheme);
    lemma_segments_after_run(scheme(secure), behind_scheme);
    lemma_segments_after_separator(host + seq![SEPARATOR] + last);
    lemma_segments_after_run(host, last);
    lemma_segments_single(run, rest);
    assert(segments(input) =~= seq![scheme(secure), host, run + kept]);
    assert((run + kept).skip(watch.len() as int) =~= id + kept);
    assert((id + kept).take(VIDEO_ID_LEN as int) =~= id);
    assert(kept.len() > 0 ==> kept[0] == rest[0]);
}

/// A short link names the eleven bytes that follow its head, under the same
/// conditions as a full link.
pub proof fn lemma_short_link(secure: bool, id: Seq<u8>, rest: Seq<u8>)
    requires
        is_video_id(id),
        ends_in_separators(rest),
        rest.len() > 0 ==> !is_continuation_byte(rest[0]),
    ensures
        video_id_in(short_link_head(secure) + id + rest) == Some(id),
{
    lemma_fixed_pieces();
    lemma_link_heads(secure);
    let input = short_link_head(secure) + id + rest;
    let host = SHORT_HOST.spec_bytes();
    let kept = rest.take(run_len(rest) as int);
    let last = id + rest;
    let behind_scheme = seq![SEPARATOR] + (host + seq![SEPARATOR] + last);
    lemma_run_len_is_first_separator(rest);
    assert(input =~= scheme(secure) + seq![SEPARATOR] + behind_scheme);
    lemma_segments_after_run(scheme(secure), behind_scheme);
    lemma_segments_after_separator(host + seq![SEPARATOR] + last);
    lemma_segments_after_run(host, last);
    lemma_segments_single(id, rest);
    assert(segments(input) =~= seq![scheme(secure), host, id + kept]);
    assert((id + kept).take(VIDEO_ID_LEN as int) =~= id);
    assert(kept.len() > 0 ==> kept[0] == rest[0]);
}

/// Text of three segments with one of the two hosts in the middle names no
/// identifier where its scheme does not begin with `http`, where it has the
/// long host and its last segment does not begin with `watch?v=`, or where
/// fewer than eleven bytes are left to take the identifier from.
pub proof fn lemma_rejected_links(input: Seq<u8>)
    requires
        segments(input).len() == 3,
        segments(input)[1] == LONG_HOST.spec_bytes() || segments(input)[1]
            == SHORT_HOST.spec_bytes(),
    ensures
        !SCHEME_START.spec_bytes().is_prefix_of(segments(input)[0]) ==> video_id_in(input) is None,
        segments(input)[1] == LONG_HOST.spec_bytes() && !WATCH_PREFIX.spec_bytes().is_prefix_of(
            segments(input)[2],
        ) ==> video_id_in(input) is None,
        segments(input)[1] == LONG_HOST.spec_bytes() && segments(input)[2].len()
            < WATCH_PREFIX.spec_bytes().len() + VIDEO_ID_LEN ==> video_id_in(input) is None,
        segments(input)[1] == SHORT_HOST.spec_bytes() && segments(input)[2].len() < VIDEO_ID_LEN
            ==> video_id_in(input) is None,
{
    lemma_fixed_pieces();
}

/// An identifier that was found names itself: looking for an identifier in
/// it finds it again.
pub proof fn lemma_found_names_itself(input: Seq<u8>)
    ensures
        video_id_in(input) matches Some(id) ==> video_id_in(id) == Some(id),
{
    lemma_found_is_video_id(input);
    if video_id_in(input) is Some {
        lemma_bare_identifier(video_id_in(input).unwrap());
    }
}

/// Whether `id` is a video identifier written in ASCII: eleven characters,
/// none of them `/`.
pub open spec fn is_video_id_text(id: Seq<char>) -> bool {
    id.len() == VIDEO_ID_LEN && is_ascii_chars(id) && forall|i: int|
        0 <= i < id.len() ==> id[i] != '/'
}

/// A video identifier written in ASCII has the shape of one in bytes: each
/// character is one byte.
pub proof fn lemma_video_id_text(id: Seq<char>)
    requires
        is_video_id_text(id),
    ensures
        is_video_id(encode_utf8(id)),
{
    is_ascii_chars_encode_utf8(id);
}

/// Text of eleven ASCII characters without `/` is the identifier that it
/// names.
pub proof fn lemma_bare_identifier_text(text: &str)
    requires
        is_video_id_text(text@),
    ensures
        video_id_in(text.spec_bytes()) == Some(text.spec_bytes()),
{
    lemma_video_id_text(text@);
    lemma_bare_identifier(text.spec_bytes());
}

/// Text that is the head of a full link, then eleven ASCII characters
/// without `/`, then any text that opens no further segment, names those
/// eleven characters.
pub proof fn lemma_full_link_text(secure: bool, id: &str, rest: &str, link: &str)
    requires
        is_video_id_text(id@),
        ends_in_separators(rest.spec_bytes()),
        link@ == (if secure {
            "https://www.youtube.com/watch?v="@
        } else {
            "http://www.youtube.com/watch?v="@
        }) + id@ + rest@,
    ensures
        video_id_in(link.spec_bytes()) == Some(id.spec_bytes()),
{
    let head = if secure {
        "https://www.youtube.com/watch?v="@
    } else {
        "http://www.youtube.com/watch?v="@
    };
    lemma_bytes_of_concat(head + id@, rest@);
    lemma_bytes_of_concat(head, id@);
    lemma_video_id_text(id@);
    encode_utf8_valid_utf8(rest@);
    lemma_cut_at_ends(rest.spec_bytes());
    lemma_full_link(secure, id.spec_bytes(), rest.spec_bytes());
}

/// Text that is the head of a short link, then eleven ASCII characters
/// without `/`, then any text that opens no further segment, names those
/// eleven characters.
pub proof fn lemma_short_link_text(secure: bool, id: &str, rest: &str, link: &str)
    requires
        is_video_id_text(id@),
        ends_in_separators(rest.spec_bytes()),
        link@ == (if secure {
            "https://youtu.be/"@
        } else {
            "http://youtu.be/"@
        }) + id@ + rest@,
    ensures
        video_id_in(link.spec_bytes()) == Some(id.spec_bytes()),
{
    let head = if secure {
        "https://youtu.be/"@
    } else {
        "http://youtu.be/"@
    };
    lemma_bytes_of_concat(head + id@, rest@);
    lemma_bytes_of_concat(head, id@);
    lemma_video_id_text(id@);
    encode_utf8_valid_utf8(rest@);
    lemma_cut_at_ends(rest.spec_bytes());
    lemma_short_link(secure, id.spec_bytes(), rest.spec_bytes());
}

} // verus!
