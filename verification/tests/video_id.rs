use rusty_reel::dearrow_api::{DeArrowApiError, VideoId};

fn parsed(text: &str) -> String {
    match VideoId::try_from(text) {
        Ok(id) => id.as_str().to_string(),
        Err(error) => panic!("{:?} for {:?}", error, text),
    }
}

fn rejected(text: &str) {
    match VideoId::try_from(text) {
        Ok(id) => panic!("{:?} out of {:?}", id, text),
        Err(DeArrowApiError::VideoIdParseError(kept)) => assert_eq!(kept, text),
        Err(other) => panic!("{:?} for {:?}", other, text),
    }
}

#[test]
fn full_youtube_url_into_video_id() -> Result<(), DeArrowApiError> {
    let vid = VideoId::try_from("https://www.youtube.com/watch?v=oBnCgu7bdQk")?;
    assert_eq!(vid.as_str(), "oBnCgu7bdQk");
    Ok(())
}

#[test]
fn short_youtube_url_into_video_id() -> Result<(), DeArrowApiError> {
    let vid = VideoId::try_from("https://youtu.be/_u6f9beKbwg?si=cQn5mAT_Q5pusqRy")?;
    assert_eq!(vid.as_str(), "_u6f9beKbwg");
    Ok(())
}

#[test]
fn normal_video_id() -> Result<(), DeArrowApiError> {
    let vid = VideoId::try_from("7sAxhu04SlM")?;
    assert_eq!(vid.as_str(), "7sAxhu04SlM");
    Ok(())
}

#[test]
fn dearrow_api_full_youtube_url_into_video_id() -> Result<(), DeArrowApiError> {
    VideoId::try_from("https://www.youtube.com/watch?v=oBnCgu7bdQk").and(Ok(()))
}

#[test]
fn dearrow_api_short_youtube_url_into_video_id() -> Result<(), DeArrowApiError> {
    VideoId::try_from("https://youtu.be/_u6f9beKbwg?si=cQn5mAT_Q5pusqRy").and(Ok(()))
}

#[test]
fn text_that_is_no_link_is_rejected_with_the_text() {
    match VideoId::try_from("not a url") {
        Err(DeArrowApiError::VideoIdParseError(kept)) => assert_eq!(kept, "not a url"),
        other => panic!("{:?}", other),
    }
}

#[test]
fn scheme_that_does_not_begin_with_http_is_rejected() {
    rejected("ftp://www.youtube.com/watch?v=oBnCgu7bdQk");
    rejected("ftp://youtu.be/_u6f9beKbwg");
    rejected("htt://youtu.be/_u6f9beKbwg");
    rejected("Https://youtu.be/_u6f9beKbwg");
    rejected("xhttp://youtu.be/_u6f9beKbwg");
}

#[test]
fn scheme_only_has_to_begin_with_http() {
    assert_eq!(parsed("http://www.youtube.com/watch?v=oBnCgu7bdQk"), "oBnCgu7bdQk");
    assert_eq!(parsed("http://youtu.be/_u6f9beKbwg"), "_u6f9beKbwg");
    assert_eq!(parsed("http/youtu.be/_u6f9beKbwg"), "_u6f9beKbwg");
    assert_eq!(parsed("httpx:youtu.be:/youtu.be/_u6f9beKbwg"), "_u6f9beKbwg");
}

#[test]
fn what_follows_the_identifier_is_ignored() {
    assert_eq!(parsed("https://www.youtube.com/watch?v=imptKC2WKY4&t=142s"), "imptKC2WKY4");
    assert_eq!(parsed("https://www.youtube.com/watch?v=oBnCgu7bdQk#t=10"), "oBnCgu7bdQk");
    assert_eq!(parsed("https://www.youtube.com/watch?v=oBnCgu7bdQkoBnCgu7bdQk"), "oBnCgu7bdQk");
    assert_eq!(parsed("https://youtu.be/_u6f9beKbwg&list=x"), "_u6f9beKbwg");
}

#[test]
fn separators_at_the_end_leave_no_segment() {
    assert_eq!(parsed("https://www.youtube.com/watch?v=oBnCgu7bdQk/"), "oBnCgu7bdQk");
    assert_eq!(parsed("https://youtu.be/_u6f9beKbwg?si=1///"), "_u6f9beKbwg");
    assert_eq!(parsed("7sAxhu04SlM/"), "7sAxhu04SlM");
}

#[test]
fn leading_and_doubled_separators_leave_no_segment() {
    assert_eq!(parsed("/7sAxhu04SlM"), "7sAxhu04SlM");
    assert_eq!(parsed("///7sAxhu04SlM//"), "7sAxhu04SlM");
    assert_eq!(parsed("/https:/youtu.be///_u6f9beKbwg"), "_u6f9beKbwg");
    assert_eq!(parsed("https:////www.youtube.com//watch?v=oBnCgu7bdQk"), "oBnCgu7bdQk");
}

#[test]
fn a_segment_behind_the_identifier_is_one_too_many() {
    rejected("https://www.youtube.com/watch?v=oBnCgu7bdQk/more");
    rejected("https://youtu.be/_u6f9beKbwg/more");
    rejected("https://youtu.be/_u6f9beKbwg//x");
    rejected("7sAxhu04SlM/7sAxhu04SlM");
}

#[test]
fn a_link_without_scheme_has_one_segment_too_few() {
    rejected("youtu.be/_u6f9beKbwg");
    rejected("www.youtube.com/watch?v=oBnCgu7bdQk");
}

#[test]
fn full_link_needs_the_watch_prefix() {
    rejected("https://www.youtube.com/embed/oBnCgu7bdQk");
    rejected("https://www.youtube.com/oBnCgu7bdQk");
    rejected("https://www.youtube.com/watch?x=oBnCgu7bdQk");
    rejected("https://www.youtube.com/Watch?v=oBnCgu7bdQk");
    rejected("https://www.youtube.com/ watch?v=oBnCgu7bdQk");
    rejected("https://www.youtube.com/watch?v");
}

#[test]
fn fewer_than_eleven_bytes_are_rejected() {
    rejected("https://www.youtube.com/watch?v=oBnCgu7bdQ");
    rejected("https://www.youtube.com/watch?v=");
    rejected("https://youtu.be/_u6f9beKbw");
    rejected("https://youtu.be/x");
    rejected("7sAxhu04Sl");
    rejected("");
    rejected("/");
    rejected("//");
}

#[test]
fn a_bare_identifier_has_exactly_eleven_bytes() {
    rejected("7sAxhu04SlM7");
    rejected("7sAxhu04SlM&t=1");
    assert_eq!(parsed("0123456789a"), "0123456789a");
}

#[test]
fn other_hosts_are_not_recognised() {
    rejected("https://youtube.com/watch?v=oBnCgu7bdQk");
    rejected("https://m.youtube.com/watch?v=oBnCgu7bdQk");
    rejected("https://www.youtu.be/_u6f9beKbwg");
    rejected("https://WWW.YOUTUBE.COM/watch?v=oBnCgu7bdQk");
    rejected("https://youtu.be:443/_u6f9beKbwg");
    rejected("https://example.org/7sAxhu04SlM");
}

#[test]
fn the_short_host_takes_no_watch_prefix_away() {
    assert_eq!(parsed("https://youtu.be/watch?v=oBnCgu7bdQk"), "watch?v=oBn");
}

#[test]
fn the_bytes_of_an_identifier_are_not_looked_at() {
    assert_eq!(parsed("???????????"), "???????????");
    assert_eq!(parsed("not-a-url !"), "not-a-url !");
    assert_eq!(parsed("https://youtu.be/           "), "           ");
    assert_eq!(parsed("https://www.youtube.com/watch?v=watch?v=abc"), "watch?v=abc");
}

#[test]
fn eleven_counts_bytes() {
    assert_eq!(parsed("\u{e9}\u{e9}\u{e9}\u{e9}\u{e9}x"), "\u{e9}\u{e9}\u{e9}\u{e9}\u{e9}x");
    assert_eq!(parsed("https://youtu.be/x\u{e9}\u{e9}\u{e9}\u{e9}\u{e9}\u{e9}"), "x\u{e9}\u{e9}\u{e9}\u{e9}\u{e9}");
    rejected("\u{e9}\u{e9}\u{e9}\u{e9}\u{e9}\u{e9}\u{e9}\u{e9}\u{e9}\u{e9}\u{e9}");
    rejected("abcdefghij\u{e9}");
}

#[test]
fn an_identifier_is_not_cut_inside_a_character() {
    rejected("https://youtu.be/\u{e9}\u{e9}\u{e9}\u{e9}\u{e9}\u{e9}");
    rejected("https://youtu.be/0123456789\u{e9}");
    rejected("https://www.youtube.com/watch?v=0123456789\u{20ac}");
    assert_eq!(parsed("https://www.youtube.com/watch?v=01234567\u{20ac}\u{20ac}"), "01234567\u{20ac}");
    assert_eq!(parsed("https://youtu.be/0123456789a\u{e9}"), "0123456789a");
}

#[test]
fn parsing_an_identifier_again_gives_it_back() {
    for text in [
        "https://www.youtube.com/watch?v=oBnCgu7bdQk",
        "https://youtu.be/_u6f9beKbwg?si=cQn5mAT_Q5pusqRy",
        "7sAxhu04SlM",
        "https://youtu.be/watch?v=oBnCgu7bdQk",
        "http://youtu.be/x\u{e9}\u{e9}\u{e9}\u{e9}\u{e9}\u{e9}",
    ] {
        let first = parsed(text);
        assert_eq!(parsed(&first), first);
    }
}

#[test]
fn the_identifier_borrows_from_the_text() {
    let text = String::from("https://youtu.be/_u6f9beKbwg?si=cQn5mAT_Q5pusqRy");
    let id = VideoId::try_from(text.as_str()).unwrap();
    let inside = id.as_str().as_ptr() as usize;
    let start = text.as_ptr() as usize;
    assert_eq!(inside, start + 17);
    assert_eq!(id.as_str().len(), 11);
    let copy = id;
    assert_eq!(copy.as_str(), id.as_str());
}

#[test]
fn the_error_says_which_text_was_wrong() {
    let error = VideoId::try_from("not a url").unwrap_err();
    assert_eq!(error.message(), "Error: `not a url` is not a valid youtube url or video ID");
    let error = VideoId::try_from("").unwrap_err();
    assert_eq!(error.message(), "Error: `` is not a valid youtube url or video ID");
}
