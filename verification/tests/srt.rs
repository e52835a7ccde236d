use subtitle_translator::srt::{
    compose, format_timecode, is_sentinel, make_sentinel, ms_to_hms, parse, parse_timecode, sanitize_content,
    sort_and_reindex, srt_file_text, strip_sentinel, with_sentinel, Subtitle, SENTINEL_TEXT,
};

fn sub(index: u32, start_ms: u64, end_ms: u64, content: &str) -> Subtitle {
    Subtitle { index, start_ms, end_ms, content: content.to_string() }
}

#[test]
fn timecode_roundtrip() {
    assert_eq!(format_timecode(3_661_500), "01:01:01,500");
    assert_eq!(parse_timecode("01:01:01,500"), Some(3_661_500));
    assert_eq!(parse_timecode("00:00:01.250"), Some(1250));
}

#[test]
fn parse_and_compose_roundtrip() {
    let text = "1\n00:00:01,000 --> 00:00:02,000\nHello\n\n2\n00:00:03,000 --> 00:00:04,000\nWorld\nsecond line\n";
    let subs = parse(text);
    assert_eq!(subs.len(), 2);
    assert_eq!(subs[0].content, "Hello");
    assert_eq!(subs[1].content, "World\nsecond line");
    let composed = compose(&subs);
    let reparsed = parse(&composed);
    assert_eq!(reparsed.len(), 2);
    assert_eq!(reparsed[1].content, "World\nsecond line");
}

#[test]
fn reindex_sorts_and_numbers() {
    let subs = vec![sub(99, 5000, 6000, "b"), sub(3, 1000, 2000, "a")];
    let out = sort_and_reindex(subs);
    assert_eq!(out[0].index, 1);
    assert_eq!(out[0].content, "a");
    assert_eq!(out[1].index, 2);
}

#[test]
fn sanitize_strips_index_and_timestamp_lines() {
    let raw = "12\n00:00:01,000 --> 00:00:02,000\nReal text\nMore text";
    assert_eq!(sanitize_content(raw), "Real text\nMore text");
    assert_eq!(sanitize_content(""), "");
    assert_eq!(sanitize_content("Hello 123"), "Hello 123");
}

#[test]
fn sanitize_needs_spaces_around_the_arrow() {
    assert_eq!(sanitize_content("00:00:01,000-->00:00:02,000\nText"), "00:00:01,000-->00:00:02,000\nText");
    assert_eq!(sanitize_content("00:00:01,000 -->00:00:02,000\nText"), "00:00:01,000 -->00:00:02,000\nText");
    assert_eq!(sanitize_content("  0:00:01.000\t-->  00:00:02,000 \nText"), "Text");
}

#[test]
fn compose_writes_exact_blocks() {
    let subs = vec![sub(7, 0, 1500, "Hi"), sub(8, 3_600_000, 3_600_001, "a\r\nb")];
    assert_eq!(
        compose(&subs),
        "7\n00:00:00,000 --> 00:00:01,500\nHi\n\n8\n01:00:00,000 --> 01:00:00,001\na\nb\n\n"
    );
}

#[test]
fn compose_then_parse_gives_the_same_cues() {
    let subs = vec![sub(4, 10, 20, "one"), sub(9, 30, 40, ""), sub(2, 50, 60, "x\ny")];
    assert_eq!(parse(&compose(&subs)), subs);
}

#[test]
fn parse_numbers_unnumbered_blocks_and_skips_garbage() {
    let text = "garbage line\n\n00:00:01,000 --> 00:00:02,000 X1:10\nA\n\n7\nnot a timing\n\n00:00:03,000 --> 00:00:04,000\nB\n";
    let subs = parse(text);
    assert_eq!(subs.len(), 2);
    assert_eq!(subs[0].index, 1);
    assert_eq!(subs[0].end_ms, 2000);
    assert_eq!(subs[1].index, 2);
    assert_eq!(subs[1].content, "B");
}

#[test]
fn parse_handles_crlf_and_short_fractions() {
    let subs = parse("1\r\n00:00:01,5 --> 00:00:02,1234\r\nHi\r\n");
    assert_eq!(subs.len(), 1);
    assert_eq!(subs[0].start_ms, 1500);
    assert_eq!(subs[0].end_ms, 2123);
}

#[test]
fn parse_timecode_rejects_malformed() {
    assert_eq!(parse_timecode("1:2"), None);
    assert_eq!(parse_timecode("a:00:00,000"), None);
    assert_eq!(parse_timecode(" 00:01:00 "), Some(60_000));
}

#[test]
fn crlf_file_text_ends_with_newline() {
    let subs = vec![sub(1, 0, 1000, "A")];
    assert_eq!(srt_file_text(&subs), "1\r\n00:00:00,000 --> 00:00:01,000\r\nA\r\n\r\n");
}

#[test]
fn sentinel_appended_and_stripped() {
    let existing = vec![sub(1, 0, 1000, "A"), make_sentinel(1000)];
    assert!(is_sentinel(&existing[1]));
    let new = vec![sub(0, 2000, 3000, "B")];
    let out = with_sentinel(existing, &new);
    assert_eq!(out.len(), 3);
    assert_eq!(out[2].content, SENTINEL_TEXT);
    assert_eq!(out[2].start_ms, 3001);
    assert_eq!(out[2].end_ms, 3000 + 4 * 3_600_000);
    assert_eq!(out[1].index, 2);
    let back = strip_sentinel(out);
    assert_eq!(back.len(), 2);
    assert_eq!(back[1].content, "B");
}

#[test]
fn ms_to_hms_formats() {
    assert_eq!(ms_to_hms(3_723_999), "01:02:03");
    assert_eq!(ms_to_hms(0), "00:00:00");
}

#[test]
fn sort_is_stable_for_equal_times() {
    let out = sort_and_reindex(vec![sub(5, 10, 20, "first"), sub(1, 10, 20, "second"), sub(2, 5, 30, "zero")]);
    assert_eq!(out[0].content, "zero");
    assert_eq!(out[1].content, "first");
    assert_eq!(out[2].content, "second");
}

/// The file the live writer produces (CRLF line endings) reads back to the
/// cues translated so far once its pause cue is dropped.
#[test]
fn live_file_reads_back() {
    let existing = with_sentinel(Vec::new(), &[sub(0, 0, 1000, "Hello"), sub(0, 1000, 2000, "Two\nlines")]);
    let file = srt_file_text(&existing);
    assert!(file.contains("\r\n"));
    let back = strip_sentinel(parse(&file));
    assert_eq!(back.len(), 2);
    assert_eq!((back[0].index, back[0].start_ms, back[0].end_ms, back[0].content.as_str()), (1, 0, 1000, "Hello"));
    assert_eq!((back[1].index, back[1].start_ms, back[1].end_ms, back[1].content.as_str()), (2, 1000, 2000, "Two\nlines"));
    let more = with_sentinel(parse(&file), &[sub(0, 2000, 3000, "Three")]);
    let back = strip_sentinel(parse(&srt_file_text(&more)));
    assert_eq!(back.len(), 3);
    assert_eq!((back[2].index, back[2].content.as_str()), (3, "Three"));
    assert!(parse(&srt_file_text(&[])).is_empty());
}

#[test]
fn sanitize_twice_is_sanitize_once() {
    for raw in ["12\n00:00:01,000 --> 00:00:02,000\nReal text\r\n\r\nMore text", "", "\n", "1\n2\nHi", "Hello 123\r"] {
        let once = sanitize_content(raw);
        assert_eq!(sanitize_content(&once), once);
    }
}
