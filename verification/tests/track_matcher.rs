use subtitle_translator::track_matcher::best_candidate;
use subtitle_translator::ffmpeg::Stream;
use subtitle_translator::track_matcher::{match_initial_state, pick_source_subtitle_stream, stream_match_key, TrackPref};

fn stream(index: i64, lang: &str, title: &str, codec: &str) -> Stream {
    let mut tags = Vec::new();
    if !lang.is_empty() {
        tags.push(("language".to_string(), lang.to_string()));
    }
    if !title.is_empty() {
        tags.push(("title".to_string(), title.to_string()));
    }
    Stream {
        index,
        codec_name: codec.to_string(),
        codec_type: "subtitle".to_string(),
        disposition: Vec::new(),
        tags,
    }
}

fn key(a: &str, b: &str, c: &str) -> (String, String, String) {
    (a.to_string(), b.to_string(), c.to_string())
}

#[test]
fn carry_over_exact_match() {
    let streams = vec![stream(2, "eng", "Full", "subrip")];
    let prev = vec![(key("eng", "Full", "subrip"), TrackPref { translate: true, delete: false })];
    let state = match_initial_state(&streams, &prev);
    assert!(state.get(&2).unwrap().translate);
}

#[test]
fn empty_lang_tag_becomes_und() {
    let s = stream(1, "", "", "subrip");
    let key = stream_match_key(&s);
    assert_eq!(key.0, "und");
}

#[test]
fn codec_diff_breaks_match() {
    let streams = vec![stream(2, "eng", "Full", "ass")];
    let prev = vec![(key("eng", "Full", "subrip"), TrackPref { translate: true, delete: false })];
    let state = match_initial_state(&streams, &prev);
    assert!(!state.get(&2).unwrap().translate);
}

#[test]
fn pick_prefers_english_full_over_sdh() {
    let streams = vec![stream(0, "eng", "SDH", "subrip"), stream(1, "eng", "Full", "subrip"), stream(2, "ger", "", "subrip")];
    assert_eq!(pick_source_subtitle_stream(&streams, "ru"), Some(1));
}

#[test]
fn pick_skips_target_and_ass() {
    let streams = vec![stream(0, "rus", "", "subrip"), stream(1, "eng", "", "ass"), stream(2, "ger", "", "subrip")];
    assert_eq!(pick_source_subtitle_stream(&streams, "rus"), Some(2));
}

#[test]
fn pick_none_when_nothing_fits() {
    let streams = vec![stream(0, "rus", "", "subrip")];
    assert_eq!(pick_source_subtitle_stream(&streams, "rus"), None);
}

#[test]
fn pick_ranks_hearing_impaired_flag_and_titles() {
    let mut sdh_flag = stream(3, "en", "", "subrip");
    sdh_flag.disposition.push(("hearing_impaired".to_string(), 1));
    let streams = vec![sdh_flag, stream(5, "en", "Forced", "subrip"), stream(4, "fre", "", "SSA")];
    assert_eq!(pick_source_subtitle_stream(&streams, ""), Some(5));
    assert_eq!(pick_source_subtitle_stream(&[stream(9, "", "", "subrip")], "ru"), Some(9));
    assert_eq!(pick_source_subtitle_stream(&[stream(9, "", "", "subrip")], " "), Some(9));
}

#[test]
fn initial_state_is_keyed_and_ordered_by_index() {
    let streams = vec![stream(7, "eng", "", "subrip"), stream(3, "", "", "subrip"), stream(7, "ger", "", "subrip")];
    let prev = vec![
        (key("und", "", "subrip"), TrackPref { translate: false, delete: true }),
        (key("ger", "", "subrip"), TrackPref { translate: true, delete: false }),
    ];
    let state = match_initial_state(&streams, &prev);
    assert_eq!(state.len(), 2);
    let entries: Vec<(i64, TrackPref)> = state.into_iter().collect();
    assert_eq!(entries[0], (3, TrackPref { translate: false, delete: true }));
    assert_eq!(entries[1], (7, TrackPref { translate: true, delete: false }));
}

#[test]
fn untagged_stream_is_a_source() {
    let streams = vec![stream(0, "", "", "subrip"), stream(1, "rus", "", "subrip")];
    assert_eq!(pick_source_subtitle_stream(&streams, "ru"), Some(0));
}

#[test]
fn best_candidate_by_key() {
    assert_eq!(best_candidate(&[]), None);
    assert_eq!(best_candidate(&[(false, (0, 0, 1))]), None);
    assert_eq!(best_candidate(&[(true, (1, 0, 2)), (true, (0, 2, 5)), (false, (0, 0, 1))]), Some(5));
    assert_eq!(best_candidate(&[(true, (0, 1, 3)), (true, (0, 0, 7))]), Some(7));
    assert_eq!(best_candidate(&[(true, (0, 0, 7)), (true, (0, 0, 3))]), Some(3));
}
