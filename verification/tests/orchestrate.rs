use subtitle_translator::orchestrate::{cancel_error, check_composed, check_parsed, overwrite_outcome, CancelPoint, OverwriteCheck};
use subtitle_translator::ffmpeg::Stream;
use subtitle_translator::orchestrate::{
    basename, final_title, is_mkv, iso3_from_reply, lang_meta_after_reply, normalize_iso3_reply, output_mkv_path,
    source_title, stream_srt_path, strip_ext, tag_cache_hit, tag_lang_from_reply, track_iso3, translated_srt_path,
};

fn stream(index: i64, title: &str) -> Stream {
    let mut tags = Vec::new();
    if !title.is_empty() {
        tags.push(("title".to_string(), title.to_string()));
    }
    Stream { index, codec_name: "subrip".into(), codec_type: "subtitle".into(), disposition: Vec::new(), tags }
}

#[test]
fn strip_ext_and_basename() {
    assert_eq!(strip_ext("/a/b/movie.mkv"), "/a/b/movie");
    assert_eq!(strip_ext("/a.d/movie"), "/a.d/movie");
    assert_eq!(strip_ext("/a/.hidden"), "/a/.hidden");
    assert_eq!(strip_ext("C:\\x\\y.srt"), "C:\\x\\y");
    assert_eq!(strip_ext("noext"), "noext");
    assert_eq!(basename("/a/b/c.mkv"), "c.mkv");
    assert_eq!(basename("C:\\x\\y.srt"), "y.srt");
    assert_eq!(basename("plain"), "plain");
    assert_eq!(basename("/dir/"), "");
}

#[test]
fn output_paths() {
    assert_eq!(translated_srt_path("/m/film.mkv.stream3.srt", "ru", false), "/m/film.mkv.stream3.ru.translated.srt");
    assert_eq!(translated_srt_path("/m/film.srt", "ru", false), "/m/film.ru.translated.srt");
    assert_eq!(translated_srt_path("/m/film.srt", "ru", true), "/m/film.srt");
    assert_eq!(translated_srt_path("C:\\m\\film.str", "th", true), "C:\\m\\film.str");
    assert_eq!(output_mkv_path("/m/film.mkv", true), "/m/film.__tmp_translated__.mkv");
    assert_eq!(output_mkv_path("/m/film.mkv", false), "/m/film.translated.mkv");
    assert_eq!(stream_srt_path("/m/film.mkv", 3), "/m/film.stream3.srt");
}

#[test]
fn track_title_and_tags() {
    let streams = vec![stream(1, ""), stream(2, "Full"), stream(2, "Other")];
    assert_eq!(source_title(&streams, Some(2)).as_deref(), Some("Full"));
    assert_eq!(source_title(&streams, Some(1)), None);
    assert_eq!(source_title(&streams, None), None);
    assert_eq!(final_title(Some("Full"), "rus", "russian"), "Full | Translated [rus] (russian)");
    assert_eq!(final_title(None, "und", "und"), "Translated [und] (und)");
}

#[test]
fn tag_phrase_cleanup() {
    assert_eq!(tag_lang_from_reply(Some("  Russian, No Profanity!  "), "x"), "russian no profanity");
    assert_eq!(tag_lang_from_reply(Some("日本語"), "Japanese  "), "japanese");
    assert_eq!(tag_lang_from_reply(None, "русский"), "und");
    assert_eq!(
        tag_lang_from_reply(Some("a very long language description that keeps going"), ""),
        "a very long language descripti"
    );
}

#[test]
fn iso3_codes() {
    assert_eq!(normalize_iso3_reply(" RUS "), "rus");
    assert_eq!(normalize_iso3_reply("und"), "und");
    assert_eq!(normalize_iso3_reply("the code is: jpn."), "the");
    assert_eq!(normalize_iso3_reply("Код: rus"), "rus");
    assert_eq!(normalize_iso3_reply("??"), "und");
    assert_eq!(iso3_from_reply(Some("Eng")), "eng");
    assert_eq!(iso3_from_reply(Some("english")), "und");
    assert_eq!(iso3_from_reply(None), "und");
    assert_eq!(track_iso3("rus"), "rus");
    assert_eq!(track_iso3("ru"), "und");
    assert_eq!(track_iso3("r1s"), "und");
}

#[test]
fn tag_cache_reuse() {
    assert!(tag_cache_hit("ru", "russian", "rus", "ru"));
    assert!(!tag_cache_hit("ru", "", "rus", "ru"));
    assert!(!tag_cache_hit("de", "german", "ger", "ru"));
}

#[test]
fn lang_meta_after_a_reply() {
    let (m, blob) = lang_meta_after_reply(Some(r#"{"name":"Thai","ranges":[[3585,3675]]}"#), "th", "old");
    assert_eq!(m.name, "Thai");
    assert_eq!(blob, r#"{"input":"th","name":"Thai","ranges":[[3585,3675]]}"#);
    let (m2, blob2) = lang_meta_after_reply(None, "th", "old");
    assert!(m2.name.is_empty() && m2.ranges.is_empty());
    assert_eq!(blob2, "old");
}

#[test]
fn is_mkv_by_extension() {
    assert!(is_mkv(Some("/films/a.mkv")));
    assert!(is_mkv(Some("C:\\films\\A.MKV")));
    assert!(is_mkv(Some("movie.MkV")));
    assert!(!is_mkv(Some("/films/a.srt")));
    assert!(!is_mkv(Some("/films/a.mkv.part")));
    assert!(!is_mkv(Some("/films/.mkv")));
    assert!(!is_mkv(Some("/films.mkv/a")));
    assert!(!is_mkv(Some("/films/a.mkvx")));
    assert!(!is_mkv(None));
}

#[test]
fn run_checks_and_messages() {
    assert_eq!(cancel_error(CancelPoint::Start), "Cancelled.");
    assert_eq!(cancel_error(CancelPoint::BeforeWrite), "Cancelled before writing SRT.");
    assert_eq!(cancel_error(CancelPoint::BeforeRemux), "Cancelled before remux.");
    assert_eq!(check_parsed(0), Err("No subtitles parsed from SRT".to_string()));
    assert_eq!(check_parsed(3), Ok(()));
    assert_eq!(check_composed(3, 3), Ok(()));
    assert_eq!(check_composed(3, 2), Err("Generated SRT is invalid: expected 3 entries, got 2".to_string()));
}

#[test]
fn overwrite_outcomes() {
    assert_eq!(
        overwrite_outcome(OverwriteCheck::Renamed, "/m/a.tmp.mkv", "/m/a.mkv"),
        ("/m/a.mkv".to_string(), "Original MKV has been overwritten with translated version.".to_string())
    );
    assert_eq!(
        overwrite_outcome(OverwriteCheck::RenameFailed("denied".to_string()), "/m/a.tmp.mkv", "/m/a.mkv"),
        (
            "/m/a.tmp.mkv".to_string(),
            "[Warning] Could not overwrite original file: denied. Keeping new file as /m/a.tmp.mkv".to_string()
        )
    );
    assert_eq!(
        overwrite_outcome(OverwriteCheck::TempMissing, "/m/a.tmp.mkv", "/m/a.mkv").0,
        "/m/a.tmp.mkv"
    );
}
