use subtitle_translator::feed::{
    ahead_of_playback, embedded_target, feed_step, loop_config, progress_percent, stable_for, unnumbered, FeedStep,
};
use subtitle_translator::ffmpeg::Stream;
use subtitle_translator::srt::Subtitle;

fn sub(index: u32, start_ms: u64, end_ms: u64, content: &str) -> Subtitle {
    Subtitle { index, start_ms, end_ms, content: content.to_string() }
}

#[test]
fn loop_config_clamps() {
    let c = loop_config(1, 60, 0, 4, 0);
    assert_eq!(c.poll_interval, 5);
    assert_eq!(c.stable_threshold, 60);
    assert_eq!(c.window, 1);
    assert_eq!(c.threshold, 5);
    assert_eq!(c.buffer_sec, 60);
    assert_eq!(loop_config(30, 30, 25, 10, 10).threshold, 35);
}

#[test]
fn stability_counter() {
    assert_eq!(stable_for(true, 90, 30), 0);
    assert_eq!(stable_for(false, 90, 30), 120);
}

#[test]
fn feed_steps() {
    assert_eq!(feed_step(0, 20, 25, 35, false, None), FeedStep::Accumulate { have: 20, need: 35 });
    assert_eq!(feed_step(0, 60, 25, 35, false, None), FeedStep::Translate { count: 50 });
    assert_eq!(feed_step(50, 60, 25, 35, false, None), FeedStep::NeedMore { missing: 15, have: 10 });
    assert_eq!(feed_step(50, 60, 25, 35, true, None), FeedStep::Translate { count: 10 });
    assert_eq!(feed_step(60, 60, 25, 35, true, None), FeedStep::Idle);
    assert_eq!(feed_step(70, 60, 25, 35, true, None), FeedStep::Idle);
    assert_eq!(feed_step(50, 80, 25, 35, false, Some((700, 600))), FeedStep::BufferOk { ahead_sec: 700 });
    assert_eq!(feed_step(50, 80, 25, 35, false, Some((100, 600))), FeedStep::Translate { count: 25 });
}

#[test]
fn playback_buffer_and_progress() {
    let all = vec![sub(1, 0, 61_999, "a"), sub(2, 62_000, 125_500, "b")];
    assert_eq!(ahead_of_playback(&all, 0, 10), -10);
    assert_eq!(ahead_of_playback(&all, 2, 25), 100);
    assert_eq!(progress_percent(1, 3), 33);
    assert_eq!(progress_percent(5, 3), 100);
    assert_eq!(progress_percent(0, 0), 0);
}

#[test]
fn appended_cues_are_unnumbered() {
    let out = unnumbered(&[sub(7, 1, 2, "x")]);
    assert_eq!(out, vec![sub(0, 1, 2, "x")]);
}

#[test]
fn embedded_target_language_track() {
    let s = |i: i64, l: &str| Stream {
        index: i,
        codec_name: "subrip".into(),
        codec_type: "subtitle".into(),
        disposition: vec![],
        tags: vec![("language".to_string(), l.to_string())],
    };
    let streams = vec![s(0, "eng"), s(1, " RUS "), s(2, "")];
    assert_eq!(embedded_target(&streams, "ru"), Some(1));
    assert_eq!(embedded_target(&streams, "ger"), None);
    assert_eq!(embedded_target(&streams, ""), Some(0));
}

#[test]
fn progress_percent_large_counts() {
    assert_eq!(progress_percent(usize::MAX, usize::MAX), 100);
    assert_eq!(progress_percent(usize::MAX / 2, usize::MAX), 49);
    assert_eq!(progress_percent(usize::MAX, 0), 100);
}
