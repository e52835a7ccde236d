use subtitle_translator::feed::{
    feed_done, feed_plan, feed_poll, feed_start, follow_plan, loop_config, FeedStep, FileCheck, FollowPlan,
};
use subtitle_translator::ffmpeg::Stream;

fn stream(index: i64, lang: &str, codec: &str) -> Stream {
    let mut tags = Vec::new();
    if !lang.is_empty() {
        tags.push(("language".to_string(), lang.to_string()));
    }
    Stream { index, codec_name: codec.to_string(), codec_type: "subtitle".to_string(), disposition: vec![], tags }
}

#[test]
fn poll_counts_unchanged_time_and_announces_once() {
    let cfg = loop_config(30, 60, 10, 4, 10);
    let st = feed_start(7);
    assert_eq!((st.translated, st.stable_for, st.stable_announced), (7, 0, false));
    let (st, o) = feed_poll(st, FileCheck::Seen { changed: true }, &cfg);
    assert!(o.growing && !o.stable && !o.announce_stable && !o.gone);
    let (st, o) = feed_poll(st, FileCheck::Seen { changed: false }, &cfg);
    assert_eq!(st.stable_for, 30);
    assert!(!o.stable && !o.growing);
    let (st, o) = feed_poll(st, FileCheck::Seen { changed: false }, &cfg);
    assert!(o.stable && o.announce_stable);
    let (st, o) = feed_poll(st, FileCheck::Seen { changed: false }, &cfg);
    assert!(o.stable && !o.announce_stable);
    assert_eq!(st.stable_for, 90);
    let (st2, o) = feed_poll(st, FileCheck::Missing, &cfg);
    assert!(o.gone);
    assert_eq!(st2, st);
    let (st, o) = feed_poll(st, FileCheck::Seen { changed: true }, &cfg);
    assert!(o.growing && !o.stable);
    assert_eq!((st.stable_for, st.stable_announced, st.translated), (0, false, 7));
    let mut near = st;
    near.stable_for = u64::MAX - 1;
    assert_eq!(feed_poll(near, FileCheck::Seen { changed: false }, &cfg).0.stable_for, u64::MAX);
}

#[test]
fn plan_and_append_advance_the_count() {
    let cfg = loop_config(30, 60, 10, 4, 10);
    let st = feed_start(0);
    assert_eq!(feed_plan(&st, 13, false, &cfg, None), FeedStep::Accumulate { have: 13, need: 14 });
    assert_eq!(feed_plan(&st, 25, false, &cfg, None), FeedStep::Translate { count: 20 });
    let (st, pct) = feed_done(st, 20, 25);
    assert_eq!((st.translated, pct), (20, 80));
    assert_eq!(feed_plan(&st, 25, false, &cfg, None), FeedStep::NeedMore { missing: 5, have: 5 });
    assert_eq!(feed_plan(&st, 25, true, &cfg, None), FeedStep::Translate { count: 5 });
    assert_eq!(feed_plan(&st, 25, true, &cfg, Some((700, 600))), FeedStep::BufferOk { ahead_sec: 700 });
    let (st, pct) = feed_done(st, 5, 25);
    assert_eq!((st.translated, pct), (25, 100));
    assert_eq!(feed_plan(&st, 25, true, &cfg, None), FeedStep::Idle);
}

#[test]
fn follow_plan_skips_retries_or_tracks() {
    let local = "/m/film.mkv";
    assert_eq!(follow_plan(local, &[], "ru"), FollowPlan::NoStreams);
    assert_eq!(
        follow_plan(local, &[stream(2, "eng", "subrip"), stream(3, "rus", "subrip")], "ru"),
        FollowPlan::Skip { stream: 3 }
    );
    assert_eq!(follow_plan(local, &[stream(1, "eng", "ass")], "ru"), FollowPlan::NoSource);
    assert_eq!(
        follow_plan(local, &[stream(4, "", "subrip"), stream(5, "eng", "subrip")], "ru"),
        FollowPlan::Track {
            stream_index: 5,
            out_srt: "/m/film.ru.translated.srt".to_string(),
            extract_path: "/m/film.live.stream5.srt".to_string(),
        }
    );
}
