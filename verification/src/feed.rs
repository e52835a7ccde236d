//! The decisions of the live-download and Kodi-follow loops: how long the
//! file has been unchanged, whether and how much of the newly extracted
//! subtitles to translate, how far ahead of playback the translation is,
//! which embedded track already is in the target language, the state a loop
//! carries from poll to poll, and what to do with the file Kodi plays.
use vstd::prelude::*;
use crate::text;
use crate::srt::{self, Cue, Subtitle};
use crate::ffmpeg::{self, Stream};
use crate::orchestrate;
use crate::track_matcher;

verus! {

broadcast use vstd::string::group_string_axioms;

/// Polling parameters of a loop, from the settings.
#[derive(Debug)]
pub struct LoopConfig {
    /// Seconds between polls (at least 5).
    pub poll_interval: u64,
    /// Seconds without change after which the file counts as complete (at
    /// least 5).
    pub stable_threshold: u64,
    /// Cues per translation window (at least 1).
    pub window: usize,
    /// Cues needed before the first batch: a window plus the overlap.
    pub threshold: usize,
    /// How far ahead of playback to stay, in seconds (at least a minute).
    pub buffer_sec: i64,
}

/// The loop parameters for the given settings values.
pub fn loop_config(live_poll_interval: u32, live_stable_threshold: u32, window: u32, overlap: u32, buffer_min: u32) -> (r:
    LoopConfig)
    requires
        (if window < 1 { 1 } else { window as int }) + overlap <= usize::MAX,
    ensures
        r.poll_interval == if live_poll_interval < 5 { 5 } else { live_poll_interval },
        r.stable_threshold == if live_stable_threshold < 5 { 5 } else { live_stable_threshold },
        r.window == if window < 1 { 1 } else { window },
        r.threshold == r.window + overlap,
        r.buffer_sec == (if buffer_min < 1 { 1 } else { buffer_min }) * 60,
{
    let w: usize = if window < 1 {
        1
    } else {
        window as usize
    };
    let b: i64 = if buffer_min < 1 {
        1
    } else {
        buffer_min as i64
    };
    LoopConfig {
        poll_interval: if live_poll_interval < 5 {
            5
        } else {
            live_poll_interval as u64
        },
        stable_threshold: if live_stable_threshold < 5 {
            5
        } else {
            live_stable_threshold as u64
        },
        window: w,
        threshold: w + overlap as usize,
        buffer_sec: b * 60,
    }
}

/// Seconds the file has been unchanged after this poll: back to 0 when its
/// modification time changed, one poll interval more otherwise.
pub fn stable_for(changed: bool, previous: u64, poll_interval: u64) -> (r: u64)
    requires
        !changed ==> previous + poll_interval <= u64::MAX,
    ensures
        r == if changed { 0 } else { previous + poll_interval },
{
    if changed {
        0
    } else {
        previous + poll_interval
    }
}

/// What a loop does with the subtitles extracted so far.
#[derive(Debug, PartialEq, Eq)]
pub enum FeedStep {
    /// Wait: fewer new cues than the first batch needs.
    Accumulate { have: usize, need: usize },
    /// Wait: the translation is far enough ahead of playback.
    BufferOk { ahead_sec: i64 },
    /// Wait: the file still grows and a full window is not there yet.
    NeedMore { missing: usize, have: usize },
    /// Wait: nothing to translate.
    Idle,
    /// Translate the next `count` new cues.
    Translate { count: usize },
}

/// The translation is at least the buffer ahead of playback.
pub open spec fn ahead_reached(ahead: Option<(int, int)>) -> bool {
    match ahead {
        Some((a, b)) => a >= b,
        None => false,
    }
}

pub open spec fn ahead_secs(ahead: Option<(int, int)>) -> int {
    match ahead {
        Some((a, _)) => a,
        None => 0,
    }
}

/// The step for `available` extracted cues of which `translated` are done:
/// wait until the first batch has a window plus overlap; (following Kodi)
/// wait while the translation is `buffer` seconds ahead of playback; then
/// translate everything once the file is complete, else whole windows only.
pub open spec fn feed_spec(
    translated: nat,
    available: nat,
    window: nat,
    threshold: nat,
    stable: bool,
    ahead: Option<(int, int)>,
) -> FeedStep {
    let new: nat = if available >= translated {
        (available - translated) as nat
    } else {
        0
    };
    if translated == 0 && new < threshold {
        FeedStep::Accumulate { have: new as usize, need: threshold as usize }
    } else if ahead_reached(ahead) {
        FeedStep::BufferOk { ahead_sec: ahead_secs(ahead) as i64 }
    } else if !stable && new < window {
        FeedStep::NeedMore { missing: (window - new) as usize, have: new as usize }
    } else {
        let count = if stable {
            new
        } else {
            (new / window) * window
        };
        if count == 0 {
            FeedStep::Idle
        } else {
            FeedStep::Translate { count: count as usize }
        }
    }
}

/// Decide the loop's step. `ahead` is `(seconds translated ahead of
/// playback, buffer seconds)` when following playback.
pub fn feed_step(translated: usize, available: usize, window: usize, threshold: usize, stable: bool, ahead: Option<
    (i64, i64),
>) -> (r: FeedStep)
    requires
        window >= 1,
    ensures
        r == feed_spec(
            translated as nat,
            available as nat,
            window as nat,
            threshold as nat,
            stable,
            match ahead {
                Some((a, b)) => Some((a as int, b as int)),
                None => None,
            },
        ),
        r matches FeedStep::Translate { count } ==> 0 < count && translated + count <= available,
{
    let new: usize = if available >= translated {
        available - translated
    } else {
        0
    };
    if translated == 0 && new < threshold {
        return FeedStep::Accumulate { have: new, need: threshold };
    }
    match ahead {
        Some((a, b)) => {
            if a >= b {
                return FeedStep::BufferOk { ahead_sec: a };
            }
        },
        None => {},
    }
    if !stable && new < window {
        return FeedStep::NeedMore { missing: window - new, have: new };
    }
    let count = if stable {
        new
    } else {
        assert((new / window) * window <= new) by (nonlinear_arith)
            requires
                window >= 1,
        ;
        (new / window) * window
    };
    if count == 0 {
        FeedStep::Idle
    } else {
        assert(count <= new) by (nonlinear_arith)
            requires
                stable ==> count == new,
                !stable ==> count == (new / window) * window,
                window >= 1,
        ;
        FeedStep::Translate { count }
    }
}

/// Seconds of the film already covered: the end of the last translated cue.
pub open spec fn covered_spec(all: Seq<Cue>, translated: nat) -> int {
    if translated > 0 {
        (all[translated - 1].end_ms / 1000) as int
    } else {
        0
    }
}

/// How far the translation runs ahead of the playback position, in seconds.
pub fn ahead_of_playback(all: &[Subtitle], translated: usize, position_sec: i64) -> (r: i64)
    requires
        translated <= all@.len(),
        i64::MIN <= covered_spec(srt::cues(all@), translated as nat) - position_sec <= i64::MAX,
    ensures
        r == covered_spec(srt::cues(all@), translated as nat) - position_sec,
{
    let until: i64 = if translated > 0 {
        (all[translated - 1].end_ms / 1000) as i64
    } else {
        0
    };
    until - position_sec
}

/// `100 * translated / max(total, 1)`, at most 100.
pub open spec fn percent_spec(translated: int, total: int) -> int {
    let t = if total == 0 {
        1
    } else {
        total
    };
    let p = (100 * translated) / t;
    if p >= 100 {
        100
    } else {
        p
    }
}

/// The progress shown after a batch: the share of the extracted cues that are
/// translated, in percent, at most 100.
pub fn progress_percent(translated: usize, total: usize) -> (r: u8)
    ensures
        r == percent_spec(translated as int, total as int),
{
    let t: u128 = if total == 0 {
        1
    } else {
        total as u128
    };
    let x: u128 = translated as u128;
    assert(100 * x <= u128::MAX) by (nonlinear_arith)
        requires
            x <= u64::MAX,
    ;
    let p: u128 = (100 * x) / t;
    if p >= 100 {
        100
    } else {
        p as u8
    }
}

/// Cues for appending: numbers cleared (the writer renumbers), times and text
/// kept.
pub fn unnumbered(chunk: &[Subtitle]) -> (r: Vec<Subtitle>)
    ensures
        r@.len() == chunk@.len(),
        forall|i: int|
            0 <= i < chunk@.len() ==> (#[trigger] r@[i])@ == (Cue { index: 0, ..chunk@[i]@ }),
{
    let mut out: Vec<Subtitle> = Vec::new();
    let mut i: usize = 0;
    while i < chunk.len()
        invariant
            i <= chunk@.len(),
            out@.len() == i,
            forall|j: int| 0 <= j < i ==> (#[trigger] out@[j])@ == (Cue { index: 0, ..chunk@[j]@ }),
        decreases chunk@.len() - i,
    {
        out.push(
            Subtitle {
                index: 0,
                start_ms: chunk[i].start_ms,
                end_ms: chunk[i].end_ms,
                content: chunk[i].content.clone(),
            },
        );
        i = i + 1;
    }
    out
}

/// A stream already in the target language: the first with a non-empty
/// language that is a prefix of the target or has the target as a prefix.
pub open spec fn embedded_spec(streams: Seq<Stream>, target: Seq<char>) -> Option<int>
    decreases streams.len(),
{
    if streams.len() == 0 {
        None
    } else {
        let lang = text::trim(text::lowercase(streams[0].language_spec()));
        if lang.len() > 0 && (target.is_prefix_of(lang) || lang.is_prefix_of(target)) {
            Some(0)
        } else {
            match embedded_spec(streams.drop_first(), target) {
                Some(i) => Some(i + 1),
                None => None,
            }
        }
    }
}

pub open spec fn shifted(o: Option<int>, k: int) -> Option<int> {
    match o {
        Some(j) => Some(j + k),
        None => None,
    }
}

/// The position of an embedded target-language stream, if any.
pub fn embedded_target(streams: &[Stream], target_lang: &str) -> (r: Option<usize>)
    ensures
        r matches Some(i) ==> embedded_spec(streams@, text::trim(text::lowercase(target_lang@))) == Some(i as int),
        r is None ==> embedded_spec(streams@, text::trim(text::lowercase(target_lang@))) is None,
{
    let t = text::trim_vec(&text::to_lowercase_vec(&text::chars_of(target_lang)));
    let ghost tg = t@;
    let mut i: usize = 0;
    assert(streams@.skip(0) =~= streams@);
    while i < streams.len()
        invariant
            i <= streams@.len(),
            tg == t@,
            tg == text::trim(text::lowercase(target_lang@)),
            embedded_spec(streams@, tg) == shifted(embedded_spec(streams@.skip(i as int), tg), i as int),
        decreases streams@.len() - i,
    {
        let lang = text::trim_vec(&text::to_lowercase_vec(&text::chars_of(streams[i].language())));
        assert(streams@.skip(i as int)[0] == streams@[i as int]);
        assert(streams@.skip(i as int).drop_first() =~= streams@.skip(i + 1));
        if lang.len() > 0 && (crate::track_matcher::starts_with(&lang, &t) || crate::track_matcher::starts_with(&t, &lang)) {
            assert(embedded_spec(streams@.skip(i as int), tg) == Some(0int));
            return Some(i);
        }
        i = i + 1;
    }
    assert(streams@.skip(i as int) =~= seq![]);
    None
}


// ---------------------------------------------------------------------------
// The loop's state
// ---------------------------------------------------------------------------

/// What a loop keeps of the file it translates: the cues translated so far,
/// how long the file has been unchanged, and whether that was announced.
#[derive(Debug, Clone, Copy, PartialEq, Eq)]
pub struct FeedState {
    pub translated: usize,
    pub stable_for: u64,
    pub stable_announced: bool,
}

/// The state for a file whose translation already holds `translated` cues.
pub fn feed_start(translated: usize) -> (r: FeedState)
    ensures
        r == (FeedState { translated, stable_for: 0, stable_announced: false }),
{
    FeedState { translated, stable_for: 0, stable_announced: false }
}

/// What a poll learned of the file: gone, or seen with its modification time
/// changed or not.
#[derive(Debug, Clone, Copy, PartialEq, Eq)]
pub enum FileCheck {
    Missing,
    Seen { changed: bool },
}

/// What a poll reports: the file is gone; the file grew; the file has just
/// been unchanged long enough to count as complete; the file counts as
/// complete.
#[derive(Debug, Clone, Copy, PartialEq, Eq)]
pub struct PollOutcome {
    pub gone: bool,
    pub growing: bool,
    pub announce_stable: bool,
    pub stable: bool,
}

/// `a + b`, at most `u64::MAX`.
pub open spec fn sat_add(a: u64, b: u64) -> u64 {
    if a + b > u64::MAX {
        u64::MAX
    } else {
        (a + b) as u64
    }
}

/// The state and report after a poll: a changed file starts its unchanged
/// time over (and may be announced as complete again later); an unchanged
/// one adds a poll interval; reaching the threshold is announced once.
pub open spec fn poll_spec(st: FeedState, check: FileCheck, cfg: LoopConfig) -> (FeedState, PollOutcome) {
    match check {
        FileCheck::Missing => (st, PollOutcome { gone: true, growing: false, announce_stable: false, stable: false }),
        FileCheck::Seen { changed } => {
            let sf = if changed {
                0
            } else {
                sat_add(st.stable_for, cfg.poll_interval)
            };
            let announced = if changed {
                false
            } else {
                st.stable_announced
            };
            let stable = sf >= cfg.stable_threshold;
            let announce = stable && !announced;
            (
                FeedState { translated: st.translated, stable_for: sf, stable_announced: announced || announce },
                PollOutcome { gone: false, growing: changed, announce_stable: announce, stable },
            )
        },
    }
}

/// Fold a poll of the file into the state.
pub fn feed_poll(st: FeedState, check: FileCheck, cfg: &LoopConfig) -> (r: (FeedState, PollOutcome))
    ensures
        r == poll_spec(st, check, *cfg),
{
    match check {
        FileCheck::Missing => (st, PollOutcome { gone: true, growing: false, announce_stable: false, stable: false }),
        FileCheck::Seen { changed } => {
            let sf: u64 = if changed {
                0
            } else if st.stable_for > u64::MAX - cfg.poll_interval {
                u64::MAX
            } else {
                st.stable_for + cfg.poll_interval
            };
            let announced = if changed {
                false
            } else {
                st.stable_announced
            };
            let stable = sf >= cfg.stable_threshold;
            let announce = stable && !announced;
            (
                FeedState { translated: st.translated, stable_for: sf, stable_announced: announced || announce },
                PollOutcome { gone: false, growing: changed, announce_stable: announce, stable },
            )
        },
    }
}

/// The step for the cues extracted so far (`available`), from the state.
pub fn feed_plan(st: &FeedState, available: usize, stable: bool, cfg: &LoopConfig, ahead: Option<(i64, i64)>) -> (r:
    FeedStep)
    requires
        cfg.window >= 1,
    ensures
        r == feed_spec(
            st.translated as nat,
            available as nat,
            cfg.window as nat,
            cfg.threshold as nat,
            stable,
            match ahead {
                Some((a, b)) => Some((a as int, b as int)),
                None => None,
            },
        ),
        r matches FeedStep::Translate { count } ==> 0 < count && st.translated + count <= available,
{
    feed_step(st.translated, available, cfg.window, cfg.threshold, stable, ahead)
}

/// The state after `produced` translated cues were appended, with the
/// progress over `total` extracted cues.
pub fn feed_done(st: FeedState, produced: usize, total: usize) -> (r: (FeedState, u8))
    requires
        st.translated + produced <= usize::MAX,
    ensures
        r.0 == (FeedState { translated: (st.translated + produced) as usize, ..st }),
        r.1 == percent_spec(st.translated + produced, total as int),
{
    let t = st.translated + produced;
    (FeedState { translated: t, ..st }, progress_percent(t, total))
}

/// One round of a loop, from the state before the poll: after an unchanged
/// or changed file was seen, a batch is the next `count` cues after those
/// already translated, taken from the cues extracted so far; appending the
/// `produced` translated cues advances the count by exactly that many and
/// keeps the file's unchanged time, for any batch result no longer than the
/// batch.
pub proof fn lemma_feed_round(
    st: FeedState,
    changed: bool,
    cfg: LoopConfig,
    available: usize,
    ahead: Option<(int, int)>,
    produced: nat,
)
    requires
        cfg.window >= 1,
        ({
            let (s1, o) = poll_spec(st, FileCheck::Seen { changed }, cfg);
            feed_spec(s1.translated as nat, available as nat, cfg.window as nat, cfg.threshold as nat, o.stable, ahead) is Translate
        }),
    ensures
        ({
            let (s1, o) = poll_spec(st, FileCheck::Seen { changed }, cfg);
            let count = feed_spec(s1.translated as nat, available as nat, cfg.window as nat, cfg.threshold as nat, o.stable, ahead)->count;
            &&& s1.translated == st.translated
            &&& 0 < count
            &&& st.translated + count <= available
            &&& (o.stable ==> count == available - st.translated)
            &&& (!o.stable ==> (count as int) % (cfg.window as int) == 0)
            &&& (produced <= count ==> st.translated + produced <= available && (FeedState {
                translated: (s1.translated + produced) as usize,
                ..s1
            }).translated == st.translated + produced)
        }),
{
    let (s1, o) = poll_spec(st, FileCheck::Seen { changed }, cfg);
    let new: nat = if available >= st.translated {
        (available - st.translated) as nat
    } else {
        0
    };
    let w = cfg.window as nat;
    if !o.stable {
        assert(((new / w) * w) % w == 0) by (nonlinear_arith)
            requires
                w >= 1,
        ;
        assert((new / w) * w <= new) by (nonlinear_arith)
            requires
                w >= 1,
        ;
    }
}

// ---------------------------------------------------------------------------
// The file Kodi plays
// ---------------------------------------------------------------------------

/// What to do with the file Kodi plays, once its subtitle streams are known.
#[derive(Debug, PartialEq, Eq)]
pub enum FollowPlan {
    /// A stream is already in the target language: switch Kodi to it and
    /// translate nothing.
    Skip { stream: i64 },
    /// No subtitle stream is visible yet: try again.
    NoStreams,
    /// Only target-language or ASS/SSA streams: try again.
    NoSource,
    /// Translate stream `stream_index` into `out_srt`, extracting it to
    /// `extract_path`.
    Track { stream_index: i64, out_srt: String, extract_path: String },
}

/// Decide what to do with the file Kodi plays: skip it when a stream is in
/// the target language, retry when no stream is visible or none can serve as
/// the source, else track the chosen source stream.
pub fn follow_plan(local: &str, streams: &[Stream], target_lang: &str) -> (r: FollowPlan)
    ensures
        ({
            let tl = text::trim(text::lowercase(target_lang@));
            match embedded_spec(streams@, tl) {
                Some(p) => r == FollowPlan::Skip { stream: streams@[p].index },
                None => if streams@.len() == 0 {
                    r == FollowPlan::NoStreams
                } else {
                    match track_matcher::best_key(streams@, tl) {
                        None => r == FollowPlan::NoSource,
                        Some(k) => r matches FollowPlan::Track { stream_index, out_srt, extract_path }
                            && stream_index == k.2
                            && out_srt@ == orchestrate::translated_srt_spec(local@, target_lang@, false)
                            && extract_path@ == ffmpeg::lenient_out_spec(local@, k.2, None),
                    }
                },
            }
        }),
{
    match embedded_target(streams, target_lang) {
        Some(p) => {
            proof {
                lemma_embedded_in_range(streams@, text::trim(text::lowercase(target_lang@)));
            }
            return FollowPlan::Skip { stream: streams[p].index };
        },
        None => {},
    }
    if streams.len() == 0 {
        return FollowPlan::NoStreams;
    }
    match track_matcher::pick_source_subtitle_stream(streams, target_lang) {
        None => FollowPlan::NoSource,
        Some(i) => FollowPlan::Track {
            stream_index: i,
            out_srt: orchestrate::translated_srt_path(local, target_lang, false),
            extract_path: ffmpeg::lenient_output_path(local, i, None),
        },
    }
}

proof fn lemma_embedded_in_range(streams: Seq<Stream>, target: Seq<char>)
    ensures
        embedded_spec(streams, target) matches Some(p) ==> 0 <= p < streams.len(),
    decreases streams.len(),
{
    if streams.len() > 0 {
        lemma_embedded_in_range(streams.drop_first(), target);
    }
}

} // verus!
