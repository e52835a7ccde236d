//! Picking the source subtitle track, and carrying per-track choices over to
//! equivalent tracks of the next file.
use vstd::prelude::*;
use crate::text;
use crate::ffmpeg::{self, Stream};
use std::collections::BTreeMap;

verus! {

broadcast use vstd::string::group_string_axioms;

/// Per-stream translate/delete choice, carried over across a batch.
#[derive(Debug, Clone, Copy, PartialEq, Eq)]
pub struct TrackPref {
    pub translate: bool,
    pub delete: bool,
}

impl Default for TrackPref {
    fn default() -> (r: TrackPref)
        ensures
            r == (TrackPref { translate: false, delete: false }),
    {
        TrackPref { translate: false, delete: false }
    }
}

/// `(language, title, codec)`: `und` for a missing or empty language.
pub open spec fn match_key_spec(s: Stream) -> (Seq<char>, Seq<char>, Seq<char>) {
    let lang = match ffmpeg::tag_text(s.tags@, "language"@) {
        Some(l) => if l.len() == 0 {
            "und"@
        } else {
            l
        },
        None => "und"@,
    };
    (lang, s.title_spec(), s.codec_name@)
}

/// Tuple `(language, title, codec)` identifying equivalent tracks across files.
pub fn stream_match_key(stream: &Stream) -> (r: (String, String, String))
    ensures
        (r.0@, r.1@, r.2@) == match_key_spec(*stream),
{
    let lang = stream.language();
    let lang_s = if lang.is_empty() {
        text::string_from("und")
    } else {
        text::string_from(lang)
    };
    let title = text::string_from(stream.title());
    let codec = stream.codec_name.clone();
    (lang_s, title, codec)
}

/// The views of a key.
pub open spec fn key_view(k: (String, String, String)) -> (Seq<char>, Seq<char>, Seq<char>) {
    (k.0@, k.1@, k.2@)
}

/// The choice remembered for the first key equal to `k`.
pub open spec fn pref_for(prev: Seq<((String, String, String), TrackPref)>, k: (Seq<char>, Seq<char>, Seq<char>)) -> Option<
    TrackPref,
>
    decreases prev.len(),
{
    if prev.len() == 0 {
        None
    } else if key_view(prev[0].0) == k {
        Some(prev[0].1)
    } else {
        pref_for(prev.drop_first(), k)
    }
}

/// The initial choices for the streams of a file, by stream index: each
/// stream takes the choice remembered for its key, or the default; of
/// streams with the same index the last one counts.
pub open spec fn initial_state_spec(streams: Seq<Stream>, prev: Seq<((String, String, String), TrackPref)>) -> Map<
    i64,
    TrackPref,
>
    decreases streams.len(),
{
    if streams.len() == 0 {
        Map::empty()
    } else {
        let s = streams.last();
        let p = match pref_for(prev, match_key_spec(s)) {
            Some(p) => p,
            None => TrackPref { translate: false, delete: false },
        };
        initial_state_spec(streams.drop_last(), prev).insert(s.index, p)
    }
}

/// Each remembered key occurs once, as in a map.
pub open spec fn prefs_unique(prev: Seq<((String, String, String), TrackPref)>) -> bool {
    forall|i: int, j: int| 0 <= i < j < prev.len() ==> key_view(#[trigger] prev[i].0) != key_view(#[trigger] prev[j].0)
}

/// With each key remembered once, the first match for a key is its entry:
/// the remembered choices read as a map.
pub proof fn lemma_pref_unique(prev: Seq<((String, String, String), TrackPref)>, i: int)
    requires
        prefs_unique(prev),
        0 <= i < prev.len(),
    ensures
        pref_for(prev, key_view(prev[i].0)) == Some(prev[i].1),
    decreases i,
{
    if i > 0 {
        let d = prev.drop_first();
        assert(key_view(prev[0].0) != key_view(prev[i].0));
        assert(prefs_unique(d)) by {
            assert forall|a: int, b: int| 0 <= a < b < d.len() implies key_view(#[trigger] d[a].0) != key_view(
                #[trigger] d[b].0,
            ) by {
                assert(d[a] == prev[a + 1] && d[b] == prev[b + 1]);
            }
        }
        assert(d[i - 1] == prev[i]);
        lemma_pref_unique(d, i - 1);
    }
}

fn find_pref(prev: &Vec<((String, String, String), TrackPref)>, k: &(String, String, String)) -> (r: Option<
    TrackPref,
>)
    ensures
        r == pref_for(prev@, key_view(*k)),
{
    let mut i: usize = 0;
    assert(prev@.skip(0) =~= prev@);
    while i < prev.len()
        invariant
            i <= prev@.len(),
            pref_for(prev@, key_view(*k)) == pref_for(prev@.skip(i as int), key_view(*k)),
        decreases prev@.len() - i,
    {
        assert(prev@.skip(i as int)[0] == prev@[i as int]);
        assert(prev@.skip(i as int).drop_first() =~= prev@.skip(i + 1));
        let e = &prev[i].0;
        if text::str_eq(e.0.as_str(), k.0.as_str()) && text::str_eq(e.1.as_str(), k.1.as_str())
            && text::str_eq(e.2.as_str(), k.2.as_str()) {
            return Some(prev[i].1);
        }
        i = i + 1;
    }
    None
}

/// Stream indices are keys with a total order, as a `BTreeMap` needs.
proof fn lemma_index_keys_ordered()
    ensures
        vstd::laws_cmp::obeys_cmp::<i64>(),
{
    broadcast use vstd::laws_cmp::group_laws_cmp;

}

/// The initial choices `{stream_index: TrackPref}` of a file, filled in from
/// the choices remembered by `(language, title, codec)`.
pub fn match_initial_state(streams: &[Stream], previous_prefs: &Vec<((String, String, String), TrackPref)>) -> (r:
    BTreeMap<i64, TrackPref>)
    ensures
        r@ == initial_state_spec(streams@, previous_prefs@),
{
    proof {
        lemma_index_keys_ordered();
    }
    let mut result: BTreeMap<i64, TrackPref> = BTreeMap::new();
    let mut i: usize = 0;
    assert(streams@.take(0) =~= seq![]);
    while i < streams.len()
        invariant
            i <= streams@.len(),
            result@ == initial_state_spec(streams@.take(i as int), previous_prefs@),
        decreases streams@.len() - i,
    {
        let ghost q = streams@.take(i + 1);
        assert(q.drop_last() =~= streams@.take(i as int));
        assert(q.last() == streams@[i as int]);
        let st = &streams[i];
        let key = stream_match_key(st);
        let prefs = match find_pref(previous_prefs, &key) {
            Some(p) => p,
            None => TrackPref { translate: false, delete: false },
        };
        result.insert(st.index, prefs);
        i = i + 1;
    }
    assert(streams@.take(i as int) =~= streams@);
    result
}

// ---------------------------------------------------------------------------
// Source stream choice
// ---------------------------------------------------------------------------

/// A stream language that is the target language (either is a prefix of the
/// other), for a non-empty target and a non-empty (tagged) language: an
/// untagged stream is not in the target language.
pub open spec fn is_target_spec(lang: Seq<char>, target: Seq<char>) -> bool {
    target.len() > 0 && lang.len() > 0 && (target.is_prefix_of(lang) || lang.is_prefix_of(target))
}

/// How well a title suits as a source: 2 for hearing-impaired (SDH) tracks,
/// 0 for no title or `full`, 1 otherwise.
pub open spec fn title_rank_spec(s: Stream) -> i64 {
    let t = text::lowercase(text::trim(s.title_spec()));
    if text::contains(t, "sdh"@) || text::contains(t, "hearing"@) {
        2
    } else if s.flag_spec("hearing_impaired"@) {
        2
    } else if t.len() == 0 || t == "full"@ {
        0
    } else {
        1
    }
}

/// The sort key of a candidate: language rank (English first), title rank,
/// stream index.
pub open spec fn candidate_key(s: Stream) -> (i64, i64, i64) {
    let lang = text::trim(text::lowercase(s.language_spec()));
    (if lang == "eng"@ || lang == "en"@ {
        0
    } else {
        1
    }, title_rank_spec(s), s.index)
}

/// A stream that may serve as the source: not ASS/SSA, not in the target
/// language.
pub open spec fn eligible(s: Stream, target: Seq<char>) -> bool {
    let codec = text::lowercase(s.codec_name@);
    codec != "ass"@ && codec != "ssa"@ && !is_target_spec(text::trim(text::lowercase(s.language_spec())), target)
}

pub open spec fn key_lt(a: (i64, i64, i64), b: (i64, i64, i64)) -> bool {
    a.0 < b.0 || (a.0 == b.0 && (a.1 < b.1 || (a.1 == b.1 && a.2 < b.2)))
}

/// The smallest candidate key among the streams, if any is eligible.
pub open spec fn best_key(streams: Seq<Stream>, target: Seq<char>) -> Option<(i64, i64, i64)>
    decreases streams.len(),
{
    if streams.len() == 0 {
        None
    } else {
        let rest = best_key(streams.drop_last(), target);
        let s = streams.last();
        if !eligible(s, target) {
            rest
        } else {
            match rest {
                Some(k) => if key_lt(candidate_key(s), k) {
                    Some(candidate_key(s))
                } else {
                    Some(k)
                },
                None => Some(candidate_key(s)),
            }
        }
    }
}

/// The smallest key among the entries marked eligible, if any.
pub open spec fn best_of(ks: Seq<(bool, (i64, i64, i64))>) -> Option<(i64, i64, i64)>
    decreases ks.len(),
{
    if ks.len() == 0 {
        None
    } else {
        let rest = best_of(ks.drop_last());
        let (ok, key) = ks.last();
        if !ok {
            rest
        } else {
            match rest {
                Some(k) => if key_lt(key, k) {
                    Some(key)
                } else {
                    Some(k)
                },
                None => Some(key),
            }
        }
    }
}

/// Each stream marked with its eligibility and its candidate key.
pub open spec fn keyed_streams(streams: Seq<Stream>, target: Seq<char>) -> Seq<(bool, (i64, i64, i64))> {
    streams.map_values(|s: Stream| (eligible(s, target), candidate_key(s)))
}

proof fn lemma_best_keyed(streams: Seq<Stream>, target: Seq<char>)
    ensures
        best_key(streams, target) == best_of(keyed_streams(streams, target)),
    decreases streams.len(),
{
    if streams.len() > 0 {
        lemma_best_keyed(streams.drop_last(), target);
        assert(keyed_streams(streams, target).drop_last() =~= keyed_streams(streams.drop_last(), target));
    }
}

/// The stream number of the best eligible candidate: the smallest key (by
/// language rank, title rank, stream index) among the entries marked
/// eligible; `None` when none is.
pub fn best_candidate(ks: &[(bool, (i64, i64, i64))]) -> (r: Option<i64>)
    ensures
        r == match best_of(ks@) {
            Some(k) => Some(k.2),
            None => None::<i64>,
        },
{
    let mut best: Option<(i64, i64, i64)> = None;
    let mut i: usize = 0;
    assert(ks@.take(0) =~= seq![]);
    while i < ks.len()
        invariant
            i <= ks@.len(),
            best == best_of(ks@.take(i as int)),
        decreases ks@.len() - i,
    {
        let ghost q = ks@.take(i + 1);
        assert(q.drop_last() =~= ks@.take(i as int));
        assert(q.last() == ks@[i as int]);
        let (ok, key) = ks[i];
        if ok {
            best = match best {
                Some(k) => if key.0 < k.0 || (key.0 == k.0 && (key.1 < k.1 || (key.1 == k.1 && key.2 < k.2))) {
                    Some(key)
                } else {
                    Some(k)
                },
                None => Some(key),
            };
        }
        i = i + 1;
    }
    assert(ks@.take(i as int) =~= ks@);
    match best {
        Some(k) => Some(k.2),
        None => None,
    }
}

fn title_rank(s: &Stream) -> (r: i64)
    ensures
        r == title_rank_spec(*s),
{
    let t = text::chars_of(s.title());
    let tl = text::to_lowercase_vec(&text::trim_vec(&t));
    if text::contains_vec(&tl, &text::chars_of("sdh")) || text::contains_vec(&tl, &text::chars_of("hearing")) {
        return 2;
    }
    if s.disposition_flag("hearing_impaired") {
        return 2;
    }
    if tl.len() == 0 || text::eq_vec(&tl, &text::chars_of("full")) {
        return 0;
    }
    1
}

/// Pick the source subtitle stream: skip the target language and ASS/SSA;
/// prefer English; within a language prefer titles `""` or `full`, with SDH
/// last; then the lowest index. `None` if no stream is eligible.
pub fn pick_source_subtitle_stream(streams: &[Stream], target_lang: &str) -> (r: Option<i64>)
    ensures
        r == match best_key(streams@, text::trim(text::lowercase(target_lang@))) {
            Some(k) => Some(k.2),
            None => None::<i64>,
        },
{
    let ghost target = text::trim(text::lowercase(target_lang@));
    let tl = text::trim_vec(&text::to_lowercase_vec(&text::chars_of(target_lang)));
    let mut ks: Vec<(bool, (i64, i64, i64))> = Vec::new();
    let mut i: usize = 0;
    while i < streams.len()
        invariant
            i <= streams@.len(),
            tl@ == target,
            ks@ == keyed_streams(streams@.take(i as int), target),
        decreases streams@.len() - i,
    {
        let s = &streams[i];
        let codec = text::to_lowercase_vec(&text::chars_of(s.codec_name.as_str()));
        let lang = text::trim_vec(&text::to_lowercase_vec(&text::chars_of(s.language())));
        let skip_codec = text::eq_vec(&codec, &text::chars_of("ass")) || text::eq_vec(&codec, &text::chars_of("ssa"));
        let target_hit = tl.len() > 0 && lang.len() > 0 && (starts_with(&lang, &tl) || starts_with(&tl, &lang));
        let l_rank: i64 = if text::eq_vec(&lang, &text::chars_of("eng")) || text::eq_vec(&lang, &text::chars_of("en")) {
            0
        } else {
            1
        };
        let key = (l_rank, title_rank(s), s.index);
        assert(key == candidate_key(streams@[i as int]));
        assert((!skip_codec && !target_hit) == eligible(streams@[i as int], target));
        ks.push((!skip_codec && !target_hit, key));
        assert(ks@ =~= keyed_streams(streams@.take(i + 1), target));
        i = i + 1;
    }
    assert(streams@.take(i as int) =~= streams@);
    proof {
        lemma_best_keyed(streams@, target);
    }
    best_candidate(&ks)
}

/// `p` is a prefix of `s` (`str::starts_with`).
pub fn starts_with(s: &[char], p: &[char]) -> (r: bool)
    ensures
        r == p@.is_prefix_of(s@),
{
    if p.len() > s.len() {
        return false;
    }
    let r = text::matches_at(s, p, 0);
    assert(r == (s@.subrange(0, p@.len() as int) == p@));
    proof {
        if p@.is_prefix_of(s@) {
            assert(s@.subrange(0, p@.len() as int) =~= p@);
        }
        if s@.subrange(0, p@.len() as int) == p@ {
            assert forall|i: int| 0 <= i < p@.len() implies p@[i] == s@[i] by {
                assert(s@.subrange(0, p@.len() as int)[i] == s@[i]);
            }
        }
    }
    r
}

} // verus!
