//! Properties that span several functions: what the live-mode writer leaves
//! for a resume to read, and what its file reads back as; how many requests
//! a window can take, how many texts a mapped reply has, what re-indexing
//! keeps, what reassembly keeps of the source cues, that the kept texts stay
//! sanitized, and the order of the model list; which text each cue gets from
//! a reply, when a window counts as in the target script, which source track
//! is chosen, and that prices are looked up by exact id.
use vstd::prelude::*;
use crate::text;
use crate::srt::{self, Cue};
use crate::engine::{self, GroupAction, GroupRun, Verdict};
use crate::services;
use crate::roundtrip;
use crate::track_matcher;
use crate::pricing;
use crate::ffmpeg::Stream;

verus! {

// ---------------------------------------------------------------------------
// Sentinel
// ---------------------------------------------------------------------------

/// The sentinel cue is recognised as one.
pub proof fn lemma_sentinel_recognised(after_end_ms: nat, index: u32)
    ensures
        srt::is_sentinel_cue(Cue { index, ..srt::sentinel_cue(after_end_ms) }),
{
    reveal_strlit("SUBTITLES NOT TRANSLATED YET \u{2014} MOVIE STILL DOWNLOADING \u{2014} PLEASE PAUSE");
    let t = srt::SENTINEL_TEXT@;
    assert(!text::is_ws(t[0]));
    assert(!text::is_ws(t.last()));
    assert(text::trim_start(t) == t);
    assert(text::trim_end(t) == t);
}

/// Stripping the sentinel from what the live writer produces gives the
/// existing translation (without its old sentinel) followed by the new cues,
/// numbered from 1: a resume counts exactly the cues translated so far.
pub proof fn lemma_resume_after_append(existing: Seq<Cue>, new: Seq<Cue>)
    ensures
        srt::strip_sentinel_spec(srt::with_sentinel_spec(existing, new)) == srt::reindexed(
            srt::strip_sentinel_spec(existing) + new,
        ),
        srt::strip_sentinel_spec(srt::with_sentinel_spec(existing, new)).len() == srt::strip_sentinel_spec(
            existing,
        ).len() + new.len(),
{
    let base = srt::strip_sentinel_spec(existing) + new;
    if base.len() > 0 {
        let all = base.push(srt::sentinel_cue(base.last().end_ms as nat));
        let w = srt::reindexed(all);
        assert(w.last() == Cue { index: (all.len() as int) as u32, ..srt::sentinel_cue(base.last().end_ms as nat) });
        lemma_sentinel_recognised(base.last().end_ms as nat, (all.len() as int) as u32);
        assert(w.drop_last() =~= srt::reindexed(base));
    } else {
        assert(srt::reindexed(base) =~= Seq::<Cue>::empty());
    }
}

/// The sentinel text reads back as one cue text.
proof fn lemma_sentinel_content_ok()
    ensures
        roundtrip::content_ok(srt::SENTINEL_TEXT@),
{
    reveal_strlit("SUBTITLES NOT TRANSLATED YET \u{2014} MOVIE STILL DOWNLOADING \u{2014} PLEASE PAUSE");
    let t = srt::SENTINEL_TEXT@;
    assert forall|i: int| 0 <= i < t.len() implies #[trigger] t[i] != '\r' && t[i] != '\n' by {
        assert(t[i] as u32 >= 32);
    }
    roundtrip::lemma_split_free(t, '\n');
    assert(!text::is_ws(t[0]));
    assert(!text::is_blank(text::split(t, '\n')[0]));
}

/// Reading back the file the live writer produces (the composed cues with
/// CRLF line endings) and dropping its sentinel gives the cues translated so
/// far, numbered from 1, whenever every cue text is free of carriage returns
/// and blank lines.
pub proof fn lemma_live_file_roundtrip(existing: Seq<Cue>, new: Seq<Cue>)
    requires
        forall|i: int|
            0 <= i < (srt::strip_sentinel_spec(existing) + new).len() ==> roundtrip::content_ok(
                #[trigger] (srt::strip_sentinel_spec(existing) + new)[i].content,
            ),
    ensures
        srt::strip_sentinel_spec(
            srt::parse_spec(srt::crlf_spec(srt::compose_spec(srt::with_sentinel_spec(existing, new)))),
        ) == srt::reindexed(srt::strip_sentinel_spec(existing) + new),
{
    let base = srt::strip_sentinel_spec(existing) + new;
    let all = if base.len() > 0 {
        base.push(srt::sentinel_cue(base.last().end_ms as nat))
    } else {
        base
    };
    let w = srt::with_sentinel_spec(existing, new);
    lemma_sentinel_content_ok();
    assert forall|i: int| 0 <= i < w.len() implies roundtrip::content_ok(#[trigger] w[i].content) by {
        assert(w[i].content == all[i].content);
        if i < base.len() {
            assert(all[i] == base[i]);
        }
    }
    roundtrip::lemma_crlf_parse(w);
    lemma_resume_after_append(existing, new);
}

// ---------------------------------------------------------------------------
// Retries
// ---------------------------------------------------------------------------

/// Every verdict either ends the window or asks for the next attempt, and no
/// attempt number reaches the limit: a window makes at most
/// `MAX_ATTEMPTS` requests.
pub proof fn lemma_retry_bound(run: GroupRun, v: Verdict)
    requires
        run.wf(),
    ensures
        run.advance_spec(v).1 matches GroupAction::Request { attempt, .. } ==> attempt == run.attempt + 1
            && attempt < engine::MAX_ATTEMPTS,
{
}

/// The score of the kept off-script reply, as a fraction.
pub open spec fn best_score(run: GroupRun) -> (int, int) {
    match run.best {
        Some(b) => (b.0.num as int, b.0.den as int),
        None => (0, 1),
    }
}

/// The kept off-script reply never gets worse: after an off-script verdict,
/// the best reply kept scores at least as well as both the previous best and
/// the new reply.
pub proof fn lemma_best_kept(run: GroupRun, v: Verdict)
    requires
        run.wf(),
        v matches Verdict::OffScript(_, sc) && engine::score_ok(sc),
        run.attempt + 1 < engine::MAX_ATTEMPTS,
    ensures
        ({
            let next = run.advance_spec(v).0;
            let sc = v->OffScript_1;
            &&& next.best is Some
            &&& !services::score_gt_spec((sc.num as int, sc.den as int), best_score(next))
            &&& (run.best is Some ==> !services::score_gt_spec(best_score(run), best_score(next)))
        }),
{
    let sc = v->OffScript_1;
    match run.best {
        None => {
            lemma_score_gt_irreflexive(sc.num as int, sc.den as int);
        },
        Some(b) => {
            lemma_score_gt_irreflexive(sc.num as int, sc.den as int);
            lemma_score_gt_irreflexive(b.0.num as int, b.0.den as int);
            lemma_score_gt_asym(sc.num as int, sc.den as int, b.0.num as int, b.0.den as int);
        },
    }
}

proof fn lemma_score_gt_irreflexive(n: int, d: int)
    ensures
        !services::score_gt_spec((n, d), (n, d)),
{
}

proof fn lemma_score_gt_asym(n1: int, d1: int, n2: int, d2: int)
    requires
        d1 > 0,
        d2 > 0,
    ensures
        services::score_gt_spec((n1, d1), (n2, d2)) ==> !services::score_gt_spec((n2, d2), (n1, d1)),
        !services::score_gt_spec((n1, d1), (n2, d2)) ==> !services::score_gt_spec((n1, d1), (n2, d2)),
{
}

// ---------------------------------------------------------------------------
// Replies
// ---------------------------------------------------------------------------

proof fn lemma_fit_len(cs: Seq<Seq<char>>, n: nat)
    ensures
        engine::fit(cs, n).len() == n,
{
}

/// A reply that is not SRT always yields exactly one text per cue of the
/// window.
pub proof fn lemma_mapped_len(reply: Seq<char>, group: Seq<Cue>)
    ensures
        !engine::payload_spec(reply, group).0 ==> engine::payload_spec(reply, group).1.len() == group.len(),
{
    lemma_fit_len(
        engine::nonempty_trimmed(text::split(srt::normalize(reply), '\n')),
        group.len(),
    );
}

// ---------------------------------------------------------------------------
// Sorting
// ---------------------------------------------------------------------------

/// Cues in non-decreasing `(start_ms, end_ms)` order.
pub open spec fn time_sorted(s: Seq<Cue>) -> bool {
    forall|i: int, j: int| 0 <= i < j < s.len() ==> srt::key_le(#[trigger] s[i], #[trigger] s[j])
}

proof fn lemma_insert_sorted(s: Seq<Cue>, x: Cue)
    requires
        time_sorted(s),
    ensures
        time_sorted(srt::insert_sorted(s, x)),
        srt::insert_sorted(s, x).len() == s.len() + 1,
        srt::insert_sorted(s, x).to_multiset() == s.to_multiset().insert(x),
    decreases s.len(),
{
    broadcast use vstd::seq_lib::group_to_multiset_ensures;

    let r = srt::insert_sorted(s, x);
    if s.len() == 0 || srt::key_le(s.last(), x) {
        assert(r == s.push(x));
        assert forall|i: int, j: int| 0 <= i < j < r.len() implies srt::key_le(#[trigger] r[i], #[trigger] r[j]) by {
            if j == s.len() {
                if i < s.len() - 1 {
                    assert(srt::key_le(s[i], s[s.len() - 1]));
                }
            }
        }
    } else {
        let d = s.drop_last();
        let y = s.last();
        assert(time_sorted(d)) by {
            assert forall|i: int, j: int| 0 <= i < j < d.len() implies srt::key_le(#[trigger] d[i], #[trigger] d[j]) by {
                assert(d[i] == s[i] && d[j] == s[j]);
            }
        }
        lemma_insert_sorted(d, x);
        let rd = srt::insert_sorted(d, x);
        assert(r == rd.push(y));
        assert forall|i: int| 0 <= i < rd.len() implies srt::key_le(#[trigger] rd[i], y) by {
            assert(rd.contains(rd[i]));
            assert(rd.to_multiset().count(rd[i]) > 0);
            if rd[i] != x {
                assert(d.to_multiset().count(rd[i]) > 0);
                assert(d.contains(rd[i]));
                let k = choose|k: int| 0 <= k < d.len() && d[k] == rd[i];
                assert(srt::key_le(s[k], s[s.len() - 1]));
            }
        }
        assert forall|i: int, j: int| 0 <= i < j < r.len() implies srt::key_le(#[trigger] r[i], #[trigger] r[j]) by {
            if j == rd.len() {
                assert(r[i] == rd[i]);
            } else {
                assert(r[i] == rd[i] && r[j] == rd[j]);
            }
        }
        assert(s == d.push(y));
        assert(r.to_multiset() =~= s.to_multiset().insert(x));
    }
}

proof fn lemma_sort_by_time(s: Seq<Cue>)
    ensures
        time_sorted(srt::sort_by_time(s)),
        srt::sort_by_time(s).len() == s.len(),
        srt::sort_by_time(s).to_multiset() == s.to_multiset(),
    decreases s.len(),
{
    broadcast use vstd::seq_lib::group_to_multiset_ensures;

    if s.len() > 0 {
        lemma_sort_by_time(s.drop_last());
        lemma_insert_sorted(srt::sort_by_time(s.drop_last()), s.last());
        assert(s == s.drop_last().push(s.last()));
    }
}

/// Sorting and re-indexing keeps every cue's times and text, puts the cues in
/// time order, and numbers them `1, 2, ...`.
pub proof fn lemma_sort_and_reindex(s: Seq<Cue>)
    ensures
        ({
            let out = srt::reindexed(srt::sort_by_time(s));
            &&& out.len() == s.len()
            &&& time_sorted(out)
            &&& forall|i: int| 0 <= i < out.len() ==> (#[trigger] out[i]).index == (i + 1) as u32
            &&& srt::sort_by_time(s).to_multiset() == s.to_multiset()
            &&& forall|i: int|
                0 <= i < out.len() ==> (#[trigger] out[i]) == (Cue { index: (i + 1) as u32, ..srt::sort_by_time(s)[i] })
        }),
{
    lemma_sort_by_time(s);
    let t = srt::sort_by_time(s);
    let out = srt::reindexed(t);
    assert forall|i: int, j: int| 0 <= i < j < out.len() implies srt::key_le(#[trigger] out[i], #[trigger] out[j]) by {
        assert(srt::key_le(t[i], t[j]));
    }
}


// ---------------------------------------------------------------------------
// Model ids
// ---------------------------------------------------------------------------

pub open spec fn ids_sorted(s: Seq<Seq<char>>) -> bool {
    forall|i: int, j: int| 0 <= i < j < s.len() ==> services::text_le(#[trigger] s[i], #[trigger] s[j])
}

proof fn lemma_text_total(a: Seq<char>, b: Seq<char>)
    ensures
        services::text_le(a, b) || services::text_le(b, a),
    decreases a.len(),
{
    if a.len() == 0 && b.len() == 0 {
        assert(a =~= b);
    } else if a.len() > 0 && b.len() > 0 && a[0] != b[0] {
        assert((a[0] as int) != (b[0] as int));
    }
    if a.len() > 0 && b.len() > 0 && a[0] == b[0] {
        lemma_text_total(a.drop_first(), b.drop_first());
        if a.drop_first() == b.drop_first() {
            assert(a =~= seq![a[0]] + a.drop_first());
            assert(b =~= seq![b[0]] + b.drop_first());
        }
    }
}

proof fn lemma_text_trans(a: Seq<char>, b: Seq<char>, c: Seq<char>)
    requires
        services::text_le(a, b),
        services::text_le(b, c),
    ensures
        services::text_le(a, c),
    decreases a.len(),
{
    if a == b || b == c {
    } else if a.len() > 0 && b.len() > 0 && c.len() > 0 && a[0] == b[0] && b[0] == c[0] {
        lemma_text_trans(a.drop_first(), b.drop_first(), c.drop_first());
        if a.drop_first() == c.drop_first() {
            assert(a =~= c) by {
                assert forall|k: int| 0 <= k < a.len() implies a[k] == c[k] by {
                    if k > 0 {
                        assert(a[k] == a.drop_first()[k - 1]);
                        assert(c[k] == c.drop_first()[k - 1]);
                    }
                }
            }
        }
    }
}

proof fn lemma_insert_id(s: Seq<Seq<char>>, x: Seq<char>)
    requires
        ids_sorted(s),
    ensures
        ids_sorted(services::insert_id(s, x)),
        services::insert_id(s, x).to_multiset() == s.to_multiset().insert(x),
    decreases s.len(),
{
    broadcast use vstd::seq_lib::group_to_multiset_ensures;

    let r = services::insert_id(s, x);
    if s.len() == 0 || services::text_le(s.last(), x) {
        assert(r == s.push(x));
        assert forall|i: int, j: int| 0 <= i < j < r.len() implies services::text_le(#[trigger] r[i], #[trigger] r[j]) by {
            if j == s.len() {
                if i < s.len() - 1 {
                    assert(services::text_le(s[i], s[s.len() - 1]));
                    lemma_text_trans(s[i], s[s.len() - 1], x);
                }
            }
        }
    } else {
        let d = s.drop_last();
        let y = s.last();
        lemma_text_total(y, x);
        assert(ids_sorted(d)) by {
            assert forall|i: int, j: int| 0 <= i < j < d.len() implies services::text_le(#[trigger] d[i], #[trigger] d[j]) by {
                assert(d[i] == s[i] && d[j] == s[j]);
            }
        }
        lemma_insert_id(d, x);
        let rd = services::insert_id(d, x);
        assert(r == rd.push(y));
        assert forall|i: int| 0 <= i < rd.len() implies services::text_le(#[trigger] rd[i], y) by {
            assert(rd.contains(rd[i]));
            assert(rd.to_multiset().count(rd[i]) > 0);
            if rd[i] != x {
                assert(d.to_multiset().count(rd[i]) > 0);
                assert(d.contains(rd[i]));
                let k = choose|k: int| 0 <= k < d.len() && d[k] == rd[i];
                assert(services::text_le(s[k], s[s.len() - 1]));
            }
        }
        assert forall|i: int, j: int| 0 <= i < j < r.len() implies services::text_le(#[trigger] r[i], #[trigger] r[j]) by {
            if j == rd.len() {
                assert(r[i] == rd[i]);
            } else {
                assert(r[i] == rd[i] && r[j] == rd[j]);
            }
        }
        assert(s == d.push(y));
        assert(r.to_multiset() =~= s.to_multiset().insert(x));
    }
}

proof fn lemma_sort_ids(s: Seq<Seq<char>>)
    ensures
        ids_sorted(services::sort_ids(s)),
        services::sort_ids(s).to_multiset() == s.to_multiset(),
    decreases s.len(),
{
    broadcast use vstd::seq_lib::group_to_multiset_ensures;

    if s.len() > 0 {
        lemma_sort_ids(s.drop_last());
        lemma_insert_id(services::sort_ids(s.drop_last()), s.last());
        assert(s == s.drop_last().push(s.last()));
    }
}

/// The model list is in ascending order and holds each listed id as often as
/// the reply does.
pub proof fn lemma_model_ids_sorted(items: Seq<crate::json::Json>)
    ensures
        ids_sorted(services::sort_ids(services::ids_in(items))),
        services::sort_ids(services::ids_in(items)).to_multiset() == services::ids_in(items).to_multiset(),
{
    lemma_sort_ids(services::ids_in(items));
}


// ---------------------------------------------------------------------------
// Reassembly
// ---------------------------------------------------------------------------

/// `c` has the number and times of some source cue.
pub open spec fn from_entries(c: Cue, entries: Seq<Cue>) -> bool {
    exists|k: int|
        0 <= k < entries.len() && #[trigger] entries[k].index == c.index && entries[k].start_ms == c.start_ms
            && entries[k].end_ms == c.end_ms
}

pub open spec fn all_from(t: Seq<Cue>, entries: Seq<Cue>) -> bool {
    forall|i: int| 0 <= i < t.len() ==> from_entries(#[trigger] t[i], entries)
}

/// Some cue of `t` has the number and times of `c`.
pub open spec fn kept_in(c: Cue, t: Seq<Cue>) -> bool {
    exists|i: int|
        0 <= i < t.len() && #[trigger] t[i].index == c.index && t[i].start_ms == c.start_ms && t[i].end_ms
            == c.end_ms
}

/// The source cues' numbers are all different.
pub open spec fn distinct_numbers(entries: Seq<Cue>) -> bool {
    forall|i: int, j: int| 0 <= i < j < entries.len() ==> #[trigger] entries[i].index != #[trigger] entries[j].index
}

proof fn lemma_upsert_from(t: Seq<Cue>, c: Cue, entries: Seq<Cue>)
    requires
        engine::by_index(t),
        all_from(t, entries),
        from_entries(c, entries),
    ensures
        engine::by_index(engine::upsert(t, c)),
        all_from(engine::upsert(t, c), entries),
{
    engine::lemma_upsert(t, c);
    let u = engine::upsert(t, c);
    assert forall|i: int| 0 <= i < u.len() implies from_entries(#[trigger] u[i], entries) by {
        if u[i].index != c.index {
            let k = u[i].index;
            assert(engine::has_index(u, k));
            assert(engine::has_index(t, k));
            let j = choose|j: int| 0 <= j < t.len() && #[trigger] t[j].index == k;
            assert(u[i] == t[j]);
            assert(from_entries(t[j], entries));
        }
    }
}

proof fn lemma_place_range_from(
    t: Seq<Cue>,
    entries: Seq<Cue>,
    g: engine::GroupSpec,
    texts: Seq<Seq<char>>,
    lo: int,
    hi: int,
)
    requires
        engine::by_index(t),
        all_from(t, entries),
        0 <= lo,
        hi <= lo || hi <= g.trans_end - g.trans_start,
        engine::group_fits(g, entries.len()),
    ensures
        engine::by_index(engine::place_range(t, entries, g, texts, lo, hi)),
        all_from(engine::place_range(t, entries, g, texts, lo, hi), entries),
    decreases hi - lo,
{
    if hi > lo {
        lemma_place_range_from(t, entries, g, texts, lo, hi - 1);
        let c = engine::placed_cue(entries, g, texts, hi - 1);
        let k = g.trans_start + hi - 1;
        assert(entries[k].index == c.index);
        lemma_upsert_from(engine::place_range(t, entries, g, texts, lo, hi - 1), c, entries);
    }
}

proof fn lemma_assemble_from(
    entries: Seq<Cue>,
    groups: Seq<engine::GroupSpec>,
    payloads: Seq<Option<engine::ParseKind>>,
    j: nat,
)
    requires
        j <= groups.len(),
        forall|i: int| 0 <= i < groups.len() ==> engine::group_fits(#[trigger] groups[i], entries.len()),
    ensures
        engine::assemble_spec(entries, groups, payloads, j) matches Ok(t) ==> engine::by_index(t) && all_from(
            t,
            entries,
        ),
    decreases j,
{
    if j > 0 {
        lemma_assemble_from(entries, groups, payloads, (j - 1) as nat);
        match engine::assemble_spec(entries, groups, payloads, (j - 1) as nat) {
            Ok(t) => match engine::slot(payloads, j - 1) {
                Some(k) => {
                    let g = groups[j - 1];
                    assert(engine::group_fits(g, entries.len()));
                    lemma_place_range_from(t, entries, g, k.texts(), engine::core_rel(g).0, engine::core_rel(g).1);
                },
                None => {},
            },
            Err(_) => {},
        }
    }
}

/// A text that sanitizing leaves as it is: no leaked index or timing line.
pub open spec fn clean_text(s: Seq<char>) -> bool {
    srt::sanitize_spec(s) == s
}

/// Every cue text of `t` is clean.
pub open spec fn all_clean(t: Seq<Cue>) -> bool {
    forall|i: int| 0 <= i < t.len() ==> clean_text(#[trigger] t[i].content)
}

proof fn lemma_upsert_clean(t: Seq<Cue>, c: Cue)
    requires
        all_clean(t),
        clean_text(c.content),
    ensures
        all_clean(engine::upsert(t, c)),
    decreases t.len(),
{
    let u = engine::upsert(t, c);
    if t.len() > 0 {
        let d = t.drop_last();
        assert forall|i: int| 0 <= i < d.len() implies clean_text(#[trigger] d[i].content) by {
            assert(d[i] == t[i]);
        }
        assert(clean_text(t[t.len() - 1].content));
        if t.last().index < c.index {
            assert forall|i: int| 0 <= i < u.len() implies clean_text(#[trigger] u[i].content) by {
                if i < t.len() {
                    assert(u[i] == t[i]);
                }
            }
        } else if t.last().index == c.index {
            assert forall|i: int| 0 <= i < u.len() implies clean_text(#[trigger] u[i].content) by {
                if i < d.len() {
                    assert(u[i] == d[i]);
                }
            }
        } else {
            lemma_upsert_clean(d, c);
            let ud = engine::upsert(d, c);
            assert forall|i: int| 0 <= i < u.len() implies clean_text(#[trigger] u[i].content) by {
                if i < ud.len() {
                    assert(u[i] == ud[i]);
                } else {
                    assert(u[i] == t.last());
                }
            }
        }
    }
}

proof fn lemma_place_range_clean(
    t: Seq<Cue>,
    entries: Seq<Cue>,
    g: engine::GroupSpec,
    texts: Seq<Seq<char>>,
    lo: int,
    hi: int,
)
    requires
        all_clean(t),
    ensures
        all_clean(engine::place_range(t, entries, g, texts, lo, hi)),
    decreases hi - lo,
{
    if hi > lo {
        lemma_place_range_clean(t, entries, g, texts, lo, hi - 1);
        roundtrip::lemma_sanitize_idempotent(texts[hi - 1]);
        lemma_upsert_clean(
            engine::place_range(t, entries, g, texts, lo, hi - 1),
            engine::placed_cue(entries, g, texts, hi - 1),
        );
    }
}

proof fn lemma_assemble_clean(
    entries: Seq<Cue>,
    groups: Seq<engine::GroupSpec>,
    payloads: Seq<Option<engine::ParseKind>>,
    j: nat,
)
    ensures
        engine::assemble_spec(entries, groups, payloads, j) matches Ok(t) ==> all_clean(t),
    decreases j,
{
    if j > 0 {
        lemma_assemble_clean(entries, groups, payloads, (j - 1) as nat);
        match engine::assemble_spec(entries, groups, payloads, (j - 1) as nat) {
            Ok(t) => match engine::slot(payloads, j - 1) {
                Some(k) => {
                    let g = groups[j - 1];
                    lemma_place_range_clean(t, entries, g, k.texts(), engine::core_rel(g).0, engine::core_rel(g).1);
                },
                None => {},
            },
            Err(_) => {},
        }
    }
}

/// A re-translated text that the cleanup accepts is clean, so putting it into
/// a table of clean texts keeps every text clean: after reassembly and the
/// per-line cleanup, every translated text equals its own sanitized form.
pub proof fn lemma_fix_keeps_clean(t: Seq<Cue>, k: u32, reply: Seq<char>, orig: Cue, expected: Seq<(u32, u32)>)
    requires
        all_clean(t),
        engine::retranslation_spec(reply, orig, expected) is Some,
    ensures
        all_clean(engine::with_text(t, k, engine::retranslation_spec(reply, orig, expected)->Some_0)),
{
    let texts = engine::payload_spec(reply, seq![orig]).1;
    roundtrip::lemma_sanitize_idempotent(texts[0]);
    let c = engine::retranslation_spec(reply, orig, expected)->Some_0;
    let u = engine::with_text(t, k, c);
    engine::lemma_position_of(t, k);
    match engine::position_of(t, k) {
        Some(p) => {
            assert forall|i: int| 0 <= i < u.len() implies clean_text(#[trigger] u[i].content) by {
                if i != p {
                    assert(u[i] == t[i]);
                }
            }
        },
        None => {},
    }
}

/// A successful reassembly gives one translated cue per source cue: as many
/// cues as the input, in increasing number order, each with the number and
/// times of a source cue and a clean text; and when the source numbers are
/// all different, every source cue has its translation under its own number
/// and times.
pub proof fn lemma_reassembly_keeps_cues(
    entries: Seq<Cue>,
    groups: Seq<engine::GroupSpec>,
    payloads: Seq<Option<engine::ParseKind>>,
)
    requires
        forall|i: int| 0 <= i < groups.len() ==> engine::group_fits(#[trigger] groups[i], entries.len()),
        engine::reassembled(entries, groups, payloads) is Ok,
    ensures
        ({
            let t = engine::reassembled(entries, groups, payloads)->Ok_0;
            &&& t.len() == entries.len()
            &&& engine::by_index(t)
            &&& all_from(t, entries)
            &&& all_clean(t)
            &&& distinct_numbers(entries) ==> forall|k: int| 0 <= k < entries.len() ==> kept_in(#[trigger] entries[k], t)
        }),
{
    lemma_assemble_from(entries, groups, payloads, groups.len());
    lemma_assemble_clean(entries, groups, payloads, groups.len());
    let t = engine::reassembled(entries, groups, payloads)->Ok_0;
    assert(engine::assemble_spec(entries, groups, payloads, groups.len()) == Ok::<Seq<Cue>, Seq<char>>(t));
    if distinct_numbers(entries) {
        lemma_covers_entries(t, entries);
    }
}

/// A table as long as the source, ordered by number and made of source cues,
/// holds every source cue when the source numbers are all different.
proof fn lemma_covers_entries(t: Seq<Cue>, entries: Seq<Cue>)
    requires
        t.len() == entries.len(),
        engine::by_index(t),
        all_from(t, entries),
        distinct_numbers(entries),
    ensures
        forall|k: int| 0 <= k < entries.len() ==> kept_in(#[trigger] entries[k], t),
{
    broadcast use vstd::seq_lib::seq_to_set_is_finite;

    let ti = t.map_values(|c: Cue| c.index);
    let ei = entries.map_values(|c: Cue| c.index);
    assert(ti.no_duplicates()) by {
        assert forall|a: int, b: int| 0 <= a < ti.len() && 0 <= b < ti.len() && a != b implies ti[a]
            != ti[b] by {
            if a < b {
                assert(t[a].index < t[b].index);
            } else {
                assert(t[b].index < t[a].index);
            }
        }
    }
    assert(ei.no_duplicates()) by {
        assert forall|a: int, b: int| 0 <= a < ei.len() && 0 <= b < ei.len() && a != b implies ei[a]
            != ei[b] by {
            if a < b {
                assert(entries[a].index != entries[b].index);
            } else {
                assert(entries[b].index != entries[a].index);
            }
        }
    }
    ti.unique_seq_to_set();
    ei.unique_seq_to_set();
    assert(ti.to_set().subset_of(ei.to_set())) by {
        assert forall|x: u32| ti.to_set().contains(x) implies ei.to_set().contains(x) by {
            let a = choose|a: int| 0 <= a < ti.len() && ti[a] == x;
            assert(from_entries(t[a], entries));
            let k = choose|k: int|
                0 <= k < entries.len() && #[trigger] entries[k].index == t[a].index && entries[k].start_ms
                    == t[a].start_ms && entries[k].end_ms == t[a].end_ms;
            assert(ei[k] == x);
        }
    }
    vstd::set_lib::lemma_subset_equality(ti.to_set(), ei.to_set());
    assert forall|k: int| 0 <= k < entries.len() implies kept_in(#[trigger] entries[k], t) by {
        assert(ei[k] == entries[k].index);
        assert(ei.to_set().contains(ei[k]));
        assert(ti.to_set().contains(ei[k]));
        let i = choose|i: int| 0 <= i < ti.len() && ti[i] == ei[k];
        assert(t[i].index == entries[k].index);
        assert(from_entries(t[i], entries));
        let k2 = choose|k2: int|
            0 <= k2 < entries.len() && #[trigger] entries[k2].index == t[i].index && entries[k2].start_ms
                == t[i].start_ms && entries[k2].end_ms == t[i].end_ms;
        if k2 != k {
            if k2 < k {
                assert(entries[k2].index != entries[k].index);
            } else {
                assert(entries[k].index != entries[k2].index);
            }
        }
    }
}

// ---------------------------------------------------------------------------
// Numbered replies
// ---------------------------------------------------------------------------

/// The numbered blocks of a reply, in reply order, as `(number, text)`.
pub open spec fn reply_blocks(t: Seq<char>) -> Seq<(u32, Seq<char>)> {
    engine::blocks_scan(text::split(srt::normalize(t), '\n'), None, seq![], seq![])
}

proof fn lemma_lookup_last_meaning(pairs: Seq<(u32, Seq<char>)>, k: u32)
    ensures
        engine::lookup_last(pairs, k) matches Some(x) ==> exists|i: int|
            0 <= i < pairs.len() && #[trigger] pairs[i] == (k, x) && forall|i2: int|
                i < i2 < pairs.len() ==> (#[trigger] pairs[i2]).0 != k,
        engine::lookup_last(pairs, k) is None ==> forall|i: int| 0 <= i < pairs.len() ==> (#[trigger] pairs[i]).0 != k,
    decreases pairs.len(),
{
    if pairs.len() > 0 {
        let d = pairs.drop_last();
        lemma_lookup_last_meaning(d, k);
        if pairs.last().0 == k {
            let i = pairs.len() - 1;
            assert(pairs[i] == (k, pairs.last().1));
        } else {
            match engine::lookup_last(d, k) {
                Some(x) => {
                    let i = choose|i: int|
                        0 <= i < d.len() && #[trigger] d[i] == (k, x) && forall|i2: int|
                            i < i2 < d.len() ==> (#[trigger] d[i2]).0 != k;
                    assert(pairs[i] == d[i]);
                    assert forall|i2: int| i < i2 < pairs.len() implies (#[trigger] pairs[i2]).0 != k by {
                        if i2 < d.len() {
                            assert(pairs[i2] == d[i2]);
                        }
                    }
                },
                None => {
                    assert forall|i: int| 0 <= i < pairs.len() implies (#[trigger] pairs[i]).0 != k by {
                        if i < d.len() {
                            assert(pairs[i] == d[i]);
                        }
                    }
                },
            }
        }
    }
}

/// A reply that is not SRT but has numbered blocks gives each cue of the
/// window the text of the block labelled with that cue's number (the last
/// one, if the number repeats), and an empty text when no block has that
/// number, wherever the blocks stand in the reply.
pub proof fn lemma_numbered_blocks_by_number(t: Seq<char>, group: Seq<Cue>)
    requires
        srt::parse_spec(t).len() == 0,
        reply_blocks(t).len() > 0,
    ensures
        !engine::payload_spec(t, group).0,
        engine::payload_spec(t, group).1.len() == group.len(),
        forall|j: int, i: int|
            0 <= j < group.len() && 0 <= i < reply_blocks(t).len() && (#[trigger] reply_blocks(t)[i]).0
                == (#[trigger] group[j]).index && (forall|i2: int|
                i < i2 < reply_blocks(t).len() ==> reply_blocks(t)[i2].0 != group[j].index)
                ==> engine::payload_spec(t, group).1[j] == reply_blocks(t)[i].1,
        forall|j: int|
            0 <= j < group.len() && (forall|i: int|
                0 <= i < reply_blocks(t).len() ==> reply_blocks(t)[i].0 != (#[trigger] group[j]).index)
                ==> engine::payload_spec(t, group).1[j] == Seq::<char>::empty(),
{
    let b = reply_blocks(t);
    let texts = engine::payload_spec(t, group).1;
    assert forall|j: int, i: int|
        0 <= j < group.len() && 0 <= i < b.len() && (#[trigger] b[i]).0 == (#[trigger] group[j]).index && (
        forall|i2: int| i < i2 < b.len() ==> b[i2].0 != group[j].index) implies texts[j] == b[i].1 by {
        let k = group[j].index;
        lemma_lookup_last_meaning(b, k);
        match engine::lookup_last(b, k) {
            Some(x) => {
                let i1 = choose|i1: int|
                    0 <= i1 < b.len() && #[trigger] b[i1] == (k, x) && forall|i2: int|
                        i1 < i2 < b.len() ==> (#[trigger] b[i2]).0 != k;
                if i1 < i {
                    assert(b[i].0 != k);
                } else if i < i1 {
                    assert(b[i1].0 != k);
                }
                assert(texts[j] == x);
            },
            None => {
                assert(b[i].0 != k);
            },
        }
    }
    assert forall|j: int|
        0 <= j < group.len() && (forall|i: int| 0 <= i < b.len() ==> b[i].0 != (#[trigger] group[j]).index)
        implies texts[j] == Seq::<char>::empty() by {
        let k = group[j].index;
        lemma_lookup_last_meaning(b, k);
        match engine::lookup_last(b, k) {
            Some(x) => {
                let i1 = choose|i1: int|
                    0 <= i1 < b.len() && #[trigger] b[i1] == (k, x) && forall|i2: int|
                        i1 < i2 < b.len() ==> (#[trigger] b[i2]).0 != k;
                assert(b[i1].0 != k);
            },
            None => {},
        }
    }
}

/// A reply that parses as SRT gives the texts of its cues, in reply order.
pub proof fn lemma_srt_reply_texts(t: Seq<char>, group: Seq<Cue>)
    requires
        srt::parse_spec(t).len() > 0,
    ensures
        engine::payload_spec(t, group).0,
        engine::payload_spec(t, group).1.len() == srt::parse_spec(t).len(),
        forall|j: int|
            0 <= j < srt::parse_spec(t).len() ==> engine::payload_spec(t, group).1[j] == (#[trigger] srt::parse_spec(
                t,
            )[j]).content,
{
}

/// A reply with neither SRT cues nor numbered blocks gives its non-blank
/// lines (trimmed) to the cues in order: line `j` to cue `j`, the cues past
/// the last line an empty text, the lines past the last cue dropped.
pub proof fn lemma_plain_lines_by_position(t: Seq<char>, group: Seq<Cue>)
    requires
        srt::parse_spec(t).len() == 0,
        reply_blocks(t).len() == 0,
    ensures
        !engine::payload_spec(t, group).0,
        engine::payload_spec(t, group).1.len() == group.len(),
        forall|j: int|
            0 <= j < group.len() ==> (#[trigger] engine::payload_spec(t, group).1[j]) == if j
                < engine::nonempty_trimmed(text::split(srt::normalize(t), '\n')).len() {
                engine::nonempty_trimmed(text::split(srt::normalize(t), '\n'))[j]
            } else {
                Seq::<char>::empty()
            },
{
    let ls = engine::nonempty_trimmed(text::split(srt::normalize(t), '\n'));
    let texts = engine::payload_spec(t, group).1;
    assert forall|j: int| 0 <= j < group.len() implies (#[trigger] texts[j]) == if j < ls.len() {
        ls[j]
    } else {
        Seq::<char>::empty()
    } by {}
}

// ---------------------------------------------------------------------------
// Script validation
// ---------------------------------------------------------------------------

/// With a known script, at least 8 letters and no foreign (non-Latin,
/// non-expected) letter, a window passes exactly when its expected-script
/// letters are at least as many as its Latin letters: a window drifted to
/// mostly Latin text is rejected, whatever few expected letters it keeps.
pub proof fn lemma_window_needs_majority(s: Seq<char>, rs: Seq<(u32, u32)>)
    requires
        rs.len() > 0,
        services::script_counts_spec(s, rs).0 + services::script_counts_spec(s, rs).1
            + services::script_counts_spec(s, rs).2 >= 8,
        services::script_counts_spec(s, rs).2 == 0,
    ensures
        services::window_ok_spec(s, rs) <==> services::script_counts_spec(s, rs).0
            >= services::script_counts_spec(s, rs).1,
        services::script_counts_spec(s, rs).0 < services::script_counts_spec(s, rs).1 ==> !services::window_ok_spec(
            s,
            rs,
        ),
{
}

proof fn lemma_counts_uniform(s: Seq<char>, rs: Seq<(u32, u32)>)
    ensures
        (forall|i: int|
            0 <= i < s.len() ==> text::char_is_alphabetic(#[trigger] s[i]) && services::latin(s[i])
                && !services::in_ranges(s[i], rs)) ==> services::script_counts_spec(s, rs) == (0nat, s.len(), 0nat),
        (forall|i: int| 0 <= i < s.len() ==> text::char_is_alphabetic(#[trigger] s[i]) && services::in_ranges(s[i], rs))
            ==> services::script_counts_spec(s, rs) == (s.len(), 0nat, 0nat),
    decreases s.len(),
{
    if s.len() > 0 {
        let d = s.drop_last();
        lemma_counts_uniform(d, rs);
        assert forall|i: int| 0 <= i < d.len() implies d[i] == s[i] by {}
        assert(s.last() == s[s.len() - 1]);
    }
}

/// A window of at least 8 letters, all Latin and none of the expected
/// script, is rejected; one of at least 8 letters, all of the expected
/// script, passes.
pub proof fn lemma_window_uniform(s: Seq<char>, rs: Seq<(u32, u32)>)
    requires
        rs.len() > 0,
        s.len() >= 8,
    ensures
        (forall|i: int|
            0 <= i < s.len() ==> text::char_is_alphabetic(#[trigger] s[i]) && services::latin(s[i])
                && !services::in_ranges(s[i], rs)) ==> !services::window_ok_spec(s, rs),
        (forall|i: int| 0 <= i < s.len() ==> text::char_is_alphabetic(#[trigger] s[i]) && services::in_ranges(s[i], rs))
            ==> services::window_ok_spec(s, rs),
{
    lemma_counts_uniform(s, rs);
}

/// Without a known script, or with fewer than 8 letters, every window passes;
/// with 8 letters or more, any foreign letter fails it.
pub proof fn lemma_window_small_or_foreign(s: Seq<char>, rs: Seq<(u32, u32)>)
    ensures
        rs.len() == 0 ==> services::window_ok_spec(s, rs),
        services::script_counts_spec(s, rs).0 + services::script_counts_spec(s, rs).1
            + services::script_counts_spec(s, rs).2 < 8 ==> services::window_ok_spec(s, rs),
        rs.len() > 0 && services::script_counts_spec(s, rs).0 + services::script_counts_spec(s, rs).1
            + services::script_counts_spec(s, rs).2 >= 8 && services::script_counts_spec(s, rs).2 > 0
            ==> !services::window_ok_spec(s, rs),
{
}

// ---------------------------------------------------------------------------
// Source track choice
// ---------------------------------------------------------------------------

/// The chosen key is that of an eligible stream and no eligible stream has a
/// smaller one; there is a choice exactly when some stream is eligible.
pub proof fn lemma_best_key_minimal(streams: Seq<Stream>, target: Seq<char>)
    ensures
        track_matcher::best_key(streams, target) is Some <==> exists|i: int|
            0 <= i < streams.len() && track_matcher::eligible(#[trigger] streams[i], target),
        track_matcher::best_key(streams, target) matches Some(k) ==> (exists|i: int|
            0 <= i < streams.len() && track_matcher::eligible(#[trigger] streams[i], target)
                && track_matcher::candidate_key(streams[i]) == k) && forall|i: int|
            0 <= i < streams.len() && track_matcher::eligible(#[trigger] streams[i], target)
                ==> !track_matcher::key_lt(track_matcher::candidate_key(streams[i]), k),
    decreases streams.len(),
{
    if streams.len() > 0 {
        let d = streams.drop_last();
        let n = streams.len() - 1;
        lemma_best_key_minimal(d, target);
        assert forall|i: int| 0 <= i < d.len() implies d[i] == streams[i] by {}
        if exists|i: int| 0 <= i < d.len() && track_matcher::eligible(#[trigger] d[i], target) {
            let w = choose|i: int| 0 <= i < d.len() && track_matcher::eligible(#[trigger] d[i], target);
            assert(track_matcher::eligible(streams[w], target));
        }
        if exists|i: int| 0 <= i < streams.len() && track_matcher::eligible(#[trigger] streams[i], target) {
            let w = choose|i: int| 0 <= i < streams.len() && track_matcher::eligible(#[trigger] streams[i], target);
            if w < n {
                assert(track_matcher::eligible(d[w], target));
            }
        }
        match track_matcher::best_key(d, target) {
            Some(kd) => {
                let w = choose|i: int|
                    0 <= i < d.len() && track_matcher::eligible(#[trigger] d[i], target)
                        && track_matcher::candidate_key(d[i]) == kd;
                assert(streams[w] == d[w]);
            },
            None => {},
        }
        match track_matcher::best_key(streams, target) {
            Some(k) => {
                assert forall|i: int|
                    0 <= i < streams.len() && track_matcher::eligible(#[trigger] streams[i], target) implies
                    !track_matcher::key_lt(track_matcher::candidate_key(streams[i]), k) by {
                    if i < n {
                        assert(track_matcher::eligible(d[i], target));
                    }
                }
            },
            None => {},
        }
    }
}

/// English comes first: when some eligible track is tagged `eng` or `en`
/// (any case, surrounding blanks ignored), the chosen track is an English
/// one.
pub proof fn lemma_pick_prefers_english(streams: Seq<Stream>, target: Seq<char>, i: int)
    requires
        0 <= i < streams.len(),
        track_matcher::eligible(streams[i], target),
        text::trim(text::lowercase(streams[i].language_spec())) == "eng"@ || text::trim(
            text::lowercase(streams[i].language_spec()),
        ) == "en"@,
    ensures
        track_matcher::best_key(streams, target) matches Some(k) && k.0 == 0 && exists|w: int|
            0 <= w < streams.len() && track_matcher::eligible(#[trigger] streams[w], target)
                && track_matcher::candidate_key(streams[w]) == k && (text::trim(
                text::lowercase(streams[w].language_spec()),
            ) == "eng"@ || text::trim(text::lowercase(streams[w].language_spec())) == "en"@),
{
    lemma_best_key_minimal(streams, target);
    let k = track_matcher::best_key(streams, target)->Some_0;
    assert(!track_matcher::key_lt(track_matcher::candidate_key(streams[i]), k));
}

/// A hearing-impaired track (title mentioning `sdh` or `hearing`, or the
/// disposition flag) is chosen only when no eligible track of the same
/// language rank lacks those marks.
pub proof fn lemma_pick_avoids_sdh(streams: Seq<Stream>, target: Seq<char>, i: int, j: int)
    requires
        0 <= i < streams.len(),
        0 <= j < streams.len(),
        track_matcher::eligible(streams[i], target),
        track_matcher::eligible(streams[j], target),
        track_matcher::title_rank_spec(streams[i]) < 2,
        text::contains(text::lowercase(text::trim(streams[j].title_spec())), "sdh"@) || text::contains(
            text::lowercase(text::trim(streams[j].title_spec())),
            "hearing"@,
        ) || streams[j].flag_spec("hearing_impaired"@),
        track_matcher::candidate_key(streams[i]).0 == track_matcher::candidate_key(streams[j]).0,
    ensures
        track_matcher::title_rank_spec(streams[j]) == 2,
        track_matcher::best_key(streams, target) matches Some(k) && k != track_matcher::candidate_key(streams[j]),
{
    lemma_best_key_minimal(streams, target);
    let k = track_matcher::best_key(streams, target)->Some_0;
    assert(!track_matcher::key_lt(track_matcher::candidate_key(streams[i]), k));
}

proof fn lemma_full_has_no_sdh()
    ensures
        !text::contains("full"@, "sdh"@),
        !text::contains("full"@, "hearing"@),
{
    reveal_strlit("full");
    reveal_strlit("sdh");
    reveal_strlit("hearing");
    text::lemma_find_from("full"@, "sdh"@, 0);
    text::lemma_find_from("full"@, "hearing"@, 0);
    match text::find_from("full"@, "sdh"@, 0) {
        Some(k) => {
            assert("full"@.subrange(k, k + 3)[0] == "full"@[k]);
            assert("sdh"@[0] == 's');
        },
        None => {},
    }
}

/// A track titled `full` (any case, surrounding blanks ignored) that is not
/// flagged hearing-impaired ranks first among titles: when it is eligible,
/// no eligible track of the same language rank with another non-empty title
/// is chosen over it.
pub proof fn lemma_full_title_preferred(streams: Seq<Stream>, target: Seq<char>, i: int, j: int)
    requires
        0 <= i < streams.len(),
        0 <= j < streams.len(),
        track_matcher::eligible(streams[i], target),
        track_matcher::eligible(streams[j], target),
        text::lowercase(text::trim(streams[i].title_spec())) == "full"@,
        !streams[i].flag_spec("hearing_impaired"@),
        text::lowercase(text::trim(streams[j].title_spec())).len() > 0,
        text::lowercase(text::trim(streams[j].title_spec())) != "full"@,
        track_matcher::candidate_key(streams[i]).0 == track_matcher::candidate_key(streams[j]).0,
    ensures
        track_matcher::title_rank_spec(streams[i]) == 0,
        track_matcher::title_rank_spec(streams[j]) >= 1,
        track_matcher::best_key(streams, target) matches Some(k) && k != track_matcher::candidate_key(streams[j]),
{
    lemma_full_has_no_sdh();
    lemma_best_key_minimal(streams, target);
    let k = track_matcher::best_key(streams, target)->Some_0;
    assert(!track_matcher::key_lt(track_matcher::candidate_key(streams[i]), k));
}

// ---------------------------------------------------------------------------
// Prices
// ---------------------------------------------------------------------------

proof fn lemma_lookup_first(t: Seq<(Seq<char>, pricing::ModelPrice)>, key: Seq<char>, i: int)
    requires
        0 <= i < t.len(),
        t[i].0 == key,
        forall|h: int| 0 <= h < i ==> (#[trigger] t[h]).0 != key,
    ensures
        pricing::lookup_spec(t, key) == Some(t[i].1),
    decreases i,
{
    if i > 0 {
        let d = t.drop_first();
        assert(t[0].0 != key);
        assert(d[i - 1] == t[i]);
        assert forall|h: int| 0 <= h < i - 1 implies (#[trigger] d[h]).0 != key by {
            assert(d[h] == t[h + 1]);
        }
        lemma_lookup_first(d, key, i - 1);
    }
}

proof fn lemma_lookup_found(t: Seq<(Seq<char>, pricing::ModelPrice)>, key: Seq<char>)
    ensures
        pricing::lookup_spec(t, key) is Some ==> exists|i: int| 0 <= i < t.len() && (#[trigger] t[i]).0 == key,
        pricing::lookup_spec(t, key) is None ==> forall|i: int| 0 <= i < t.len() ==> (#[trigger] t[i]).0 != key,
    decreases t.len(),
{
    if t.len() > 0 {
        let d = t.drop_first();
        lemma_lookup_found(d, key);
        if t[0].0 != key {
            if pricing::lookup_spec(d, key) is Some {
                let w = choose|i: int| 0 <= i < d.len() && (#[trigger] d[i]).0 == key;
                assert(t[w + 1] == d[w]);
            } else {
                assert forall|i: int| 0 <= i < t.len() implies (#[trigger] t[i]).0 != key by {
                    if i > 0 {
                        assert(t[i] == d[i - 1]);
                    }
                }
            }
        }
    }
}

/// A table lookup matches ids exactly: it finds a row exactly when some row
/// has the very id asked for, and then gives the price of the first such row.
pub proof fn lemma_lookup_exact(t: Seq<(Seq<char>, pricing::ModelPrice)>, key: Seq<char>)
    ensures
        pricing::lookup_spec(t, key) is Some <==> exists|i: int| 0 <= i < t.len() && (#[trigger] t[i]).0 == key,
        forall|i: int|
            0 <= i < t.len() && (#[trigger] t[i]).0 == key && (forall|h: int| 0 <= h < i ==> t[h].0 != key)
                ==> pricing::lookup_spec(t, key) == Some(t[i].1),
{
    lemma_lookup_found(t, key);
    assert forall|i: int|
        0 <= i < t.len() && (#[trigger] t[i]).0 == key && (forall|h: int| 0 <= h < i ==> t[h].0 != key)
        implies pricing::lookup_spec(t, key) == Some(t[i].1) by {
        lemma_lookup_first(t, key, i);
    }
}

/// The length, last character and characters 1, 4 and 6 (where present) of
/// an id: enough to tell the table's ids apart.
pub open spec fn id_sig(s: Seq<char>) -> (nat, char, char, char, char) {
    (
        s.len(),
        s[s.len() - 1],
        s[1],
        if s.len() > 4 {
            s[4]
        } else {
            ' '
        },
        if s.len() > 6 {
            s[6]
        } else {
            ' '
        },
    )
}

/// No two rows of the price table have the same id.
#[verifier::rlimit(100)]
pub proof fn lemma_price_ids_distinct()
    ensures
        forall|i: int, j: int|
            0 <= i < j < pricing::price_table().len() ==> (#[trigger] pricing::price_table()[i]).0
                != (#[trigger] pricing::price_table()[j]).0,
{
    reveal_strlit("gpt-5.4");
    reveal_strlit("gpt-5.4-mini");
    reveal_strlit("gpt-5.4-nano");
    reveal_strlit("gpt-5.4-pro");
    reveal_strlit("gpt-5.3-chat");
    reveal_strlit("gpt-5.2");
    reveal_strlit("gpt-5.2-chat");
    reveal_strlit("gpt-5.2-pro");
    reveal_strlit("gpt-5.1");
    reveal_strlit("gpt-5.1-chat");
    reveal_strlit("gpt-5");
    reveal_strlit("gpt-5-chat");
    reveal_strlit("gpt-5-mini");
    reveal_strlit("gpt-5-nano");
    reveal_strlit("gpt-4.1");
    reveal_strlit("gpt-4.1-mini");
    reveal_strlit("gpt-4.1-nano");
    reveal_strlit("gpt-4o");
    reveal_strlit("gpt-4o-mini");
    reveal_strlit("o3");
    reveal_strlit("o3-mini");
    reveal_strlit("o4-mini");
    reveal_strlit("o1");
    reveal_strlit("o1-mini");
    reveal_strlit("gpt-4-turbo");
    reveal_strlit("gpt-4");
    reveal_strlit("gpt-3.5-turbo");
    reveal_strlit("gpt-3.5-turbo-16k");
    let t = pricing::price_table();
    assert forall|i: int, j: int| 0 <= i < j < t.len() implies (#[trigger] t[i]).0 != (#[trigger] t[j]).0 by {
        assert(0 <= i < 28 && 0 <= j < 28);
        if t[i].0 == t[j].0 {
            assert(id_sig(t[i].0) == id_sig(t[j].0));
        }
    }
}

/// Every id of the price table is priced by its own row.
pub proof fn lemma_table_ids_priced_by_own_row()
    ensures
        forall|i: int|
            0 <= i < pricing::price_table().len() ==> pricing::pricing_spec((#[trigger] pricing::price_table()[i]).0)
                == Some(pricing::price_table()[i].1),
{
    let t = pricing::price_table();
    lemma_price_ids_distinct();
    assert forall|i: int| 0 <= i < t.len() implies pricing::pricing_spec((#[trigger] t[i]).0) == Some(t[i].1) by {
        lemma_lookup_exact(t, t[i].0);
        assert forall|h: int| 0 <= h < i implies t[h].0 != t[i].0 by {}
        assert(t[i].0.len() > 0) by {
            lemma_price_ids_nonempty(i);
        }
    }
}

proof fn lemma_price_ids_nonempty(i: int)
    requires
        0 <= i < pricing::price_table().len(),
    ensures
        pricing::price_table()[i].0.len() > 0,
{
    reveal_strlit("gpt-5.4");
    reveal_strlit("gpt-5.4-mini");
    reveal_strlit("gpt-5.4-nano");
    reveal_strlit("gpt-5.4-pro");
    reveal_strlit("gpt-5.3-chat");
    reveal_strlit("gpt-5.2");
    reveal_strlit("gpt-5.2-chat");
    reveal_strlit("gpt-5.2-pro");
    reveal_strlit("gpt-5.1");
    reveal_strlit("gpt-5.1-chat");
    reveal_strlit("gpt-5");
    reveal_strlit("gpt-5-chat");
    reveal_strlit("gpt-5-mini");
    reveal_strlit("gpt-5-nano");
    reveal_strlit("gpt-4.1");
    reveal_strlit("gpt-4.1-mini");
    reveal_strlit("gpt-4.1-nano");
    reveal_strlit("gpt-4o");
    reveal_strlit("gpt-4o-mini");
    reveal_strlit("o3");
    reveal_strlit("o3-mini");
    reveal_strlit("o4-mini");
    reveal_strlit("o1");
    reveal_strlit("o1-mini");
    reveal_strlit("gpt-4-turbo");
    reveal_strlit("gpt-4");
    reveal_strlit("gpt-3.5-turbo");
    reveal_strlit("gpt-3.5-turbo-16k");
}

} // verus!
