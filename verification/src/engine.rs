//! Windowed translation: how cues are split into overlapping windows, how a
//! model reply is read back into per-cue texts, the retry decisions for a
//! window, the reassembly of the translated cues and the per-cue cleanup
//! pass. The application performs the HTTP calls and feeds the replies back.
use vstd::prelude::*;
use crate::text;
use crate::srt::{self, Cue, Subtitle};
use crate::services::{self, Score};

verus! {

broadcast use vstd::string::group_string_axioms;

/// Progress reported while translating.
#[derive(Debug)]
pub enum Progress {
    /// Percentage 0-100.
    Percent(u8),
    /// Human-readable status line.
    Status(String),
    /// Full-log debug line (only when full logging is on).
    Log(String),
}

// ---------------------------------------------------------------------------
// Windows
// ---------------------------------------------------------------------------

/// One translation window: the core range `[core_start, core_end)` whose
/// translations are kept, inside the translated range `[trans_start,
/// trans_end)` that adds overlap context on both sides.
#[derive(Debug, Clone, Copy, PartialEq, Eq)]
pub struct GroupSpec {
    pub task_id: usize,
    pub core_start: usize,
    pub core_end: usize,
    pub trans_start: usize,
    pub trans_end: usize,
}

/// Window length in cues (at least 1).
pub open spec fn eff_window(window: u32) -> nat {
    if window == 0 {
        1
    } else {
        window as nat
    }
}

pub open spec fn min_nat(a: nat, b: nat) -> nat {
    if a <= b {
        a
    } else {
        b
    }
}

/// The `k`-th window over `n` cues.
pub open spec fn group_at(n: nat, w: nat, half: nat, k: nat) -> GroupSpec {
    let cs = k * w;
    let ce = min_nat(cs + w, n);
    GroupSpec {
        task_id: (k + 1) as usize,
        core_start: cs as usize,
        core_end: ce as usize,
        trans_start: (if cs >= half { cs - half } else { 0 }) as usize,
        trans_end: min_nat(ce + half, n) as usize,
    }
}

/// Split `n` cues into consecutive windows of `max(window, 1)` cues, each
/// widened by `overlap / 2` cues of context on both sides (clamped to the
/// input).
pub fn plan_groups(n: usize, window: u32, overlap: u32) -> (out: Vec<GroupSpec>)
    ensures
        out@.len() * eff_window(window) >= n,
        out@.len() == 0 || (out@.len() - 1) * eff_window(window) < n,
        forall|k: int|
            0 <= k < out@.len() ==> #[trigger] out@[k] == group_at(
                n as nat,
                eff_window(window),
                (overlap / 2) as nat,
                k as nat,
            ),
{
    let w: usize = if window == 0 {
        1
    } else {
        window as usize
    };
    let half: usize = (overlap / 2) as usize;
    let mut out: Vec<GroupSpec> = Vec::new();
    let mut s: usize = 0;
    assert(out@.len() * w == 0) by (nonlinear_arith)
        requires
            out@.len() == 0,
    ;
    while s < n
        invariant
            w == eff_window(window),
            half == (overlap / 2) as nat,
            s <= n,
            s < n ==> s == out@.len() * w,
            s == n ==> out@.len() * w >= n,
            out@.len() == 0 || (out@.len() - 1) * w < n,
            forall|k: int|
                0 <= k < out@.len() ==> #[trigger] out@[k] == group_at(
                    n as nat,
                    w as nat,
                    half as nat,
                    k as nat,
                ),
        decreases n - s,
    {
        let ghost k = out@.len();
        assert(out@.len() <= s) by (nonlinear_arith)
            requires
                out@.len() * w == s,
                w >= 1,
        ;
        let core_start = s;
        let core_end = if n - s < w {
            n
        } else {
            s + w
        };
        let trans_start = if core_start >= half {
            core_start - half
        } else {
            0
        };
        let trans_end = if n - core_end < half {
            n
        } else {
            core_end + half
        };
        let g = GroupSpec { task_id: out.len() + 1, core_start, core_end, trans_start, trans_end };
        assert(g == group_at(n as nat, w as nat, half as nat, k as nat));
        out.push(g);
        if n - s <= w {
            s = n;
            assert(out@.len() * w >= n) by (nonlinear_arith)
                requires
                    out@.len() == k + 1,
                    k * w + w >= n,
            ;
        } else {
            s = s + w;
            assert(s == out@.len() * w) by (nonlinear_arith)
                requires
                    out@.len() == k + 1,
                    s == k * w + w,
            ;
        }
    }
    out
}

/// The windows tile the input: each core starts where the previous one ended,
/// the first starts at 0 and the last ends at `n`; every core is non-empty and
/// lies inside its translated range, which lies inside `[0, n)`.
pub proof fn lemma_cores_partition(n: nat, window: u32, overlap: u32, len: nat)
    requires
        n <= usize::MAX,
        len * eff_window(window) >= n,
        len == 0 || (len - 1) * eff_window(window) < n,
    ensures
        n > 0 ==> len > 0 && group_at(n, eff_window(window), (overlap / 2) as nat, 0).core_start
            == 0 && group_at(n, eff_window(window), (overlap / 2) as nat, (len - 1) as nat).core_end
            == n,
        forall|k: nat|
            k + 1 < len ==> #[trigger] group_at(n, eff_window(window), (overlap / 2) as nat, k).core_end
                == group_at(n, eff_window(window), (overlap / 2) as nat, k + 1).core_start,
        forall|k: nat|
            k < len ==> {
                let g = #[trigger] group_at(n, eff_window(window), (overlap / 2) as nat, k);
                &&& g.trans_start <= g.core_start < g.core_end <= g.trans_end <= n
            },
{
    let w = eff_window(window);
    let half = (overlap / 2) as nat;
    assert forall|k: nat| k + 1 < len implies #[trigger] group_at(n, w, half, k).core_end
        == group_at(n, w, half, k + 1).core_start by {
        assert(k * w + w == (k + 1) * w) by (nonlinear_arith);
        assert((k + 1) * w <= (len - 1) * w) by (nonlinear_arith)
            requires
                k + 1 <= len - 1,
                w >= 1,
        ;
    }
    assert forall|k: nat| k < len implies {
        let g = #[trigger] group_at(n, w, half, k);
        &&& g.trans_start <= g.core_start < g.core_end <= g.trans_end <= n
    } by {
        assert(k * w <= (len - 1) * w) by (nonlinear_arith)
            requires
                k <= len - 1,
                w >= 1,
        ;
        let cs = k * w;
        assert(cs < n);
        let ce = min_nat(cs + w, n);
        assert(cs < ce <= n);
        let ts: nat = if cs >= half { (cs - half) as nat } else { 0 };
        let te = min_nat(ce + half, n);
        assert(ts <= cs && ce <= te <= n);
    }
    if n > 0 {
        assert(len > 0) by (nonlinear_arith)
            requires
                len * w >= n,
                n > 0,
        ;
        assert((len - 1) * w + w == len * w) by (nonlinear_arith)
            requires
                len >= 1,
        ;
        assert(0 * w == 0);
    }
}

/// Parallel workers for the window pool: `workers` clamped to `1..=10`.
pub fn worker_count(workers: u32) -> (r: usize)
    ensures
        r == if workers < 1 { 1 } else if workers > 10 { 10 } else { workers as int },
{
    if workers < 1 {
        1
    } else if workers > 10 {
        10
    } else {
        workers as usize
    }
}

/// The language named in prompts: the resolved name, or the raw target
/// language when no name was resolved.
pub fn display_lang(target_lang: &str, lang_name: &str) -> (r: String)
    ensures
        r@ == if lang_name@.len() == 0 { target_lang@ } else { lang_name@ },
{
    if lang_name.is_empty() {
        text::string_from(target_lang)
    } else {
        text::string_from(lang_name)
    }
}

// ---------------------------------------------------------------------------
// Reading a reply back
// ---------------------------------------------------------------------------

pub open spec fn strs(v: Seq<String>) -> Seq<Seq<char>> {
    v.map_values(|s: String| s@)
}

/// Per-cue texts read from a model reply.
#[derive(Debug)]
pub enum ParseKind {
    /// Parsed as SRT: cue contents in reply order.
    Srt(Vec<String>),
    /// Numbered blocks or plain lines, mapped onto the window's cues.
    Mapped(Vec<String>),
}

impl ParseKind {
    pub open spec fn texts(self) -> Seq<Seq<char>> {
        match self {
            ParseKind::Srt(v) => strs(v@),
            ParseKind::Mapped(v) => strs(v@),
        }
    }

    pub open spec fn is_srt(self) -> bool {
        self is Srt
    }

    pub fn items(&self) -> (r: &Vec<String>)
        ensures
            strs(r@) == self.texts(),
    {
        match self {
            ParseKind::Srt(v) => v,
            ParseKind::Mapped(v) => v,
        }
    }
}

/// `"12:"`-style block label: `Some(n)` for a line that trims to digits and a
/// colon, where `n` is `None` when the number does not fit in a `u32`.
pub open spec fn number_label(line: Seq<char>) -> Option<Option<u32>> {
    let t = text::trim(line);
    if t.len() >= 2 && t.last() == ':' && text::all_ascii_digits(t.drop_last()) {
        Some(
            match text::parse_uint(t.drop_last(), 10, 0xffff_ffff) {
                Some(v) => Some(v as u32),
                None => None,
            },
        )
    } else {
        None
    }
}

/// The numbered blocks of a reply, in order, as `(number, text)`: each label
/// line closes the open block (if it had a valid number) and opens the next;
/// the final open block is closed at the end.
pub open spec fn blocks_scan(
    ls: Seq<Seq<char>>,
    cur: Option<u32>,
    buff: Seq<Seq<char>>,
    pairs: Seq<(u32, Seq<char>)>,
) -> Seq<(u32, Seq<char>)>
    decreases ls.len(),
{
    let closed = match cur {
        Some(ci) => pairs.push((ci, text::join(buff, seq!['\n']))),
        None => pairs,
    };
    if ls.len() == 0 {
        closed
    } else {
        match number_label(ls[0]) {
            Some(lbl) => blocks_scan(ls.drop_first(), lbl, seq![], closed),
            None => blocks_scan(ls.drop_first(), cur, buff.push(ls[0]), pairs),
        }
    }
}

/// The text of the last block numbered `k`.
pub open spec fn lookup_last(pairs: Seq<(u32, Seq<char>)>, k: u32) -> Option<Seq<char>>
    decreases pairs.len(),
{
    if pairs.len() == 0 {
        None
    } else if pairs.last().0 == k {
        Some(pairs.last().1)
    } else {
        lookup_last(pairs.drop_last(), k)
    }
}

/// The trimmed non-empty lines.
pub open spec fn nonempty_trimmed(ls: Seq<Seq<char>>) -> Seq<Seq<char>>
    decreases ls.len(),
{
    if ls.len() == 0 {
        seq![]
    } else if text::trim(ls.last()).len() == 0 {
        nonempty_trimmed(ls.drop_last())
    } else {
        nonempty_trimmed(ls.drop_last()).push(text::trim(ls.last()))
    }
}

/// `cs` padded with empty texts or truncated to exactly `n` items.
pub open spec fn fit(cs: Seq<Seq<char>>, n: nat) -> Seq<Seq<char>> {
    if cs.len() < n {
        cs + Seq::new((n - cs.len()) as nat, |i: int| Seq::<char>::empty())
    } else {
        cs.take(n as int)
    }
}

/// What a reply says for each cue of `group`: the cue texts if it parses as
/// SRT; otherwise its numbered blocks looked up by cue number (missing ones
/// empty); otherwise its non-empty lines, padded or truncated to the window.
pub open spec fn payload_spec(t: Seq<char>, group: Seq<Cue>) -> (bool, Seq<Seq<char>>) {
    let segs = srt::parse_spec(t);
    if segs.len() > 0 {
        (true, segs.map_values(|c: Cue| c.content))
    } else {
        let ls = text::split(srt::normalize(t), '\n');
        let pairs = blocks_scan(ls, None, seq![], seq![]);
        if pairs.len() > 0 {
            (
                false,
                group.map_values(
                    |c: Cue|
                        match lookup_last(pairs, c.index) {
                            Some(x) => x,
                            None => Seq::<char>::empty(),
                        },
                ),
            )
        } else {
            (false, fit(nonempty_trimmed(ls), group.len()))
        }
    }
}

fn number_label_vec(line: &[char]) -> (r: Option<Option<u32>>)
    ensures
        r == number_label(line@),
{
    let t = text::trim_vec(line);
    if t.len() >= 2 && t[t.len() - 1] == ':' {
        let d = text::slice_of(&t, 0, t.len() - 1);
        assert(d@ =~= t@.drop_last());
        if text::all_ascii_digits_vec(&d) {
            return Some(
                match text::parse_uint_vec(&d, 10, 0xffff_ffff) {
                    Some(v) => Some(v as u32),
                    None => None,
                },
            );
        }
    }
    None
}

fn string_vec_of(v: &[char]) -> (s: String)
    ensures
        s@ == v@,
{
    text::string_of(v)
}

fn lookup_last_vec(pairs: &Vec<(u32, Vec<char>)>, k: u32) -> (r: Option<Vec<char>>)
    ensures
        r matches Some(x) ==> lookup_last(pair_views(pairs@), k) == Some(x@),
        r is None ==> lookup_last(pair_views(pairs@), k) is None,
{
    let mut i: usize = pairs.len();
    let ghost p = pair_views(pairs@);
    assert(p.take(i as int) =~= p);
    while i > 0
        invariant
            i <= pairs@.len(),
            p == pair_views(pairs@),
            lookup_last(p, k) == lookup_last(p.take(i as int), k),
        decreases i,
    {
        let ghost t = p.take(i as int);
        assert(t.last() == p[i - 1]);
        assert(t.drop_last() =~= p.take(i - 1));
        if pairs[i - 1].0 == k {
            return Some(text::slice_of(&pairs[i - 1].1, 0, pairs[i - 1].1.len()));
        }
        i = i - 1;
    }
    None
}

pub open spec fn pair_views(v: Seq<(u32, Vec<char>)>) -> Seq<(u32, Seq<char>)> {
    v.map_values(|p: (u32, Vec<char>)| (p.0, p.1@))
}

/// Read a model reply into per-cue texts via SRT, then numbered blocks, then
/// plain lines.
pub fn parse_payload(reply: &str, group: &[Subtitle]) -> (r: ParseKind)
    ensures
        (r.is_srt(), r.texts()) == payload_spec(reply@, srt::cues(group@)),
{
    let v = text::chars_of(reply);
    let segs = srt::parse_chars(&v);
    if segs.len() > 0 {
        let mut out: Vec<String> = Vec::new();
        let mut i: usize = 0;
        let ghost want = srt::cues(segs@).map_values(|c: Cue| c.content);
        while i < segs.len()
            invariant
                i <= segs@.len(),
                want == srt::cues(segs@).map_values(|c: Cue| c.content),
                strs(out@) == want.take(i as int),
            decreases segs@.len() - i,
        {
            let x = segs[i].content.clone();
            assert(x@ == want[i as int]);
            let ghost o = strs(out@);
            out.push(x);
            assert(strs(out@) =~= o.push(x@));
            assert(strs(out@) =~= want.take(i + 1));
            i = i + 1;
        }
        assert(srt::cues(segs@).map_values(|c: Cue| c.content).take(segs@.len() as int)
            =~= srt::cues(segs@).map_values(|c: Cue| c.content));
        return ParseKind::Srt(out);
    }
    let n = srt::normalize_vec(&v);
    let ls = text::split_vec(&n, '\n');
    let ghost l = text::views(ls@);
    // numbered blocks
    let mut pairs: Vec<(u32, Vec<char>)> = Vec::new();
    let mut cur: Option<u32> = None;
    let mut buff: Vec<Vec<char>> = Vec::new();
    let mut lf: Vec<char> = Vec::new();
    lf.push('\n');
    assert(lf@ =~= seq!['\n']);
    let mut i: usize = 0;
    assert(l.skip(0) =~= l);
    assert(text::views(buff@) =~= seq![]);
    assert(pair_views(pairs@) =~= seq![]);
    while i < ls.len()
        invariant
            i <= l.len(),
            l == text::views(ls@),
            lf@ == seq!['\n'],
            blocks_scan(l.skip(i as int), cur, text::views(buff@), pair_views(pairs@)) == blocks_scan(
                l,
                None,
                seq![],
                seq![],
            ),
        decreases l.len() - i,
    {
        assert(l.skip(i as int)[0] == ls@[i as int]@);
        assert(l.skip(i as int).drop_first() =~= l.skip(i + 1));
        match number_label_vec(&ls[i]) {
            Some(lbl) => {
                match cur {
                    Some(ci) => {
                        let body = text::join_vec(&buff, &lf);
                        let ghost pv = pair_views(pairs@);
                        pairs.push((ci, body));
                        assert(pair_views(pairs@) =~= pv.push((ci, body@)));
                    },
                    None => {},
                }
                cur = lbl;
                buff = Vec::new();
                assert(text::views(buff@) =~= seq![]);
            },
            None => {
                let ghost bv = text::views(buff@);
                let c = text::slice_of(&ls[i], 0, ls[i].len());
                assert(c@ =~= ls@[i as int]@);
                buff.push(c);
                assert(text::views(buff@) =~= bv.push(c@));
            },
        }
        i = i + 1;
    }
    assert(l.skip(i as int) =~= seq![]);
    match cur {
        Some(ci) => {
            let body = text::join_vec(&buff, &lf);
            let ghost pv = pair_views(pairs@);
            pairs.push((ci, body));
            assert(pair_views(pairs@) =~= pv.push((ci, body@)));
        },
        None => {},
    }
    if pairs.len() > 0 {
        let mut out: Vec<String> = Vec::new();
        let mut j: usize = 0;
        let ghost want = srt::cues(group@).map_values(
            |c: Cue|
                match lookup_last(pair_views(pairs@), c.index) {
                    Some(x) => x,
                    None => Seq::<char>::empty(),
                },
        );
        while j < group.len()
            invariant
                j <= group@.len(),
                want.len() == group@.len(),
                want == srt::cues(group@).map_values(
                    |c: Cue|
                        match lookup_last(pair_views(pairs@), c.index) {
                            Some(x) => x,
                            None => Seq::<char>::empty(),
                        },
                ),
                strs(out@) == want.take(j as int),
            decreases group@.len() - j,
        {
            let s = match lookup_last_vec(&pairs, group[j].index) {
                Some(x) => string_vec_of(&x),
                None => String::new(),
            };
            assert(s@ == want[j as int]);
            let ghost o = strs(out@);
            out.push(s);
            assert(strs(out@) =~= o.push(s@));
            assert(strs(out@) =~= want.take(j + 1));
            j = j + 1;
        }
        assert(want.take(group@.len() as int) =~= want);
        return ParseKind::Mapped(out);
    }
    // plain lines
    let mut cs: Vec<Vec<char>> = Vec::new();
    let mut k: usize = 0;
    while k < ls.len()
        invariant
            k <= l.len(),
            l == text::views(ls@),
            text::views(cs@) == nonempty_trimmed(l.take(k as int)),
        decreases l.len() - k,
    {
        let ghost t = l.take(k + 1);
        assert(t.drop_last() =~= l.take(k as int));
        assert(t.last() == ls@[k as int]@);
        let tr = text::trim_vec(&ls[k]);
        if tr.len() > 0 {
            let ghost cv = text::views(cs@);
            cs.push(tr);
            assert(text::views(cs@) =~= cv.push(text::trim(t.last())));
        }
        k = k + 1;
    }
    assert(l.take(l.len() as int) =~= l);
    let ghost fitted = fit(nonempty_trimmed(l), group@.len());
    let mut out: Vec<String> = Vec::new();
    let mut j: usize = 0;
    while j < group.len()
        invariant
            j <= group@.len(),
            text::views(cs@) == nonempty_trimmed(l),
            fitted == fit(nonempty_trimmed(l), group@.len()),
            strs(out@) == fitted.take(j as int),
        decreases group@.len() - j,
    {
        let s = if j < cs.len() {
            assert(text::views(cs@)[j as int] == cs@[j as int]@);
            string_vec_of(&cs[j])
        } else {
            String::new()
        };
        assert(s@ == fitted[j as int]);
        let ghost o = strs(out@);
        out.push(s);
        assert(strs(out@) =~= o.push(s@));
        assert(strs(out@) =~= fitted.take(j + 1));
        j = j + 1;
    }
    assert(fitted.take(group@.len() as int) =~= fitted);
    ParseKind::Mapped(out)
}


// ---------------------------------------------------------------------------
// Retrying one window
// ---------------------------------------------------------------------------

/// Attempts per window.
pub const MAX_ATTEMPTS: u32 = 3;

/// What came back from a chat request.
#[derive(Debug)]
pub enum ChatReply {
    /// The reply text.
    Reply(String),
    /// The request failed, with its error message.
    Failed(String),
}

/// Why an attempt was not accepted.
#[derive(Debug)]
pub enum RetryReason {
    RequestFailed(String),
    LineCount { got: usize, expected: usize },
    WrongScript,
}

/// The judgement on one reply for a window.
#[derive(Debug)]
pub enum Verdict {
    Failed(String),
    Miscounted { got: usize, expected: usize },
    Accepted(ParseKind),
    OffScript(ParseKind, Score),
}

/// Judge a reply for the window `group`: a failed request; a reply whose cue
/// count differs from the window's; a reply in the expected script (or any
/// reply when the script is unknown); or a reply off script, with its score.
pub fn judge(reply: ChatReply, group: &[Subtitle], expected: &[(u32, u32)]) -> (r: Verdict)
    ensures
        reply matches ChatReply::Failed(e) ==> r == Verdict::Failed(e),
        reply matches ChatReply::Reply(t) ==> {
            let (is_srt, texts) = payload_spec(t@, srt::cues(group@));
            let joined = text::join(texts, seq!['\n']);
            if texts.len() != group@.len() {
                r == Verdict::Miscounted { got: texts.len() as usize, expected: group@.len() as usize }
            } else if expected@.len() == 0 || services::window_ok_spec(joined, expected@) {
                r matches Verdict::Accepted(k) && k.is_srt() == is_srt && k.texts() == texts
            } else {
                r matches Verdict::OffScript(k, sc) && k.is_srt() == is_srt && k.texts() == texts
                    && (sc.num as int, sc.den as int) == services::score_spec(joined, expected@)
                    && sc.den > 0 && -(sc.den as int) <= sc.num <= sc.den
            }
        },
{
    match reply {
        ChatReply::Failed(e) => Verdict::Failed(e),
        ChatReply::Reply(t) => {
            let kind = parse_payload(t.as_str(), group);
            let n = kind.items().len();
            if n != group.len() {
                return Verdict::Miscounted { got: n, expected: group.len() };
            }
            let mut parts: Vec<Vec<char>> = Vec::new();
            let mut i: usize = 0;
            while i < n
                invariant
                    i <= n,
                    n == kind.texts().len(),
                    text::views(parts@) == kind.texts().take(i as int),
                decreases n - i,
            {
                let c = text::chars_of(kind.items()[i].as_str());
                let ghost o = text::views(parts@);
                parts.push(c);
                assert(text::views(parts@) =~= o.push(c@));
                assert(text::views(parts@) =~= kind.texts().take(i + 1));
                i = i + 1;
            }
            assert(kind.texts().take(n as int) =~= kind.texts());
            let mut lf: Vec<char> = Vec::new();
            lf.push('\n');
            assert(lf@ =~= seq!['\n']);
            let joined = text::join_vec(&parts, &lf);
            if expected.len() == 0 || services::window_ok_vec(&joined, expected) {
                Verdict::Accepted(kind)
            } else {
                let sc = services::script_score_exact(&joined, expected);
                Verdict::OffScript(kind, sc)
            }
        },
    }
}

/// The sampling temperature of an attempt: the configured one first, then an
/// escalated one (chosen by the application) for retry `k`.
#[derive(Debug, Clone, Copy, PartialEq, Eq)]
pub enum Temperature {
    Configured,
    Escalated(u32),
}

/// How a window ended.
#[derive(Debug)]
pub enum GroupOutcome {
    /// A reply in the expected script, from the given attempt.
    Accepted(ParseKind, u32),
    /// No reply was in the expected script; the best-scoring reply with the
    /// right cue count, from the given attempt.
    BestEffort(ParseKind, u32),
    /// No usable reply; the reason the last attempt failed.
    Failed(Option<RetryReason>),
}

/// The next step for a window.
#[derive(Debug)]
pub enum GroupAction {
    /// Wait `backoff_ms`, then send the prompt again; `reason` says why the
    /// previous attempt was rejected (none before the first attempt).
    Request { attempt: u32, temperature: Temperature, backoff_ms: u64, reason: Option<RetryReason> },
    Done(GroupOutcome),
}

/// The retry state of one window.
#[derive(Debug)]
pub struct GroupRun {
    pub attempt: u32,
    pub last_err: Option<RetryReason>,
    /// Best off-script reply so far: its score, texts and attempt.
    pub best: Option<(Score, ParseKind, u32)>,
}

pub open spec fn score_ok(sc: Score) -> bool {
    sc.den > 0 && -(sc.den as int) <= sc.num <= sc.den
}

impl GroupRun {
    pub open spec fn wf(self) -> bool {
        &&& self.attempt < MAX_ATTEMPTS
        &&& self.best matches Some(b) ==> score_ok(b.0)
    }

    /// The first request of a window.
    pub fn start() -> (r: (GroupRun, GroupAction))
        ensures
            r.0 == (GroupRun { attempt: 0, last_err: None, best: None }),
            r.1 == (GroupAction::Request {
                attempt: 0,
                temperature: Temperature::Configured,
                backoff_ms: 0,
                reason: None,
            }),
            r.0.wf(),
    {
        (
            GroupRun { attempt: 0, last_err: None, best: None },
            GroupAction::Request {
                attempt: 0,
                temperature: Temperature::Configured,
                backoff_ms: 0,
                reason: None,
            },
        )
    }

    /// The step after an attempt was not accepted: retry (0.5 s, then 1 s
    /// back-off, escalated temperature) while attempts remain, else end with
    /// the best off-script reply or the last failure.
    pub open spec fn next_spec(self) -> (GroupRun, GroupAction) {
        let a = (self.attempt + 1) as u32;
        if a < MAX_ATTEMPTS {
            (
                GroupRun { attempt: a, last_err: None, best: self.best },
                GroupAction::Request {
                    attempt: a,
                    temperature: Temperature::Escalated(a),
                    backoff_ms: if a == 1 { 500 } else { 1000 },
                    reason: self.last_err,
                },
            )
        } else {
            (
                GroupRun { attempt: a, last_err: None, best: None },
                GroupAction::Done(
                    match self.best {
                        Some(b) => GroupOutcome::BestEffort(b.1, b.2),
                        None => GroupOutcome::Failed(self.last_err),
                    },
                ),
            )
        }
    }

    pub open spec fn advance_spec(self, v: Verdict) -> (GroupRun, GroupAction) {
        match v {
            Verdict::Accepted(k) => (self, GroupAction::Done(GroupOutcome::Accepted(k, self.attempt))),
            Verdict::Failed(e) => GroupRun { last_err: Some(RetryReason::RequestFailed(e)), ..self }.next_spec(),
            Verdict::Miscounted { got, expected } => GroupRun {
                last_err: Some(RetryReason::LineCount { got, expected }),
                ..self
            }.next_spec(),
            Verdict::OffScript(k, sc) => {
                let better = match self.best {
                    None => true,
                    Some(b) => services::score_gt_spec(
                        (sc.num as int, sc.den as int),
                        (b.0.num as int, b.0.den as int),
                    ),
                };
                GroupRun {
                    last_err: Some(RetryReason::WrongScript),
                    best: if better { Some((sc, k, self.attempt)) } else { self.best },
                    ..self
                }.next_spec()
            },
        }
    }

    fn next(self) -> (r: (GroupRun, GroupAction))
        requires
            self.attempt < MAX_ATTEMPTS,
        ensures
            r == self.next_spec(),
    {
        let a = self.attempt + 1;
        if a < MAX_ATTEMPTS {
            let reason = self.last_err;
            let backoff: u64 = if a == 1 {
                500
            } else {
                1000
            };
            (
                GroupRun { attempt: a, last_err: None, best: self.best },
                GroupAction::Request {
                    attempt: a,
                    temperature: Temperature::Escalated(a),
                    backoff_ms: backoff,
                    reason,
                },
            )
        } else {
            let last = self.last_err;
            match self.best {
                Some(b) => (
                    GroupRun { attempt: a, last_err: None, best: None },
                    GroupAction::Done(GroupOutcome::BestEffort(b.1, b.2)),
                ),
                None => (
                    GroupRun { attempt: a, last_err: None, best: None },
                    GroupAction::Done(GroupOutcome::Failed(last)),
                ),
            }
        }
    }

    /// Fold the verdict on the current attempt into the window's state.
    pub fn advance(self, v: Verdict) -> (r: (GroupRun, GroupAction))
        requires
            self.wf(),
            v matches Verdict::OffScript(_, sc) ==> score_ok(sc),
        ensures
            r == self.advance_spec(v),
            r.1 matches GroupAction::Request { attempt, .. } ==> r.0.wf() && r.0.attempt == attempt,
    {
        match v {
            Verdict::Accepted(k) => {
                let a = self.attempt;
                (self, GroupAction::Done(GroupOutcome::Accepted(k, a)))
            },
            Verdict::Failed(e) => {
                GroupRun { attempt: self.attempt, last_err: Some(RetryReason::RequestFailed(e)), best: self.best }.next()
            },
            Verdict::Miscounted { got, expected } => {
                GroupRun {
                    attempt: self.attempt,
                    last_err: Some(RetryReason::LineCount { got, expected }),
                    best: self.best,
                }.next()
            },
            Verdict::OffScript(k, sc) => {
                let a = self.attempt;
                let better = match &self.best {
                    None => true,
                    Some(b) => services::score_gt(&sc, &b.0),
                };
                let best = if better {
                    Some((sc, k, a))
                } else {
                    self.best
                };
                GroupRun { attempt: a, last_err: Some(RetryReason::WrongScript), best }.next()
            },
        }
    }
}


// ---------------------------------------------------------------------------
// Messages
// ---------------------------------------------------------------------------

/// Why an attempt was rejected, as reported in retry notices and errors.
pub open spec fn reason_text(r: RetryReason, lang: Seq<char>) -> Seq<char> {
    match r {
        RetryReason::RequestFailed(e) => "request failed: "@ + e@,
        RetryReason::LineCount { got, expected } => "line count mismatch: got "@ + text::decimal(
            got as nat,
        ) + ", expected "@ + text::decimal(expected as nat),
        RetryReason::WrongScript => "output not in "@ + lang,
    }
}

fn push_str(out: &mut Vec<char>, s: &str)
    ensures
        final(out)@ == old(out)@ + s@,
{
    let c = text::chars_of(s);
    text::extend(out, &c);
}

fn push_num(out: &mut Vec<char>, n: u64)
    ensures
        final(out)@ == old(out)@ + text::decimal(n as nat),
{
    let c = text::fmt_decimal(n);
    text::extend(out, &c);
}

/// The text of a rejection reason.
pub fn reason_message(r: &RetryReason, lang: &str) -> (m: String)
    ensures
        m@ == reason_text(*r, lang@),
{
    let mut out: Vec<char> = Vec::new();
    match r {
        RetryReason::RequestFailed(e) => {
            push_str(&mut out, "request failed: ");
            push_str(&mut out, e.as_str());
        },
        RetryReason::LineCount { got, expected } => {
            push_str(&mut out, "line count mismatch: got ");
            push_num(&mut out, *got as u64);
            push_str(&mut out, ", expected ");
            push_num(&mut out, *expected as u64);
        },
        RetryReason::WrongScript => {
            push_str(&mut out, "output not in ");
            push_str(&mut out, lang);
        },
    }
    text::string_of(&out)
}

/// The notice before attempt `attempt` of window `first`-`last`, after an
/// attempt was rejected for `r`.
pub open spec fn retry_text(attempt: u32, first: u32, last: u32, r: RetryReason, lang: Seq<char>) -> Seq<char> {
    "[Retry "@ + text::decimal(attempt as nat) + "/"@ + text::decimal((MAX_ATTEMPTS - 1) as nat) + "] window "@
        + text::decimal(first as nat) + "-"@ + text::decimal(last as nat) + ": "@ + reason_text(r, lang)
        + " \u{2014} retrying"@
}

/// The retry notice for window `first`-`last`.
pub fn retry_notice(attempt: u32, first: u32, last: u32, r: &RetryReason, lang: &str) -> (m: String)
    ensures
        m@ == retry_text(attempt, first, last, *r, lang@),
{
    let mut out: Vec<char> = Vec::new();
    push_str(&mut out, "[Retry ");
    push_num(&mut out, attempt as u64);
    push_str(&mut out, "/");
    push_num(&mut out, (MAX_ATTEMPTS - 1) as u64);
    push_str(&mut out, "] window ");
    push_num(&mut out, first as u64);
    push_str(&mut out, "-");
    push_num(&mut out, last as u64);
    push_str(&mut out, ": ");
    let reason = reason_message(r, lang);
    push_str(&mut out, reason.as_str());
    push_str(&mut out, " \u{2014} retrying");
    text::string_of(&out)
}

/// The notice when a window is kept after its last attempt although it is
/// still not fully in the target language.
pub open spec fn best_effort_text(first: u32, last: u32, lang: Seq<char>) -> Seq<char> {
    "[Warning] window "@ + text::decimal(first as nat) + "-"@ + text::decimal(last as nat)
        + ": still not fully in "@ + lang + " after "@ + text::decimal(MAX_ATTEMPTS as nat)
        + " attempts \u{2014} kept best attempt; per-line cleanup will follow"@
}

/// The warning for a window (cues `first` to `last`) kept as its best attempt.
pub fn best_effort_warning(first: u32, last: u32, lang: &str) -> (m: String)
    ensures
        m@ == best_effort_text(first, last, lang@),
{
    let mut out: Vec<char> = Vec::new();
    push_str(&mut out, "[Warning] window ");
    push_num(&mut out, first as u64);
    push_str(&mut out, "-");
    push_num(&mut out, last as u64);
    push_str(&mut out, ": still not fully in ");
    push_str(&mut out, lang);
    push_str(&mut out, " after ");
    push_num(&mut out, MAX_ATTEMPTS as u64);
    push_str(&mut out, " attempts \u{2014} kept best attempt; per-line cleanup will follow");
    text::string_of(&out)
}

/// The notice for a cue that a separate re-translation left in the wrong
/// language.
pub open spec fn unfixed_line_text(index: u32, lang: Seq<char>) -> Seq<char> {
    "[Warning] line "@ + text::decimal(index as nat) + " still not in "@ + lang
        + " after a separate re-translation."@
}

/// The warning for cue `index`, still in the wrong language after its own
/// re-translation.
pub fn unfixed_line_warning(index: u32, lang: &str) -> (m: String)
    ensures
        m@ == unfixed_line_text(index, lang@),
{
    let mut out: Vec<char> = Vec::new();
    push_str(&mut out, "[Warning] line ");
    push_num(&mut out, index as u64);
    push_str(&mut out, " still not in ");
    push_str(&mut out, lang);
    push_str(&mut out, " after a separate re-translation.");
    text::string_of(&out)
}

/// How many cue numbers the closing warning lists at most.
pub const UNRESOLVED_SHOWN: usize = 20;

/// The closing notice for the cues still in the wrong language: their count
/// and the first `UNRESOLVED_SHOWN` of their numbers.
pub open spec fn unresolved_text(ns: Seq<u32>) -> Seq<char> {
    let shown = if ns.len() <= UNRESOLVED_SHOWN {
        ns
    } else {
        ns.take(UNRESOLVED_SHOWN as int)
    };
    "[Warning] "@ + text::decimal(ns.len()) + " line(s) may still not be in the target language: "@
        + list_text(shown)
}

/// The closing warning for the cues (by number) that stayed in the wrong
/// language.
pub fn unresolved_warning(ns: &Vec<u32>) -> (m: String)
    ensures
        m@ == unresolved_text(ns@),
{
    let mut shown: Vec<u32> = Vec::new();
    let mut i: usize = 0;
    while i < ns.len() && i < UNRESOLVED_SHOWN
        invariant
            i <= ns@.len(),
            i <= UNRESOLVED_SHOWN,
            shown@ == ns@.take(i as int),
        decreases ns@.len() - i,
    {
        shown.push(ns[i]);
        assert(shown@ =~= ns@.take(i + 1));
        i = i + 1;
    }
    proof {
        if ns@.len() <= UNRESOLVED_SHOWN {
            assert(ns@.take(i as int) =~= ns@);
        }
    }
    let mut out: Vec<char> = Vec::new();
    push_str(&mut out, "[Warning] ");
    push_num(&mut out, ns.len() as u64);
    push_str(&mut out, " line(s) may still not be in the target language: ");
    let l = list_message(&shown);
    text::extend(&mut out, &l);
    text::string_of(&out)
}

/// The number of the first cue of a window (0 for an empty window).
pub open spec fn first_index(w: Seq<Cue>) -> u32 {
    if w.len() == 0 {
        0
    } else {
        w[0].index
    }
}

/// The number of the last cue of a window (0 for an empty window).
pub open spec fn last_index(w: Seq<Cue>) -> u32 {
    if w.len() == 0 {
        0
    } else {
        w.last().index
    }
}

fn window_bounds(w: &[Subtitle]) -> (r: (u32, u32))
    ensures
        r == (first_index(srt::cues(w@)), last_index(srt::cues(w@))),
{
    if w.len() == 0 {
        (0, 0)
    } else {
        (w[0].index, w[w.len() - 1].index)
    }
}

/// The error of a window that never produced a usable reply.
pub open spec fn window_failure_text(w: Seq<Cue>, reason: Option<RetryReason>, lang: Seq<char>) -> Seq<
    char,
> {
    "window "@ + text::decimal(first_index(w) as nat) + "-"@ + text::decimal(last_index(w) as nat)
        + " failed after "@ + text::decimal(MAX_ATTEMPTS as nat) + " attempts: "@ + match reason {
        Some(r) => reason_text(r, lang),
        None => Seq::<char>::empty(),
    }
}

/// The per-cue texts a window ended with, or its error.
pub fn group_result(outcome: GroupOutcome, window: &[Subtitle], lang: &str) -> (r: Result<
    ParseKind,
    String,
>)
    ensures
        outcome matches GroupOutcome::Accepted(k, _) ==> r == Ok::<ParseKind, String>(k),
        outcome matches GroupOutcome::BestEffort(k, _) ==> r == Ok::<ParseKind, String>(k),
        outcome matches GroupOutcome::Failed(reason) ==> r matches Err(e) && e@
            == window_failure_text(srt::cues(window@), reason, lang@),
{
    match outcome {
        GroupOutcome::Accepted(k, _) => Ok(k),
        GroupOutcome::BestEffort(k, _) => Ok(k),
        GroupOutcome::Failed(reason) => {
            let (first, last) = window_bounds(window);
            let mut out: Vec<char> = Vec::new();
            push_str(&mut out, "window ");
            push_num(&mut out, first as u64);
            push_str(&mut out, "-");
            push_num(&mut out, last as u64);
            push_str(&mut out, " failed after ");
            push_num(&mut out, MAX_ATTEMPTS as u64);
            push_str(&mut out, " attempts: ");
            match &reason {
                Some(x) => {
                    let m = reason_message(x, lang);
                    push_str(&mut out, m.as_str());
                },
                None => {},
            }
            Err(text::string_of(&out))
        },
    }
}

// ---------------------------------------------------------------------------
// Collecting the windows' results
// ---------------------------------------------------------------------------

/// The windows' results gathered after the pool finished.
#[derive(Debug)]
pub enum Collected {
    /// The run was cancelled: the translation is empty.
    Cancelled,
    /// A window failed: the error of the whole run.
    Failed(String),
    /// The per-cue texts of each window, by window position.
    Payloads(Vec<Option<ParseKind>>),
}

/// The first failed window in completion order, with its error.
pub open spec fn first_error(rs: Seq<(usize, Result<ParseKind, String>)>) -> Option<(usize, Seq<char>)>
    decreases rs.len(),
{
    if rs.len() == 0 {
        None
    } else {
        match rs[0].1 {
            Err(e) => Some((rs[0].0, e@)),
            Ok(_) => first_error(rs.drop_first()),
        }
    }
}

/// The texts last reported for window `j`.
pub open spec fn last_payload(rs: Seq<(usize, Result<ParseKind, String>)>, j: int) -> Option<ParseKind>
    decreases rs.len(),
{
    if rs.len() == 0 {
        None
    } else {
        match rs.last().1 {
            Ok(k) => if rs.last().0 == j {
                Some(k)
            } else {
                last_payload(rs.drop_last(), j)
            },
            Err(_) => last_payload(rs.drop_last(), j),
        }
    }
}

/// The error of the whole run for window `j`'s error `e`.
pub open spec fn group_failed_text(j: usize, e: Seq<char>) -> Seq<char> {
    "Group "@ + text::decimal((j + 1) as nat) + " failed: "@ + e
}

proof fn lemma_first_error_step(rs: Seq<(usize, Result<ParseKind, String>)>, i: int)
    requires
        0 <= i < rs.len(),
        first_error(rs.take(i)) is None,
    ensures
        first_error(rs.take(i + 1)) == match rs[i].1 {
            Err(e) => Some((rs[i].0, e@)),
            Ok(_) => None::<(usize, Seq<char>)>,
        },
    decreases i,
{
    assert(rs.take(i + 1)[0] == rs[0]);
    if i == 0 {
        assert(rs.take(1).drop_first() =~= seq![]);
    } else {
        assert(rs.take(i)[0] == rs[0]);
        assert(rs.take(i + 1).drop_first() =~= rs.drop_first().take(i));
        assert(rs.take(i).drop_first() =~= rs.drop_first().take(i - 1));
        assert(rs.drop_first()[i - 1] == rs[i]);
        lemma_first_error_step(rs.drop_first(), i - 1);
    }
}

/// Gather the windows' results, as they completed: a cancelled run, or a failed
/// window (the first to fail; a failure reading `cancelled` counts as a
/// cancellation) ends the run; otherwise each of the `n` windows gets its texts.
pub fn collect_results(n: usize, results: Vec<(usize, Result<ParseKind, String>)>, cancelled: bool) -> (r:
    Collected)
    requires
        forall|i: int| 0 <= i < results@.len() ==> results@[i].0 < usize::MAX,
    ensures
        cancelled ==> r is Cancelled,
        !cancelled ==> match first_error(results@) {
            Some((j, e)) => if e == "cancelled"@ {
                r is Cancelled
            } else {
                r matches Collected::Failed(m) && m@ == group_failed_text(j, e)
            },
            None => r matches Collected::Payloads(p) && p@.len() == n && forall|j: int|
                0 <= j < n ==> #[trigger] p@[j] == last_payload(results@, j),
        },
{
    if cancelled {
        return Collected::Cancelled;
    }
    let mut slots: Vec<Option<ParseKind>> = Vec::new();
    let mut k: usize = 0;
    while k < n
        invariant
            k <= n,
            slots@.len() == k,
            forall|j: int| 0 <= j < k ==> #[trigger] slots@[j] is None,
        decreases n - k,
    {
        slots.push(None);
        k = k + 1;
    }
    let ghost rs = results@;
    assert(rs.take(0) =~= seq![]);
    for item in it: results.into_iter()
        invariant
            it.seq() == rs,
            !cancelled,
            forall|i: int| 0 <= i < rs.len() ==> rs[i].0 < usize::MAX,
            slots@.len() == n,
            first_error(rs.take(it.index() as int)) is None,
            forall|j: int|
                0 <= j < n ==> #[trigger] slots@[j] == last_payload(rs.take(it.index() as int), j),
    {
        let ghost i = it.index() as int;
        assert(item == rs[i]);
        proof {
            lemma_first_error_step(rs, i);
        }
        let ghost t = rs.take(i + 1);
        assert(t.drop_last() =~= rs.take(i));
        assert(t.last() == rs[i]);
        let (j, res) = item;
        match res {
            Err(e) => {
                proof {
                    lemma_first_error_prefix(rs, i + 1);
                }
                if text::str_eq(e.as_str(), "cancelled") {
                    return Collected::Cancelled;
                }
                let mut out: Vec<char> = Vec::new();
                push_str(&mut out, "Group ");
                push_num(&mut out, j as u64 + 1);
                push_str(&mut out, " failed: ");
                push_str(&mut out, e.as_str());
                return Collected::Failed(text::string_of(&out));
            },
            Ok(kind) => {
                if j < n {
                    slots.set(j, Some(kind));
                }
            },
        }
    }
    assert(rs.take(rs.len() as int) =~= rs);
    Collected::Payloads(slots)
}

proof fn lemma_first_error_prefix(rs: Seq<(usize, Result<ParseKind, String>)>, i: int)
    requires
        0 <= i <= rs.len(),
        first_error(rs.take(i)) is Some,
    ensures
        first_error(rs) == first_error(rs.take(i)),
    decreases i,
{
    if rs.len() > 0 && i > 0 {
        match rs[0].1 {
            Err(_) => {},
            Ok(_) => {
                assert(rs.take(i).drop_first() =~= rs.drop_first().take(i - 1));
                lemma_first_error_prefix(rs.drop_first(), i - 1);
            },
        }
    }
}

// ---------------------------------------------------------------------------
// Reassembly
// ---------------------------------------------------------------------------

/// `t` (kept in increasing cue-number order) with the cue numbered like `c`
/// replaced by `c`, or `c` inserted in order when no cue has its number.
pub open spec fn upsert(t: Seq<Cue>, c: Cue) -> Seq<Cue>
    decreases t.len(),
{
    if t.len() == 0 {
        seq![c]
    } else if t.last().index < c.index {
        t.push(c)
    } else if t.last().index == c.index {
        t.drop_last().push(c)
    } else {
        upsert(t.drop_last(), c).push(t.last())
    }
}

/// Cue numbers strictly increase along `t`.
pub open spec fn by_index(t: Seq<Cue>) -> bool {
    forall|i: int, j: int| 0 <= i < j < t.len() ==> #[trigger] t[i].index < #[trigger] t[j].index
}

/// Some cue of `t` has number `k`.
pub open spec fn has_index(t: Seq<Cue>, k: u32) -> bool {
    exists|i: int| 0 <= i < t.len() && #[trigger] t[i].index == k
}

pub open spec fn upsert_ok(t: Seq<Cue>, c: Cue, u: Seq<Cue>) -> bool {
    &&& by_index(u)
    &&& has_index(u, c.index)
    &&& forall|i: int| 0 <= i < u.len() && #[trigger] u[i].index == c.index ==> u[i] == c
    &&& forall|k: u32|
        #![trigger has_index(u, k)]
        #![trigger has_index(t, k)]
        k != c.index ==> (has_index(u, k) <==> has_index(t, k))
    &&& forall|i: int, j: int|
        0 <= i < u.len() && 0 <= j < t.len() && #[trigger] u[i].index == #[trigger] t[j].index
            && t[j].index != c.index ==> u[i] == t[j]
    &&& u.len() == if has_index(t, c.index) {
        t.len()
    } else {
        t.len() + 1
    }
}

proof fn lemma_upsert_push(t: Seq<Cue>, c: Cue)
    requires
        by_index(t),
        t.len() > 0,
        t.last().index < c.index,
    ensures
        upsert_ok(t, c, upsert(t, c)),
{
    let u = upsert(t, c);
    assert(u == t.push(c));
    assert(u[t.len() as int].index == c.index);
    assert forall|k: u32| k != c.index implies (has_index(u, k) <==> has_index(t, k)) by {
        if has_index(u, k) {
            let i = choose|i: int| 0 <= i < u.len() && #[trigger] u[i].index == k;
            assert(t[i].index == k);
        }
        if has_index(t, k) {
            let i = choose|i: int| 0 <= i < t.len() && #[trigger] t[i].index == k;
            assert(u[i].index == k);
        }
    }
    assert(!has_index(t, c.index)) by {
        if has_index(t, c.index) {
            let i = choose|i: int| 0 <= i < t.len() && #[trigger] t[i].index == c.index;
            if i < t.len() - 1 {
                assert(t[i].index < t[t.len() - 1].index);
            }
        }
    }
    assert forall|i: int, j: int|
        0 <= i < u.len() && 0 <= j < t.len() && #[trigger] u[i].index == #[trigger] t[j].index
            && t[j].index != c.index implies u[i] == t[j] by {
        if i != j && i < t.len() {
            if i < j {
                assert(t[i].index < t[j].index);
            } else {
                assert(t[j].index < t[i].index);
            }
        }
    }
}

proof fn lemma_upsert_replace(t: Seq<Cue>, c: Cue)
    requires
        by_index(t),
        t.len() > 0,
        t.last().index == c.index,
    ensures
        upsert_ok(t, c, upsert(t, c)),
{
    let u = upsert(t, c);
    let n = t.len() - 1;
    assert(u == t.drop_last().push(c));
    assert(u[n].index == c.index);
    assert(has_index(t, c.index)) by {
        assert(t[n].index == c.index);
    }
    assert forall|k: u32| k != c.index implies (has_index(u, k) <==> has_index(t, k)) by {
        if has_index(u, k) {
            let i = choose|i: int| 0 <= i < u.len() && #[trigger] u[i].index == k;
            assert(t[i].index == k);
        }
        if has_index(t, k) {
            let i = choose|i: int| 0 <= i < t.len() && #[trigger] t[i].index == k;
            assert(u[i].index == k);
        }
    }
    assert forall|i: int, j: int|
        0 <= i < u.len() && 0 <= j < t.len() && #[trigger] u[i].index == #[trigger] t[j].index
            && t[j].index != c.index implies u[i] == t[j] by {
        if i != j {
            if i < j {
                assert(t[i].index < t[j].index);
            } else {
                assert(t[j].index < t[i].index);
            }
        }
    }
}

proof fn lemma_upsert_shift(t: Seq<Cue>, c: Cue)
    requires
        by_index(t),
        t.len() > 0,
        t.last().index > c.index,
        upsert_ok(t.drop_last(), c, upsert(t.drop_last(), c)),
    ensures
        upsert_ok(t, c, upsert(t, c)),
{
    let d = t.drop_last();
    let x = t.last();
    let n = t.len() - 1;
    let ud = upsert(d, c);
    let u = upsert(t, c);
    assert(u == ud.push(x));
    assert forall|i: int| 0 <= i < ud.len() implies #[trigger] ud[i].index < x.index by {
        if ud[i].index != c.index {
            assert(has_index(ud, ud[i].index));
            assert(has_index(d, ud[i].index));
            let j = choose|j: int| 0 <= j < d.len() && #[trigger] d[j].index == ud[i].index;
            assert(t[j].index < t[n].index);
        }
    }
    assert(by_index(u));
    assert(has_index(u, c.index)) by {
        let i = choose|i: int| 0 <= i < ud.len() && #[trigger] ud[i].index == c.index;
        assert(u[i].index == c.index);
    }
    assert forall|i: int| 0 <= i < u.len() && #[trigger] u[i].index == c.index implies u[i] == c by {
        if i < ud.len() {
            assert(ud[i].index == c.index);
        }
    }
    assert forall|k: u32| k != c.index implies (has_index(u, k) <==> has_index(t, k)) by {
        if has_index(u, k) {
            let i = choose|i: int| 0 <= i < u.len() && #[trigger] u[i].index == k;
            if i < ud.len() {
                assert(ud[i].index == k);
                assert(has_index(ud, k));
                assert(has_index(d, k));
                let j = choose|j: int| 0 <= j < d.len() && #[trigger] d[j].index == k;
                assert(t[j].index == k);
            } else {
                assert(t[n].index == k);
            }
        }
        if has_index(t, k) {
            let i = choose|i: int| 0 <= i < t.len() && #[trigger] t[i].index == k;
            if i < n {
                assert(d[i].index == k);
                assert(has_index(d, k));
                assert(has_index(ud, k));
                let j = choose|j: int| 0 <= j < ud.len() && #[trigger] ud[j].index == k;
                assert(u[j].index == k);
            } else {
                assert(u[ud.len() as int].index == k);
            }
        }
    }
    assert(has_index(t, c.index) <==> has_index(d, c.index)) by {
        if has_index(t, c.index) {
            let i = choose|i: int| 0 <= i < t.len() && #[trigger] t[i].index == c.index;
            assert(i < n);
            assert(d[i].index == c.index);
        }
        if has_index(d, c.index) {
            let i = choose|i: int| 0 <= i < d.len() && #[trigger] d[i].index == c.index;
            assert(t[i].index == c.index);
        }
    }
    assert forall|i: int, j: int|
        0 <= i < u.len() && 0 <= j < t.len() && #[trigger] u[i].index == #[trigger] t[j].index
            && t[j].index != c.index implies u[i] == t[j] by {
        if i < ud.len() {
            if j < n {
                assert(d[j] == t[j]);
                assert(ud[i].index == d[j].index);
            } else {
                assert(ud[i].index < x.index);
            }
        } else {
            if j < n {
                assert(t[j].index < t[n].index);
            }
        }
    }
}

/// Upserting keeps the table ordered, holds `c`, and leaves every other
/// number's cue as it was: the table behaves as a map from cue number to cue.
pub proof fn lemma_upsert(t: Seq<Cue>, c: Cue)
    requires
        by_index(t),
    ensures
        upsert_ok(t, c, upsert(t, c)),
    decreases t.len(),
{
    if t.len() == 0 {
        let u = upsert(t, c);
        assert(u[0].index == c.index);
        assert(!has_index(t, c.index));
    } else if t.last().index < c.index {
        lemma_upsert_push(t, c);
    } else if t.last().index == c.index {
        lemma_upsert_replace(t, c);
    } else {
        lemma_upsert(t.drop_last(), c);
        lemma_upsert_shift(t, c);
    }
}

fn upsert_vec(t: &mut Vec<Subtitle>, c: Subtitle)
    ensures
        srt::cues(final(t)@) == upsert(srt::cues(old(t)@), c@),
{
    let ghost o = srt::cues(t@);
    let mut j: usize = t.len();
    assert(o.take(j as int) =~= o);
    assert(o.skip(j as int) =~= seq![]);
    while j > 0 && t[j - 1].index > c.index
        invariant
            j <= t@.len(),
            o == srt::cues(t@),
            upsert(o, c@) == upsert(o.take(j as int), c@) + o.skip(j as int),
        decreases j,
    {
        let ghost q = o.take(j as int);
        assert(q.last() == t@[j - 1]@);
        assert(q.drop_last() =~= o.take(j - 1));
        assert(upsert(o.take(j - 1), c@).push(q.last()) + o.skip(j as int) =~= upsert(
            o.take(j - 1),
            c@,
        ) + o.skip(j - 1));
        j = j - 1;
    }
    if j > 0 && t[j - 1].index == c.index {
        let ghost q = o.take(j as int);
        assert(q.last() == t@[j - 1]@);
        t.set(j - 1, c);
        assert(srt::cues(t@) =~= q.drop_last().push(c@) + o.skip(j as int));
    } else {
        proof {
            if j > 0 {
                assert(o.take(j as int).last() == t@[j - 1]@);
            }
        }
        t.insert(j, c);
        assert(srt::cues(t@) =~= o.take(j as int).push(c@) + o.skip(j as int));
    }
}

/// The positions, within a window's translated range, of its core cues.
pub open spec fn core_rel(g: GroupSpec) -> (int, int) {
    let len = g.trans_end - g.trans_start;
    let lo: int = if g.core_start >= g.trans_start {
        g.core_start - g.trans_start
    } else {
        0
    };
    let e: int = if g.core_end >= g.trans_start {
        g.core_end - g.trans_start
    } else {
        0
    };
    let hi0 = if e <= len {
        e
    } else {
        len
    };
    (lo, if hi0 >= lo {
        hi0
    } else {
        lo
    })
}

/// The translated cue at position `k` of window `g`: the source cue's number and
/// times with the sanitized reply text.
pub open spec fn placed_cue(entries: Seq<Cue>, g: GroupSpec, texts: Seq<Seq<char>>, k: int) -> Cue {
    let o = entries[g.trans_start + k];
    Cue { index: o.index, start_ms: o.start_ms, end_ms: o.end_ms, content: srt::sanitize_spec(texts[k]) }
}

/// `t` with the window's cues at positions `lo..hi` upserted in order.
pub open spec fn place_range(
    t: Seq<Cue>,
    entries: Seq<Cue>,
    g: GroupSpec,
    texts: Seq<Seq<char>>,
    lo: int,
    hi: int,
) -> Seq<Cue>
    decreases hi - lo,
{
    if hi <= lo {
        t
    } else {
        upsert(place_range(t, entries, g, texts, lo, hi - 1), placed_cue(entries, g, texts, hi - 1))
    }
}

/// The error for a window whose reply does not have one text per cue.
pub open spec fn mismatch_text(w: Seq<Cue>, got: nat) -> Seq<char> {
    "Line count mismatch in translated window "@ + text::decimal(first_index(w) as nat) + "-"@
        + text::decimal(last_index(w) as nat) + ": got "@ + text::decimal(got) + ", expected "@
        + text::decimal(w.len()) + ". Aborting batch to avoid subtitle drift."@
}

pub open spec fn slot(p: Seq<Option<ParseKind>>, j: int) -> Option<ParseKind> {
    if 0 <= j < p.len() {
        p[j]
    } else {
        None
    }
}

/// The translated cues of the first `j` windows, by cue number, or the error
/// of the first window whose reply has the wrong number of texts.
pub open spec fn assemble_spec(
    entries: Seq<Cue>,
    groups: Seq<GroupSpec>,
    payloads: Seq<Option<ParseKind>>,
    j: nat,
) -> Result<Seq<Cue>, Seq<char>>
    decreases j,
{
    if j == 0 {
        Ok(seq![])
    } else {
        match assemble_spec(entries, groups, payloads, (j - 1) as nat) {
            Err(e) => Err(e),
            Ok(t) => {
                let g = groups[j - 1];
                match slot(payloads, j - 1) {
                    None => Ok(t),
                    Some(k) => {
                        let w = entries.subrange(g.trans_start as int, g.trans_end as int);
                        if k.texts().len() != w.len() {
                            Err(mismatch_text(w, k.texts().len()))
                        } else {
                            Ok(place_range(t, entries, g, k.texts(), core_rel(g).0, core_rel(g).1))
                        }
                    },
                }
            },
        }
    }
}

/// The numbers of the first ten cues that got no translation.
pub open spec fn missing_indices(entries: Seq<Cue>, t: Seq<Cue>) -> Seq<u32>
    decreases entries.len(),
{
    if entries.len() == 0 {
        seq![]
    } else {
        let m = missing_indices(entries.drop_last(), t);
        if m.len() < 10 && !has_index(t, entries.last().index) {
            m.push(entries.last().index)
        } else {
            m
        }
    }
}

/// `{:?}` of a list of numbers: `[1, 2, 3]`.
pub open spec fn list_text(ns: Seq<u32>) -> Seq<char> {
    "["@ + text::join(ns.map_values(|n: u32| text::decimal(n as nat)), ", "@) + "]"@
}

/// The error when some cues got no translation.
pub open spec fn missing_text(entries: Seq<Cue>, t: Seq<Cue>) -> Seq<char> {
    "Missing translated entries for indices: "@ + list_text(missing_indices(entries, t))
}

/// The translated cues keyed by cue number (in number order), or the run's
/// error: a window with the wrong number of texts, or cues left untranslated.
pub open spec fn reassembled(entries: Seq<Cue>, groups: Seq<GroupSpec>, payloads: Seq<Option<ParseKind>>) -> Result<
    Seq<Cue>,
    Seq<char>,
> {
    match assemble_spec(entries, groups, payloads, groups.len()) {
        Err(e) => Err(e),
        Ok(t) => if t.len() != entries.len() {
            Err(missing_text(entries, t))
        } else {
            Ok(t)
        },
    }
}

pub open spec fn group_fits(g: GroupSpec, n: nat) -> bool {
    g.trans_start <= g.trans_end <= n
}

fn core_rel_exec(g: &GroupSpec) -> (r: (usize, usize))
    requires
        g.trans_start <= g.trans_end,
    ensures
        r.0 == core_rel(*g).0,
        r.1 == core_rel(*g).1,
{
    let len = g.trans_end - g.trans_start;
    let lo = if g.core_start >= g.trans_start {
        g.core_start - g.trans_start
    } else {
        0
    };
    let e = if g.core_end >= g.trans_start {
        g.core_end - g.trans_start
    } else {
        0
    };
    let hi0 = if e <= len {
        e
    } else {
        len
    };
    (lo, if hi0 >= lo {
        hi0
    } else {
        lo
    })
}

/// The first position of the cue numbered `k`.
pub open spec fn position_of(t: Seq<Cue>, k: u32) -> Option<int>
    decreases t.len(),
{
    if t.len() == 0 {
        None
    } else {
        match position_of(t.drop_last(), k) {
            Some(p) => Some(p),
            None => if t.last().index == k {
                Some(t.len() - 1)
            } else {
                None
            },
        }
    }
}

/// Where `position_of` points: a cue with that number.
pub proof fn lemma_position_of(t: Seq<Cue>, k: u32)
    ensures
        position_of(t, k) matches Some(p) ==> 0 <= p < t.len() && t[p].index == k,
        position_of(t, k) is None <==> !has_index(t, k),
    decreases t.len(),
{
    if t.len() > 0 {
        lemma_position_of(t.drop_last(), k);
        if has_index(t, k) && !has_index(t.drop_last(), k) {
            let i = choose|i: int| 0 <= i < t.len() && #[trigger] t[i].index == k;
            if i < t.len() - 1 {
                assert(t.drop_last()[i].index == k);
            }
        }
        if has_index(t.drop_last(), k) {
            let i = choose|i: int| 0 <= i < t.len() - 1 && #[trigger] t.drop_last()[i].index == k;
            assert(t[i].index == k);
        }
        if t.last().index == k {
            assert(t[t.len() - 1].index == k);
        }
    }
}

fn find_position(t: &Vec<Subtitle>, k: u32) -> (r: Option<usize>)
    ensures
        r matches Some(p) ==> position_of(srt::cues(t@), k) == Some(p as int),
        r is None ==> position_of(srt::cues(t@), k) is None,
{
    let ghost c = srt::cues(t@);
    let mut i: usize = 0;
    assert(c.take(0) =~= seq![]);
    while i < t.len()
        invariant
            i <= t@.len(),
            c == srt::cues(t@),
            position_of(c.take(i as int), k) is None,
        decreases t@.len() - i,
    {
        let ghost q = c.take(i + 1);
        assert(q.drop_last() =~= c.take(i as int));
        if t[i].index == k {
            proof {
                lemma_position_prefix(c, k, i + 1);
            }
            return Some(i);
        }
        i = i + 1;
    }
    assert(c.take(i as int) =~= c);
    None
}

proof fn lemma_position_prefix(t: Seq<Cue>, k: u32, n: int)
    requires
        0 <= n <= t.len(),
        position_of(t.take(n), k) is Some,
    ensures
        position_of(t, k) == position_of(t.take(n), k),
    decreases t.len() - n,
{
    if n < t.len() {
        assert(t.take(n + 1).drop_last() =~= t.take(n));
        lemma_position_prefix(t, k, n + 1);
    } else {
        assert(t.take(n) =~= t);
    }
}

fn missing_list(entries: &[Subtitle], table: &Vec<Subtitle>) -> (r: Vec<u32>)
    ensures
        r@ == missing_indices(srt::cues(entries@), srt::cues(table@)),
{
    let ghost es = srt::cues(entries@);
    let ghost t = srt::cues(table@);
    let mut out: Vec<u32> = Vec::new();
    let mut i: usize = 0;
    assert(es.take(0) =~= seq![]);
    while i < entries.len()
        invariant
            i <= entries@.len(),
            es == srt::cues(entries@),
            t == srt::cues(table@),
            out@ == missing_indices(es.take(i as int), t),
        decreases entries@.len() - i,
    {
        let ghost q = es.take(i + 1);
        assert(q.drop_last() =~= es.take(i as int));
        assert(q.last() == entries@[i as int]@);
        let found = find_position(table, entries[i].index);
        proof {
            lemma_position_of(t, entries@[i as int].index);
        }
        if out.len() < 10 && found.is_none() {
            out.push(entries[i].index);
        }
        i = i + 1;
    }
    assert(es.take(i as int) =~= es);
    out
}

fn list_message(ns: &Vec<u32>) -> (r: Vec<char>)
    ensures
        r@ == list_text(ns@),
{
    let mut parts: Vec<Vec<char>> = Vec::new();
    let mut i: usize = 0;
    while i < ns.len()
        invariant
            i <= ns@.len(),
            text::views(parts@) == ns@.take(i as int).map_values(|n: u32| text::decimal(n as nat)),
        decreases ns@.len() - i,
    {
        let ghost o = text::views(parts@);
        let d = text::fmt_decimal(ns[i] as u64);
        parts.push(d);
        assert(text::views(parts@) =~= o.push(d@));
        assert(ns@.take(i + 1).map_values(|n: u32| text::decimal(n as nat)) =~= ns@.take(
            i as int,
        ).map_values(|n: u32| text::decimal(n as nat)).push(text::decimal(ns@[i as int] as nat)));
        i = i + 1;
    }
    assert(ns@.take(i as int) =~= ns@);
    let mut out: Vec<char> = Vec::new();
    push_str(&mut out, "[");
    let mut sep: Vec<char> = Vec::new();
    push_str(&mut sep, ", ");
    let j = text::join_vec(&parts, &sep);
    text::extend(&mut out, &j);
    push_str(&mut out, "]");
    out
}

/// Put the translated cues together from the windows' texts: every window's core
/// cues, sanitized, keyed by cue number (a later window's cue replaces an
/// earlier one with the same number); an error if a window's reply does not
/// have one text per cue, or if cues are left without a translation.
pub fn assemble(entries: &[Subtitle], groups: &[GroupSpec], payloads: &Vec<Option<ParseKind>>) -> (r: Result<
    Vec<Subtitle>,
    String,
>)
    requires
        forall|j: int| 0 <= j < groups@.len() ==> group_fits(#[trigger] groups@[j], entries@.len() as nat),
    ensures
        match reassembled(srt::cues(entries@), groups@, payloads@) {
            Ok(t) => r matches Ok(v) && srt::cues(v@) == t,
            Err(e) => r matches Err(m) && m@ == e,
        },
{
    let ghost es = srt::cues(entries@);
    let mut table: Vec<Subtitle> = Vec::new();
    assert(srt::cues(table@) =~= seq![]);
    let mut j: usize = 0;
    while j < groups.len()
        invariant
            j <= groups@.len(),
            es == srt::cues(entries@),
            forall|q: int| 0 <= q < groups@.len() ==> group_fits(#[trigger] groups@[q], entries@.len() as nat),
            assemble_spec(es, groups@, payloads@, j as nat) == Ok::<Seq<Cue>, Seq<char>>(srt::cues(table@)),
        decreases groups@.len() - j,
    {
        let g = &groups[j];
        assert(group_fits(groups@[j as int], entries@.len() as nat));
        if j < payloads.len() {
            match &payloads[j] {
                None => {},
                Some(k) => {
                    let items = k.items();
                    let wlen = g.trans_end - g.trans_start;
                    let ghost w = es.subrange(g.trans_start as int, g.trans_end as int);
                    if items.len() != wlen {
                        let (first, last) = if wlen == 0 {
                            (0u32, 0u32)
                        } else {
                            (entries[g.trans_start].index, entries[g.trans_end - 1].index)
                        };
                        assert(first == first_index(w) && last == last_index(w));
                        let mut out: Vec<char> = Vec::new();
                        push_str(&mut out, "Line count mismatch in translated window ");
                        push_num(&mut out, first as u64);
                        push_str(&mut out, "-");
                        push_num(&mut out, last as u64);
                        push_str(&mut out, ": got ");
                        push_num(&mut out, items.len() as u64);
                        push_str(&mut out, ", expected ");
                        push_num(&mut out, wlen as u64);
                        push_str(&mut out, ". Aborting batch to avoid subtitle drift.");
                        proof {
                            lemma_assemble_err(es, groups@, payloads@, (j + 1) as nat, groups@.len());
                        }
                        return Err(text::string_of(&out));
                    }
                    let (lo, hi) = core_rel_exec(g);
                    let ghost t0 = srt::cues(table@);
                    let ghost texts = k.texts();
                    let mut q: usize = lo;
                    while q < hi
                        invariant
                            lo <= q <= hi,
                            lo < hi ==> hi <= items@.len(),
                            items@.len() == g.trans_end - g.trans_start,
                            g.trans_start <= g.trans_end <= entries@.len(),
                            es == srt::cues(entries@),
                            strs(items@) == texts,
                            srt::cues(table@) == place_range(t0, es, *g, texts, lo as int, q as int),
                        decreases hi - q,
                    {
                        let o = &entries[g.trans_start + q];
                        let clean = srt::sanitize_content(items[q].as_str());
                        let c = Subtitle { index: o.index, start_ms: o.start_ms, end_ms: o.end_ms, content: clean };
                        assert(c@ == placed_cue(es, *g, texts, q as int));
                        upsert_vec(&mut table, c);
                        q = q + 1;
                    }
                },
            }
        }
        j = j + 1;
    }
    if table.len() != entries.len() {
        let m = missing_list(entries, &table);
        let mut out: Vec<char> = Vec::new();
        push_str(&mut out, "Missing translated entries for indices: ");
        let l = list_message(&m);
        text::extend(&mut out, &l);
        return Err(text::string_of(&out));
    }
    Ok(table)
}

proof fn lemma_assemble_err(
    es: Seq<Cue>,
    groups: Seq<GroupSpec>,
    payloads: Seq<Option<ParseKind>>,
    j: nat,
    n: nat,
)
    requires
        j <= n,
        assemble_spec(es, groups, payloads, j) is Err,
    ensures
        assemble_spec(es, groups, payloads, n) == assemble_spec(es, groups, payloads, j),
    decreases n - j,
{
    if j < n {
        lemma_assemble_err(es, groups, payloads, j + 1, n);
    }
}

// ---------------------------------------------------------------------------
// Per-cue cleanup
// ---------------------------------------------------------------------------

/// The translation of a cue looks like it is in the wrong language.
pub open spec fn suspect_in(t: Seq<Cue>, k: u32, expected: Seq<(u32, u32)>) -> bool {
    match position_of(t, k) {
        Some(p) => services::cue_suspect_spec(t[p].content, expected),
        None => false,
    }
}

/// The source cues, in input order, whose translation looks like it is in
/// the wrong language (none when the target script is unknown).
pub open spec fn cleanup_spec(entries: Seq<Cue>, t: Seq<Cue>, expected: Seq<(u32, u32)>) -> Seq<Cue>
    decreases entries.len(),
{
    if entries.len() == 0 || expected.len() == 0 {
        seq![]
    } else {
        let rest = cleanup_spec(entries.drop_last(), t, expected);
        if suspect_in(t, entries.last().index, expected) {
            rest.push(entries.last())
        } else {
            rest
        }
    }
}

/// The cues to re-translate one by one, in input order.
pub fn cleanup_targets(entries: &[Subtitle], table: &Vec<Subtitle>, expected: &[(u32, u32)]) -> (r: Vec<
    Subtitle,
>)
    ensures
        srt::cues(r@) == cleanup_spec(srt::cues(entries@), srt::cues(table@), expected@),
{
    let ghost es = srt::cues(entries@);
    let ghost t = srt::cues(table@);
    let mut out: Vec<Subtitle> = Vec::new();
    if expected.len() == 0 {
        assert(srt::cues(out@) =~= seq![]);
        return out;
    }
    let mut i: usize = 0;
    assert(es.take(0) =~= seq![]);
    assert(srt::cues(out@) =~= seq![]);
    while i < entries.len()
        invariant
            i <= entries@.len(),
            expected@.len() > 0,
            es == srt::cues(entries@),
            t == srt::cues(table@),
            srt::cues(out@) == cleanup_spec(es.take(i as int), t, expected@),
        decreases entries@.len() - i,
    {
        let ghost q = es.take(i + 1);
        assert(q.drop_last() =~= es.take(i as int));
        assert(q.last() == entries@[i as int]@);
        let suspect = match find_position(table, entries[i].index) {
            Some(p) => {
                proof {
                    lemma_position_of(t, entries@[i as int].index);
                }
                services::cue_needs_retranslate(table[p].content.as_str(), expected)
            },
            None => false,
        };
        if suspect {
            let ghost o = srt::cues(out@);
            let c = entries[i].duplicate();
            out.push(c);
            assert(srt::cues(out@) =~= o.push(c@));
        }
        i = i + 1;
    }
    assert(es.take(i as int) =~= es);
    out
}

/// `t` with the text of the cue numbered `k` replaced (unchanged if absent).
pub open spec fn with_text(t: Seq<Cue>, k: u32, content: Seq<char>) -> Seq<Cue> {
    match position_of(t, k) {
        Some(p) => t.update(p, Cue { content, ..t[p] }),
        None => t,
    }
}

/// Put the re-translated text of the cue numbered `k` into the table.
pub fn apply_fix(table: &mut Vec<Subtitle>, k: u32, content: String)
    ensures
        srt::cues(final(table)@) == with_text(srt::cues(old(table)@), k, content@),
{
    let ghost t = srt::cues(table@);
    match find_position(table, k) {
        Some(p) => {
            proof {
                lemma_position_of(t, k);
            }
            let old_c = &table[p];
            let c = Subtitle { index: old_c.index, start_ms: old_c.start_ms, end_ms: old_c.end_ms, content };
            table.set(p, c);
            assert(srt::cues(table@) =~= t.update(p as int, Cue { content: c.content@, ..t[p as int] }));
        },
        None => {},
    }
}

/// What a single-cue re-translation reply yields: its one text, sanitized, if
/// it is non-blank and no longer looks like the wrong language.
pub open spec fn retranslation_spec(reply: Seq<char>, orig: Cue, expected: Seq<(u32, u32)>) -> Option<
    Seq<char>,
> {
    let texts = payload_spec(reply, seq![orig]).1;
    if texts.len() != 1 {
        None
    } else {
        let cand = srt::sanitize_spec(texts[0]);
        if text::trim(cand).len() != 0 && !services::cue_suspect_spec(cand, expected) {
            Some(cand)
        } else {
            None
        }
    }
}

/// Judge a reply to the single-cue re-translation of `orig`.
pub fn retranslation(reply: &str, orig: &Subtitle, expected: &[(u32, u32)]) -> (r: Option<String>)
    ensures
        r matches Some(s) ==> retranslation_spec(reply@, orig@, expected@) == Some(s@),
        r is None ==> retranslation_spec(reply@, orig@, expected@) is None,
{
    let mut group: Vec<Subtitle> = Vec::new();
    group.push(orig.duplicate());
    assert(srt::cues(group@) =~= seq![orig@]);
    let kind = parse_payload(reply, group.as_slice());
    let items = kind.items();
    if items.len() != 1 {
        return None;
    }
    let cand = srt::sanitize_content(items[0].as_str());
    let cv = text::chars_of(cand.as_str());
    let tr = text::trim_vec(&cv);
    if tr.len() != 0 && !services::cue_needs_retranslate(cand.as_str(), expected) {
        Some(cand)
    } else {
        None
    }
}

} // verus!
