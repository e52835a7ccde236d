//! SubRip (SRT) parsing, composing, re-indexing, the "still downloading"
//! sentinel cue, and the sanitizer for translated cue text.
use vstd::prelude::*;
use crate::text;

verus! {

broadcast use vstd::string::group_string_axioms;

/// A single subtitle cue. Times are whole milliseconds.
#[derive(Debug, Clone, PartialEq, Eq)]
pub struct Subtitle {
    pub index: u32,
    pub start_ms: u64,
    pub end_ms: u64,
    pub content: String,
}

/// The mathematical value of a [`Subtitle`].
pub struct Cue {
    pub index: u32,
    pub start_ms: u64,
    pub end_ms: u64,
    pub content: Seq<char>,
}

impl View for Subtitle {
    type V = Cue;

    open spec fn view(&self) -> Cue {
        Cue { index: self.index, start_ms: self.start_ms, end_ms: self.end_ms, content: self.content@ }
    }
}

pub open spec fn cues(v: Seq<Subtitle>) -> Seq<Cue> {
    v.map_values(|s: Subtitle| s@)
}

impl Subtitle {
    /// A copy of this cue.
    pub fn duplicate(&self) -> (r: Subtitle)
        ensures
            r@ == self@,
    {
        Subtitle {
            index: self.index,
            start_ms: self.start_ms,
            end_ms: self.end_ms,
            content: self.content.clone(),
        }
    }
}

// ---------------------------------------------------------------------------
// Timecodes
// ---------------------------------------------------------------------------

pub open spec fn two(n: nat) -> Seq<char> {
    text::pad_zeros(text::decimal(n), 2)
}

/// `HH:MM:SS,mmm` for `ms` milliseconds (hours are not wrapped).
pub open spec fn timecode(ms: nat) -> Seq<char> {
    two(ms / 3_600_000) + seq![':'] + two((ms % 3_600_000) / 60_000) + seq![':'] + two(
        (ms % 60_000) / 1000,
    ) + seq![','] + text::pad_zeros(text::decimal(ms % 1000), 3)
}

pub fn timecode_vec(ms: u64) -> (r: Vec<char>)
    ensures
        r@ == timecode(ms as nat),
{
    let mut r = text::fmt_padded(ms / 3_600_000, 2);
    r.push(':');
    let m = text::fmt_padded((ms % 3_600_000) / 60_000, 2);
    text::extend(&mut r, &m);
    r.push(':');
    let s = text::fmt_padded((ms % 60_000) / 1000, 2);
    text::extend(&mut r, &s);
    r.push(',');
    let f = text::fmt_padded(ms % 1000, 3);
    text::extend(&mut r, &f);
    assert(r@ =~= timecode(ms as nat));
    r
}

/// Format milliseconds as an SRT timecode `HH:MM:SS,mmm`.
pub fn format_timecode(ms: u64) -> (r: String)
    ensures
        r@ == timecode(ms as nat),
{
    let v = timecode_vec(ms);
    text::string_of(&v)
}

/// The ASCII digits of `s`, in order.
pub open spec fn ascii_digits(s: Seq<char>) -> Seq<char>
    decreases s.len(),
{
    if s.len() == 0 {
        s
    } else if text::is_ascii_digit(s.last()) {
        ascii_digits(s.drop_last()).push(s.last())
    } else {
        ascii_digits(s.drop_last())
    }
}

/// The millisecond value of the fraction digits: the first three ASCII digits,
/// right-padded with zeros (`"5"` is 500 ms, `"1234"` is 123 ms).
pub open spec fn millis_value(frac: Seq<char>) -> nat {
    let d = ascii_digits(frac);
    if d.len() == 0 {
        0
    } else {
        let t = d.take(if d.len() < 3 { d.len() as int } else { 3 });
        text::digits_value(t + Seq::new((3 - t.len()) as nat, |i: int| '0'), 10)
    }
}

pub open spec fn max_u64() -> nat {
    0xffff_ffff_ffff_ffff
}

/// A `HH:MM:SS[,.]mmm` timecode in milliseconds: three `:`-separated fields,
/// each an unsigned decimal, and an optional fraction after the first `,` or
/// `.`. `None` if malformed or if the total does not fit in a `u64`.
pub open spec fn parse_timecode_spec(tc: Seq<char>) -> Option<u64> {
    let t = text::trim(tc);
    let hms = match text::find_either(t, ',', '.') {
        Some(p) => t.take(p),
        None => t,
    };
    let frac = match text::find_either(t, ',', '.') {
        Some(p) => t.skip(p + 1),
        None => seq!['0'],
    };
    let parts = text::split(hms, ':');
    if parts.len() != 3 {
        None
    } else {
        match (
            text::parse_uint(text::trim(parts[0]), 10, max_u64()),
            text::parse_uint(text::trim(parts[1]), 10, max_u64()),
            text::parse_uint(text::trim(parts[2]), 10, max_u64()),
        ) {
            (Some(h), Some(m), Some(s)) => {
                let v = h * 3_600_000 + m * 60_000 + s * 1000 + millis_value(frac);
                if v <= max_u64() {
                    Some(v as u64)
                } else {
                    None
                }
            },
            _ => None,
        }
    }
}

fn millis_of(frac: &[char]) -> (r: u64)
    ensures
        r == millis_value(frac@),
        r < 1000,
{
    let mut d: Vec<char> = Vec::new();
    let mut i: usize = 0;
    while i < frac.len()
        invariant
            i <= frac@.len(),
            d@ == ascii_digits(frac@.take(i as int)),
            d@.len() <= i,
        decreases frac@.len() - i,
    {
        assert(frac@.take(i + 1).drop_last() =~= frac@.take(i as int));
        if '0' <= frac[i] && frac[i] <= '9' {
            d.push(frac[i]);
        }
        i = i + 1;
    }
    assert(frac@.take(frac@.len() as int) =~= frac@);
    if d.len() == 0 {
        return 0;
    }
    let k: usize = if d.len() < 3 { d.len() } else { 3 };
    let mut t = text::slice_of(&d, 0, k);
    let ghost t0 = t@;
    while t.len() < 3
        invariant
            t0 == d@.take(k as int),
            t0.len() <= t@.len() <= 3,
            t@ == t0 + Seq::new((t@.len() - t0.len()) as nat, |j: int| '0'),
        decreases 3 - t@.len(),
    {
        t.push('0');
        assert(t@ =~= t0 + Seq::new((t@.len() - t0.len()) as nat, |j: int| '0'));
    }
    assert forall|j: int| 0 <= j < t@.len() implies (#[trigger] text::digit_value(t@[j], 10)) is Some by {
        if j < t0.len() {
            lemma_ascii_digits_are_digits(frac@);
            assert(t@[j] == d@[j]);
        }
    }
    let r = text::parse_uint_vec(&t, 10, 999);
    proof {
        lemma_digits_value_bound(t@, 3);
        assert(t@[0] != '+') by {
            assert(text::digit_value(t@[0], 10) is Some);
        }
        assert(text::uint_text(t@, 10) == Some(text::digits_value(t@, 10)));
        assert(t@ == d@.take(k as int) + Seq::new((3 - k) as nat, |j: int| '0'));
    }
    match r {
        Some(v) => v,
        None => 0,
    }
}

pub proof fn lemma_ascii_digits_are_digits(s: Seq<char>)
    ensures
        forall|i: int| 0 <= i < ascii_digits(s).len() ==> text::is_ascii_digit(#[trigger] ascii_digits(s)[i]),
    decreases s.len(),
{
    if s.len() > 0 {
        lemma_ascii_digits_are_digits(s.drop_last());
        let p = ascii_digits(s.drop_last());
        if text::is_ascii_digit(s.last()) {
            assert forall|i: int| 0 <= i < ascii_digits(s).len() implies text::is_ascii_digit(
                #[trigger] ascii_digits(s)[i],
            ) by {
                if i < p.len() {
                    assert(ascii_digits(s)[i] == p[i]);
                }
            }
        }
    }
}

/// A string of `n` decimal digits has a value below `10^n`.
pub proof fn lemma_digits_value_bound(s: Seq<char>, n: nat)
    requires
        s.len() == n,
        text::all_digits(s, 10),
        n <= 3,
    ensures
        text::digits_value(s, 10) < if n == 0 { 1 } else if n == 1 { 10 } else if n == 2 { 100 } else { 1000nat },
    decreases n,
{
    if n > 0 {
        assert forall|j: int| 0 <= j < s.drop_last().len() implies (#[trigger] text::digit_value(s.drop_last()[j], 10)) is Some by {
            assert(s.drop_last()[j] == s[j]);
        }
        lemma_digits_value_bound(s.drop_last(), (n - 1) as nat);
        assert(text::digit_value(s[n - 1], 10) is Some);
    }
}

/// Parse a single `HH:MM:SS,mmm` (or `.mmm`) timecode into milliseconds.
pub fn parse_timecode(tc: &str) -> (r: Option<u64>)
    ensures
        r == parse_timecode_spec(tc@),
{
    let v = text::chars_of(tc);
    parse_timecode_vec(&v)
}

pub fn parse_timecode_vec(tc: &[char]) -> (r: Option<u64>)
    ensures
        r == parse_timecode_spec(tc@),
{
    let t = text::trim_vec(tc);
    let (hms, frac) = match text::find_either_vec(&t, ',', '.') {
        Some(p) => {
            assert(p < t.len());
            (text::slice_of(&t, 0, p), text::slice_of(&t, p + 1, t.len()))
        },
        None => {
            let mut z: Vec<char> = Vec::new();
            z.push('0');
            assert(z@ =~= seq!['0']);
            (text::slice_of(&t, 0, t.len()), z)
        },
    };
    assert(t@.take(t@.len() as int) =~= t@);
    let parts = text::split_vec(&hms, ':');
    if parts.len() != 3 {
        return None;
    }
    let h = text::parse_uint_vec(&text::trim_vec(&parts[0]), 10, 0xffff_ffff_ffff_ffff);
    let m = text::parse_uint_vec(&text::trim_vec(&parts[1]), 10, 0xffff_ffff_ffff_ffff);
    let s = text::parse_uint_vec(&text::trim_vec(&parts[2]), 10, 0xffff_ffff_ffff_ffff);
    assert(text::views(parts@)[0] == parts@[0]@);
    assert(text::views(parts@)[1] == parts@[1]@);
    assert(text::views(parts@)[2] == parts@[2]@);
    match (h, m, s) {
        (Some(h), Some(m), Some(s)) => {
            let f = millis_of(&frac);
            let h1 = h.checked_mul(3_600_000);
            let m1 = m.checked_mul(60_000);
            let s1 = s.checked_mul(1000);
            match (h1, m1, s1) {
                (Some(h1), Some(m1), Some(s1)) => {
                    match h1.checked_add(m1) {
                        Some(a) => match a.checked_add(s1) {
                            Some(b) => b.checked_add(f),
                            None => None,
                        },
                        None => None,
                    }
                },
                _ => None,
            }
        },
        _ => None,
    }
}


// ---------------------------------------------------------------------------
// Timing lines
// ---------------------------------------------------------------------------

pub open spec fn arrow() -> Seq<char> {
    seq!['-', '-', '>']
}

pub fn arrow_vec() -> (v: Vec<char>)
    ensures
        v@ == arrow(),
{
    let mut v: Vec<char> = Vec::new();
    v.push('-');
    v.push('-');
    v.push('>');
    assert(v@ =~= arrow());
    v
}

/// Start and end of an `A --> B` timing line: `A` is the trimmed text before
/// the first `-->`, `B` the first word after it (position coordinates that may
/// follow are ignored).
pub open spec fn parse_timing_spec(line: Seq<char>) -> Option<(u64, u64)> {
    match text::find(line, arrow()) {
        None => None,
        Some(a) => match parse_timecode_spec(text::trim(line.take(a))) {
            None => None,
            Some(st) => match text::first_word(text::trim(line.skip(a + 3))) {
                None => None,
                Some(tok) => match parse_timecode_spec(tok) {
                    None => None,
                    Some(en) => Some((st, en)),
                },
            },
        },
    }
}

pub fn parse_timing_vec(line: &[char]) -> (r: Option<(u64, u64)>)
    ensures
        r == parse_timing_spec(line@),
{
    let ar = arrow_vec();
    let a = match text::find_vec(line, &ar) {
        Some(a) => a,
        None => return None,
    };
    proof {
        text::lemma_find_from(line@, arrow(), 0);
    }
    let left = text::slice_of(line, 0, a);
    let st = match parse_timecode_vec(&text::trim_vec(&left)) {
        Some(st) => st,
        None => return None,
    };
    assert(text::occurs_at(line@, arrow(), a as int));
    assert(a + 3 <= line.len());
    let right = text::slice_of(line, a + 3, line.len());
    assert(right@ =~= line@.skip(a + 3));
    assert(left@ =~= line@.take(a as int));
    let rest = text::trim_vec(&right);
    let tok = match text::first_word_vec(&rest) {
        Some(t) => t,
        None => return None,
    };
    match parse_timecode_vec(&tok) {
        Some(en) => Some((st, en)),
        None => None,
    }
}

// ---------------------------------------------------------------------------
// Parsing
// ---------------------------------------------------------------------------

/// CRLF and lone CR both become LF.
pub open spec fn normalize(s: Seq<char>) -> Seq<char> {
    text::replace_all(text::replace_all(s, seq!['\r', '\n'], seq!['\n']), seq!['\r'], seq!['\n'])
}

pub fn normalize_vec(v: &[char]) -> (r: Vec<char>)
    ensures
        r@ == normalize(v@),
        r@.len() <= v@.len(),
{
    let mut crlf: Vec<char> = Vec::new();
    crlf.push('\r');
    crlf.push('\n');
    let mut lf: Vec<char> = Vec::new();
    lf.push('\n');
    let mut cr: Vec<char> = Vec::new();
    cr.push('\r');
    assert(crlf@ =~= seq!['\r', '\n']);
    assert(lf@ =~= seq!['\n']);
    assert(cr@ =~= seq!['\r']);
    let a = text::replace_vec(v, &crlf, &lf);
    let b = text::replace_vec(&a, &cr, &lf);
    proof {
        text::lemma_replace_len(v@, crlf@, lf@);
        text::lemma_replace_len(a@, cr@, lf@);
    }
    b
}

/// A line that opens a block with a cue number: it reads as a `u32` once
/// trimmed, and holds no `-->`.
pub open spec fn is_index_text(l: Seq<char>) -> bool {
    text::parse_uint(text::trim(l), 10, 0xffff_ffff) is Some && !text::contains(l, arrow())
}

/// The number of leading non-blank lines.
pub open spec fn content_len(ls: Seq<Seq<char>>) -> nat
    decreases ls.len(),
{
    if ls.len() == 0 || text::is_blank(ls[0]) {
        0
    } else {
        1 + content_len(ls.drop_first())
    }
}

pub proof fn lemma_content_len(ls: Seq<Seq<char>>)
    ensures
        content_len(ls) <= ls.len(),
    decreases ls.len(),
{
    if ls.len() > 0 && !text::is_blank(ls[0]) {
        lemma_content_len(ls.drop_first());
    }
}

/// The cues read from `ls` (lines without terminators), numbering unnumbered
/// cues from `auto + 1` on: blank lines separate blocks; a block is an optional
/// number line, a timing line, and the content lines up to the next blank line.
/// A line where a timing line is expected but none parses is dropped.
pub open spec fn parse_lines(ls: Seq<Seq<char>>, auto: nat) -> Seq<Cue>
    decreases ls.len(),
{
    if ls.len() == 0 {
        seq![]
    } else if text::is_blank(ls[0]) {
        parse_lines(ls.drop_first(), auto)
    } else {
        let has_idx = is_index_text(ls[0]);
        let rest = if has_idx {
            ls.drop_first()
        } else {
            ls
        };
        if rest.len() == 0 {
            seq![]
        } else if !text::contains(rest[0], arrow()) {
            parse_lines(rest.drop_first(), auto)
        } else {
            match parse_timing_spec(rest[0]) {
                None => parse_lines(rest.drop_first(), auto),
                Some((s, e)) => {
                    let body = rest.drop_first();
                    let n = content_len(body);
                    proof {
                        lemma_content_len(body);
                    }
                    let index: u32 = if has_idx {
                        text::parse_uint(text::trim(ls[0]), 10, 0xffff_ffff).unwrap() as u32
                    } else {
                        (auto + 1) as u32
                    };
                    seq![
                        Cue {
                            index,
                            start_ms: s,
                            end_ms: e,
                            content: text::join(body.take(n as int), seq!['\n']),
                        },
                    ] + parse_lines(body.skip(n as int), auto + 1)
                },
            }
        }
    }
}

/// The cues of SRT text.
pub open spec fn parse_spec(t: Seq<char>) -> Seq<Cue> {
    parse_lines(text::lines(normalize(t)), 0)
}

/// Parse SRT text into a list of cues. Lenient: malformed blocks are skipped.
pub fn parse(text: &str) -> (out: Vec<Subtitle>)
    ensures
        cues(out@) == parse_spec(text@),
{
    let v = text::chars_of(text);
    parse_chars(&v)
}

#[verifier::spinoff_prover]
#[verifier::rlimit(60)]
pub fn parse_chars(v: &[char]) -> (out: Vec<Subtitle>)
    ensures
        cues(out@) == parse_spec(v@),
{
    let n = normalize_vec(v);
    let ls = text::lines_vec(&n);
    let ghost l = text::views(ls@);
    let ar = arrow_vec();
    let mut lf: Vec<char> = Vec::new();
    lf.push('\n');
    assert(lf@ =~= seq!['\n']);
    let mut out: Vec<Subtitle> = Vec::new();
    let mut auto_index: usize = 0;
    let mut i: usize = 0;
    assert(l.skip(0) =~= l);
    assert(cues(out@) + parse_lines(l, 0) =~= parse_lines(l, 0));
    while i < ls.len()
        invariant
            l == text::views(ls@),
            l == text::lines(normalize(v@)),
            ar@ == arrow(),
            lf@ == seq!['\n'],
            i <= l.len(),
            out@.len() == auto_index,
            auto_index <= i,
            cues(out@) + parse_lines(l.skip(i as int), auto_index as nat) == parse_lines(l, 0),
        decreases l.len() - i,
    {
        let ghost li = l.skip(i as int);
        assert(li[0] == ls@[i as int]@);
        assert(li.drop_first() =~= l.skip(i + 1));
        if text::blank(&ls[i]) {
            i = i + 1;
            continue;
        }
        let t = text::trim_vec(&ls[i]);
        let pu = text::parse_uint_vec(&t, 10, 0xffff_ffff);
        let has_idx = pu.is_some() && !text::contains_vec(&ls[i], &ar);
        let k: usize = if has_idx {
            i + 1
        } else {
            i
        };
        let ghost rest = l.skip(k as int);
        assert(rest == if has_idx { li.drop_first() } else { li });
        if k >= ls.len() {
            assert(cues(out@) + seq![] =~= cues(out@));
            return out;
        }
        assert(rest[0] == ls@[k as int]@);
        assert(rest.drop_first() =~= l.skip(k + 1));
        if !text::contains_vec(&ls[k], &ar) {
            i = k + 1;
            continue;
        }
        match parse_timing_vec(&ls[k]) {
            None => {
                i = k + 1;
                continue;
            },
            Some((s, e)) => {
                let mut m: usize = k + 1;
                let ghost body = l.skip(k + 1);
                assert(body.skip(0) =~= body);
                while m < ls.len() && !text::blank(&ls[m])
                    invariant
                        k + 1 <= m <= l.len(),
                        l == text::views(ls@),
                        body == l.skip(k + 1),
                        content_len(body) == (m - (k + 1)) + content_len(l.skip(m as int)),
                    decreases l.len() - m,
                {
                    assert(l.skip(m as int)[0] == ls@[m as int]@);
                    assert(l.skip(m as int).drop_first() =~= l.skip(m + 1));
                    m = m + 1;
                }
                proof {
                    if m < l.len() {
                        assert(l.skip(m as int)[0] == ls@[m as int]@);
                    }
                }
                let content = text::join_range(&ls, k + 1, m, &lf);
                assert(body.take(m - (k + 1)) =~= l.subrange(k + 1, m as int));
                assert(body.skip(m - (k + 1)) =~= l.skip(m as int));
                let index: u32 = if has_idx {
                    match pu {
                        Some(x) => x as u32,
                        None => 0,
                    }
                } else {
                    let next: usize = auto_index + 1;
                    #[verifier::truncate]
                    (next as u32)
                };
                let ghost o = out@;
                out.push(
                    Subtitle { index, start_ms: s, end_ms: e, content: text::string_of(&content) },
                );
                auto_index = auto_index + 1;
                proof {
                    assert(cues(out@) =~= cues(o).push(out@[out@.len() - 1]@));
                    let c = out@[out@.len() - 1]@;
                    assert(parse_lines(li, (auto_index - 1) as nat) == seq![c] + parse_lines(
                        l.skip(m as int),
                        auto_index as nat,
                    ));
                    assert(cues(o) + (seq![c] + parse_lines(l.skip(m as int), auto_index as nat))
                        =~= cues(out@) + parse_lines(l.skip(m as int), auto_index as nat));
                }
                i = m;
            },
        }
    }
    assert(l.skip(i as int).len() == 0);
    assert(cues(out@) + seq![] =~= cues(out@));
    out
}


// ---------------------------------------------------------------------------
// Composing
// ---------------------------------------------------------------------------

pub open spec fn sep_arrow() -> Seq<char> {
    seq![' ', '-', '-', '>', ' ']
}

/// One composed cue: number, timing line, content, blank line.
pub open spec fn block(c: Cue) -> Seq<char> {
    text::decimal(c.index as nat) + seq!['\n'] + timecode(c.start_ms as nat) + sep_arrow() + timecode(
        c.end_ms as nat,
    ) + seq!['\n'] + normalize(c.content) + seq!['\n', '\n']
}

/// SRT text (LF line endings) for `cs`.
pub open spec fn compose_spec(cs: Seq<Cue>) -> Seq<char>
    decreases cs.len(),
{
    if cs.len() == 0 {
        seq![]
    } else {
        compose_spec(cs.drop_last()) + block(cs.last())
    }
}

fn block_vec(e: &Subtitle) -> (r: Vec<char>)
    ensures
        r@ == block(e@),
{
    let mut r = text::fmt_decimal(e.index as u64);
    r.push('\n');
    text::extend(&mut r, &timecode_vec(e.start_ms));
    r.push(' ');
    r.push('-');
    r.push('-');
    r.push('>');
    r.push(' ');
    text::extend(&mut r, &timecode_vec(e.end_ms));
    r.push('\n');
    let c = text::chars_of(e.content.as_str());
    text::extend(&mut r, &normalize_vec(&c));
    r.push('\n');
    r.push('\n');
    assert(r@ =~= block(e@));
    r
}

pub fn compose_vec(entries: &[Subtitle]) -> (r: Vec<char>)
    ensures
        r@ == compose_spec(cues(entries@)),
{
    let mut r: Vec<char> = Vec::new();
    let mut i: usize = 0;
    while i < entries.len()
        invariant
            i <= entries@.len(),
            r@ == compose_spec(cues(entries@).take(i as int)),
        decreases entries@.len() - i,
    {
        let e = &entries[i];
        let ghost r0 = r@;
        let b = block_vec(e);
        text::extend(&mut r, &b);
        proof {
            let t = cues(entries@).take(i + 1);
            assert(t.drop_last() =~= cues(entries@).take(i as int));
            assert(t.last() == e@);
            assert(r@ =~= r0 + block(e@));
        }
        i = i + 1;
    }
    assert(cues(entries@).take(entries@.len() as int) =~= cues(entries@));
    r
}

/// Compose cues into SRT text with `\n` line endings.
pub fn compose(entries: &[Subtitle]) -> (r: String)
    ensures
        r@ == compose_spec(cues(entries@)),
{
    let v = compose_vec(entries);
    text::string_of(&v)
}

/// Text after `write_srt_crlf`'s conversion: LF-normalized, ending in a
/// newline, every LF written as CRLF.
pub open spec fn crlf_spec(t: Seq<char>) -> Seq<char> {
    let n = normalize(t);
    let e = if n.len() > 0 && n.last() == '\n' {
        n
    } else {
        n.push('\n')
    };
    text::replace_all(e, seq!['\n'], seq!['\r', '\n'])
}

/// The bytes-to-be of an SRT file: composed cues with forced CRLF line endings
/// and a trailing newline.
pub fn srt_file_text(entries: &[Subtitle]) -> (r: String)
    ensures
        r@ == crlf_spec(compose_spec(cues(entries@))),
{
    let t = compose_vec(entries);
    let mut n = normalize_vec(&t);
    if !(n.len() > 0 && n[n.len() - 1] == '\n') {
        n.push('\n');
    }
    let mut lf: Vec<char> = Vec::new();
    lf.push('\n');
    let mut crlf: Vec<char> = Vec::new();
    crlf.push('\r');
    crlf.push('\n');
    assert(lf@ =~= seq!['\n']);
    assert(crlf@ =~= seq!['\r', '\n']);
    let out = text::replace_vec(&n, &lf, &crlf);
    text::string_of(&out)
}

// ---------------------------------------------------------------------------
// Sorting and numbering
// ---------------------------------------------------------------------------

/// `a` comes no later than `b` by `(start_ms, end_ms)`.
pub open spec fn key_le(a: Cue, b: Cue) -> bool {
    a.start_ms < b.start_ms || (a.start_ms == b.start_ms && a.end_ms <= b.end_ms)
}

/// `x` placed into `s` after every cue whose key is not greater than its own.
pub open spec fn insert_sorted(s: Seq<Cue>, x: Cue) -> Seq<Cue>
    decreases s.len(),
{
    if s.len() == 0 || key_le(s.last(), x) {
        s.push(x)
    } else {
        insert_sorted(s.drop_last(), x).push(s.last())
    }
}

/// Stable sort by `(start_ms, end_ms)`.
pub open spec fn sort_by_time(s: Seq<Cue>) -> Seq<Cue>
    decreases s.len(),
{
    if s.len() == 0 {
        s
    } else {
        insert_sorted(sort_by_time(s.drop_last()), s.last())
    }
}

/// The cues numbered `1, 2, ...` in order.
pub open spec fn reindexed(s: Seq<Cue>) -> Seq<Cue> {
    Seq::new(
        s.len(),
        |i: int| Cue { index: (i + 1) as u32, start_ms: s[i].start_ms, end_ms: s[i].end_ms, content: s[i].content },
    )
}

fn insert_by_time(out: &mut Vec<Subtitle>, x: Subtitle)
    ensures
        cues(final(out)@) == insert_sorted(cues(old(out)@), x@),
{
    let ghost o = cues(out@);
    let mut j: usize = out.len();
    assert(o.take(j as int) =~= o);
    assert(o.skip(j as int) =~= seq![]);
    while j > 0 && !(out[j - 1].start_ms < x.start_ms || (out[j - 1].start_ms == x.start_ms
        && out[j - 1].end_ms <= x.end_ms))
        invariant
            j <= out@.len(),
            o == cues(out@),
            insert_sorted(o, x@) == insert_sorted(o.take(j as int), x@) + o.skip(j as int),
        decreases j,
    {
        let ghost t = o.take(j as int);
        assert(t.last() == out@[j - 1]@);
        assert(t.drop_last() =~= o.take(j - 1));
        assert(insert_sorted(o.take(j - 1), x@).push(t.last()) + o.skip(j as int) =~= insert_sorted(
            o.take(j - 1),
            x@,
        ) + o.skip(j - 1));
        j = j - 1;
    }
    proof {
        if j > 0 {
            assert(o.take(j as int).last() == out@[j - 1]@);
        }
    }
    out.insert(j, x);
    assert(cues(out@) =~= o.take(j as int).push(x@) + o.skip(j as int));
}

/// Sort by `(start_ms, end_ms)` (stable) and number the cues `1, 2, ...`.
pub fn sort_and_reindex(entries: Vec<Subtitle>) -> (out: Vec<Subtitle>)
    ensures
        cues(out@) == reindexed(sort_by_time(cues(entries@))),
{
    let mut sorted: Vec<Subtitle> = Vec::new();
    let mut i: usize = 0;
    while i < entries.len()
        invariant
            i <= entries@.len(),
            cues(sorted@) == sort_by_time(cues(entries@).take(i as int)),
        decreases entries@.len() - i,
    {
        let ghost t = cues(entries@).take(i + 1);
        assert(t.drop_last() =~= cues(entries@).take(i as int));
        insert_by_time(&mut sorted, entries[i].duplicate());
        i = i + 1;
    }
    assert(cues(entries@).take(entries@.len() as int) =~= cues(entries@));
    renumber(&sorted)
}

/// The cues numbered `1, 2, ...` in their current order.
pub fn renumber(v: &Vec<Subtitle>) -> (out: Vec<Subtitle>)
    ensures
        cues(out@) == reindexed(cues(v@)),
{
    let mut out: Vec<Subtitle> = Vec::new();
    let mut i: usize = 0;
    while i < v.len()
        invariant
            i <= v@.len(),
            cues(out@) == reindexed(cues(v@)).take(i as int),
        decreases v@.len() - i,
    {
        let ghost o = cues(out@);
        let x = Subtitle {
            index: (i + 1) as u32,
            start_ms: v[i].start_ms,
            end_ms: v[i].end_ms,
            content: v[i].content.clone(),
        };
        assert(x@ == reindexed(cues(v@))[i as int]);
        out.push(x);
        assert(cues(out@) =~= o.push(x@));
        assert(cues(out@) =~= reindexed(cues(v@)).take(i + 1));
        i = i + 1;
    }
    assert(reindexed(cues(v@)).take(v@.len() as int) =~= reindexed(cues(v@)));
    out
}

// ---------------------------------------------------------------------------
// Sentinel
// ---------------------------------------------------------------------------

/// Placeholder cue appended after the last translated line while a file is
/// still downloading, telling the viewer to pause.
pub const SENTINEL_TEXT: &'static str = "SUBTITLES NOT TRANSLATED YET \u{2014} MOVIE STILL DOWNLOADING \u{2014} PLEASE PAUSE";

pub open spec fn is_sentinel_cue(c: Cue) -> bool {
    text::trim(c.content) == SENTINEL_TEXT@
}

pub fn is_sentinel(sub: &Subtitle) -> (b: bool)
    ensures
        b == is_sentinel_cue(sub@),
{
    let c = text::chars_of(sub.content.as_str());
    let t = text::trim_vec(&c);
    let s = text::chars_of(SENTINEL_TEXT);
    text::eq_vec(&t, &s)
}

pub open spec fn strip_sentinel_spec(s: Seq<Cue>) -> Seq<Cue> {
    if s.len() > 0 && is_sentinel_cue(s.last()) {
        s.drop_last()
    } else {
        s
    }
}

/// Drop a trailing sentinel cue if present.
pub fn strip_sentinel(entries: Vec<Subtitle>) -> (out: Vec<Subtitle>)
    ensures
        cues(out@) == strip_sentinel_spec(cues(entries@)),
{
    let mut entries = entries;
    let n = entries.len();
    if n > 0 && is_sentinel(&entries[n - 1]) {
        let ghost e = cues(entries@);
        entries.pop();
        assert(cues(entries@) =~= e.drop_last());
    }
    entries
}

/// `HH:MM:SS` for `ms` milliseconds.
pub open spec fn hms(ms: nat) -> Seq<char> {
    let s = ms / 1000;
    two(s / 3600) + seq![':'] + two((s / 60) % 60) + seq![':'] + two(s % 60)
}

/// Format milliseconds as `HH:MM:SS`.
pub fn ms_to_hms(ms: u64) -> (r: String)
    ensures
        r@ == hms(ms as nat),
{
    let s = ms / 1000;
    let mut v = text::fmt_padded(s / 3600, 2);
    v.push(':');
    text::extend(&mut v, &text::fmt_padded((s / 60) % 60, 2));
    v.push(':');
    text::extend(&mut v, &text::fmt_padded(s % 60, 2));
    assert(v@ =~= hms(ms as nat));
    text::string_of(&v)
}

/// Four hours, the length of the sentinel cue.
pub open spec fn sentinel_span() -> nat {
    14_400_000
}

pub open spec fn sentinel_cue(after_end_ms: nat) -> Cue {
    Cue {
        index: 0,
        start_ms: (after_end_ms + 1) as u64,
        end_ms: (after_end_ms + sentinel_span()) as u64,
        content: SENTINEL_TEXT@,
    }
}

pub fn make_sentinel(after_end_ms: u64) -> (r: Subtitle)
    requires
        after_end_ms + sentinel_span() <= u64::MAX,
    ensures
        r@ == sentinel_cue(after_end_ms as nat),
{
    Subtitle {
        index: 0,
        start_ms: after_end_ms + 1,
        end_ms: after_end_ms + 4 * 3_600_000,
        content: text::string_from(SENTINEL_TEXT),
    }
}

/// The cues of an output file after appending `new`: the old cues without a
/// trailing sentinel, then `new`, then a fresh sentinel after the last end
/// time, numbered `1, 2, ...`.
pub open spec fn with_sentinel_spec(existing: Seq<Cue>, new: Seq<Cue>) -> Seq<Cue> {
    let base = strip_sentinel_spec(existing) + new;
    let all = if base.len() > 0 {
        base.push(sentinel_cue(base.last().end_ms as nat))
    } else {
        base
    };
    reindexed(all)
}

/// The sentinel after the appended cues does not overflow the time range.
pub open spec fn sentinel_fits(existing: Seq<Cue>, new: Seq<Cue>) -> bool {
    let base = strip_sentinel_spec(existing) + new;
    base.len() > 0 ==> base.last().end_ms + sentinel_span() <= u64::MAX
}

/// Strip any trailing sentinel from `existing`, append `new_entries`, append a
/// fresh sentinel, and renumber: the content of the file that
/// `write_translated_with_sentinel` writes.
pub fn with_sentinel(existing: Vec<Subtitle>, new_entries: &[Subtitle]) -> (out: Vec<Subtitle>)
    requires
        sentinel_fits(cues(existing@), cues(new_entries@)),
    ensures
        cues(out@) == with_sentinel_spec(cues(existing@), cues(new_entries@)),
{
    let mut all = strip_sentinel(existing);
    let ghost base0 = cues(all@);
    let mut i: usize = 0;
    while i < new_entries.len()
        invariant
            i <= new_entries@.len(),
            cues(all@) == base0 + cues(new_entries@).take(i as int),
        decreases new_entries@.len() - i,
    {
        let ghost a0 = cues(all@);
        let x = new_entries[i].duplicate();
        all.push(x);
        assert(cues(all@) =~= a0.push(x@));
        assert(cues(all@) =~= base0 + cues(new_entries@).take(i + 1));
        i = i + 1;
    }
    assert(cues(new_entries@).take(new_entries@.len() as int) =~= cues(new_entries@));
    let n = all.len();
    if n > 0 {
        let last_end = all[n - 1].end_ms;
        assert(cues(all@).last() == all@[n - 1]@);
        let ghost a0 = cues(all@);
        all.push(make_sentinel(last_end));
        assert(cues(all@) =~= a0.push(sentinel_cue(last_end as nat)));
    }
    renumber(&all)
}

// ---------------------------------------------------------------------------
// Sanitizing translated cue text
// ---------------------------------------------------------------------------

/// `^\d{1,5}$`
pub open spec fn is_index_line(s: Seq<char>) -> bool {
    0 < s.len() <= 5 && text::all_ascii_digits(s)
}

/// `\d{1,2}:\d{2}:\d{2}[,.]\d{3}`
pub open spec fn is_ts_token(t: Seq<char>) -> bool {
    match text::find_either(t, ',', '.') {
        None => false,
        Some(p) => {
            let hms = t.take(p);
            let ms = t.skip(p + 1);
            let parts = text::split(hms, ':');
            &&& ms.len() == 3
            &&& text::all_ascii_digits(ms)
            &&& parts.len() == 3
            &&& text::all_ascii_digits(parts[0]) && 1 <= parts[0].len() <= 2
            &&& text::all_ascii_digits(parts[1]) && parts[1].len() == 2
            &&& text::all_ascii_digits(parts[2]) && parts[2].len() == 2
        },
    }
}

/// A whole `A --> B` timing line with two exact timecodes and whitespace on
/// both sides of the arrow (`^TS\s+-->\s+TS$` for a trimmed line).
pub open spec fn is_timestamp_line(s: Seq<char>) -> bool {
    match text::find(s, arrow()) {
        None => false,
        Some(a) => {
            let (left, right) = (s.take(a), s.skip(a + 3));
            &&& left.len() > 0 && text::is_ws(left.last())
            &&& right.len() > 0 && text::is_ws(right[0])
            &&& is_ts_token(text::trim(left)) && is_ts_token(text::trim(right))
        },
    }
}

fn is_ts_token_vec(t: &[char]) -> (r: bool)
    ensures
        r == is_ts_token(t@),
{
    let p = match text::find_either_vec(t, ',', '.') {
        Some(p) => p,
        None => return false,
    };
    assert(p < t.len());
    let hms = text::slice_of(t, 0, p);
    let ms = text::slice_of(t, p + 1, t.len());
    assert(ms@ =~= t@.skip(p + 1));
    if ms.len() != 3 || !text::all_ascii_digits_vec(&ms) {
        return false;
    }
    let parts = text::split_vec(&hms, ':');
    if parts.len() != 3 {
        return false;
    }
    assert(text::views(parts@)[0] == parts@[0]@);
    assert(text::views(parts@)[1] == parts@[1]@);
    assert(text::views(parts@)[2] == parts@[2]@);
    text::all_ascii_digits_vec(&parts[0]) && 1 <= parts[0].len() && parts[0].len() <= 2
        && text::all_ascii_digits_vec(&parts[1]) && parts[1].len() == 2
        && text::all_ascii_digits_vec(&parts[2]) && parts[2].len() == 2
}

fn is_timestamp_line_vec(s: &[char]) -> (r: bool)
    ensures
        r == is_timestamp_line(s@),
{
    let ar = arrow_vec();
    let a = match text::find_vec(s, &ar) {
        Some(a) => a,
        None => return false,
    };
    proof {
        text::lemma_find_from(s@, arrow(), 0);
    }
    assert(text::occurs_at(s@, arrow(), a as int));
    assert(a + 3 <= s.len());
    let left = text::slice_of(s, 0, a);
    let right = text::slice_of(s, a + 3, s.len());
    assert(left@ =~= s@.take(a as int));
    assert(right@ =~= s@.skip(a + 3));
    let nl = left.len();
    if nl == 0 || !text::is_whitespace(left[nl - 1]) || right.len() == 0 || !text::is_whitespace(right[0]) {
        return false;
    }
    is_ts_token_vec(&text::trim_vec(&left)) && is_ts_token_vec(&text::trim_vec(&right))
}

/// A line that the model leaked from the SRT structure.
pub open spec fn is_leaked_line(ln: Seq<char>) -> bool {
    is_index_line(text::trim(ln)) || is_timestamp_line(text::trim(ln))
}

/// The lines that are not leaked structure, in order.
pub open spec fn kept_lines(ls: Seq<Seq<char>>) -> Seq<Seq<char>>
    decreases ls.len(),
{
    if ls.len() == 0 {
        ls
    } else if is_leaked_line(ls.last()) {
        kept_lines(ls.drop_last())
    } else {
        kept_lines(ls.drop_last()).push(ls.last())
    }
}

/// Cue text with pure index and timestamp lines removed; all other line breaks
/// kept (CR/CRLF become LF).
pub open spec fn sanitize_spec(t: Seq<char>) -> Seq<char> {
    if t.len() == 0 {
        seq![]
    } else {
        text::join(kept_lines(text::split(normalize(t), '\n')), seq!['\n'])
    }
}

pub fn sanitize_vec(t: &[char]) -> (r: Vec<char>)
    ensures
        r@ == sanitize_spec(t@),
{
    if t.len() == 0 {
        return Vec::new();
    }
    let n = normalize_vec(t);
    let parts = text::split_vec(&n, '\n');
    let ghost ps = text::views(parts@);
    let mut kept: Vec<Vec<char>> = Vec::new();
    let mut i: usize = 0;
    while i < parts.len()
        invariant
            i <= parts@.len(),
            ps == text::views(parts@),
            text::views(kept@) == kept_lines(ps.take(i as int)),
        decreases parts@.len() - i,
    {
        let ghost t = ps.take(i + 1);
        assert(t.drop_last() =~= ps.take(i as int));
        assert(t.last() == parts@[i as int]@);
        let s = text::trim_vec(&parts[i]);
        let idx = s.len() > 0 && s.len() <= 5 && text::all_ascii_digits_vec(&s);
        if !(idx || is_timestamp_line_vec(&s)) {
            let ghost k0 = kept@;
            let piece = text::slice_of(&parts[i], 0, parts[i].len());
            assert(piece@ =~= parts@[i as int]@);
            kept.push(piece);
            assert(text::views(kept@) =~= text::views(k0).push(parts@[i as int]@));
        }
        i = i + 1;
    }
    assert(ps.take(parts@.len() as int) =~= ps);
    let mut lf: Vec<char> = Vec::new();
    lf.push('\n');
    assert(lf@ =~= seq!['\n']);
    text::join_vec(&kept, &lf)
}

/// Drop pure index or timestamp lines the model may have leaked into a cue,
/// preserving all other line breaks.
pub fn sanitize_content(t: &str) -> (r: String)
    ensures
        r@ == sanitize_spec(t@),
{
    let v = text::chars_of(t);
    let r = sanitize_vec(&v);
    text::string_of(&r)
}

} // verus!
