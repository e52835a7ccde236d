//! The round-trip law of the SRT format: composing cues and parsing the text
//! back gives the same cues, for cue texts that survive the format (no
//! carriage returns, no blank lines).
use vstd::prelude::*;
use crate::text;
use crate::srt::{self, Cue};

verus! {

/// No character of `s` is `c`.
pub open spec fn free_of(s: Seq<char>, c: char) -> bool {
    forall|i: int| 0 <= i < s.len() ==> #[trigger] s[i] != c
}

// ---------------------------------------------------------------------------
// Splitting and joining
// ---------------------------------------------------------------------------

proof fn lemma_split_scan_shift(p: Seq<char>, b: Seq<char>, c: char, st: int, i: int)
    requires
        0 <= st <= i <= b.len(),
    ensures
        text::split_scan(p + b, c, p.len() + st, p.len() + i) == text::split_scan(b, c, st, i),
    decreases b.len() - i,
{
    let s = p + b;
    if i >= b.len() {
        assert(s.subrange(p.len() + st, s.len() as int) =~= b.subrange(st, b.len() as int));
    } else {
        assert(s[p.len() + i] == b[i]);
        if b[i] == c {
            assert(s.subrange(p.len() + st, p.len() + i) =~= b.subrange(st, i));
            lemma_split_scan_shift(p, b, c, i + 1, i + 1);
        } else {
            lemma_split_scan_shift(p, b, c, st, i + 1);
        }
    }
}

proof fn lemma_split_scan_concat(x: Seq<char>, y: Seq<char>, c: char, st: int, i: int)
    requires
        0 <= st <= i <= x.len(),
    ensures
        text::split_scan(x + seq![c] + y, c, st, i) == text::split_scan(x, c, st, i) + text::split(y, c),
    decreases x.len() - i,
{
    let s = x + seq![c] + y;
    if i == x.len() {
        assert(s[i] == c);
        assert(s.subrange(st, i) =~= x.subrange(st, x.len() as int));
        assert(s =~= (x + seq![c]) + y);
        lemma_split_scan_shift(x + seq![c], y, c, 0, 0);
    } else {
        assert(s[i] == x[i]);
        if x[i] == c {
            assert(s.subrange(st, i) =~= x.subrange(st, i));
            lemma_split_scan_concat(x, y, c, i + 1, i + 1);
            assert(seq![x.subrange(st, i)] + (text::split_scan(x, c, i + 1, i + 1) + text::split(y, c))
                =~= seq![x.subrange(st, i)].add(text::split_scan(x, c, i + 1, i + 1)) + text::split(
                y,
                c,
            ));
        } else {
            lemma_split_scan_concat(x, y, c, st, i + 1);
        }
    }
}

/// Splitting at a separator splits each side.
pub proof fn lemma_split_concat(x: Seq<char>, y: Seq<char>, c: char)
    ensures
        text::split(x + seq![c] + y, c) == text::split(x, c) + text::split(y, c),
{
    lemma_split_scan_concat(x, y, c, 0, 0);
}

proof fn lemma_split_scan_free(s: Seq<char>, c: char, st: int, i: int)
    requires
        0 <= st <= i <= s.len(),
        forall|j: int| i <= j < s.len() ==> #[trigger] s[j] != c,
    ensures
        text::split_scan(s, c, st, i) == seq![s.subrange(st, s.len() as int)],
    decreases s.len() - i,
{
    if i < s.len() {
        lemma_split_scan_free(s, c, st, i + 1);
    }
}

/// A text without the separator is a single piece.
pub proof fn lemma_split_free(s: Seq<char>, c: char)
    requires
        free_of(s, c),
    ensures
        text::split(s, c) == seq![s],
{
    lemma_split_scan_free(s, c, 0, 0);
    assert(s.subrange(0, s.len() as int) =~= s);
}

/// The pieces of a split hold no separator, nor any character the text
/// does not hold.
pub proof fn lemma_split_pieces(s: Seq<char>, c: char, d: char)
    ensures
        forall|k: int| 0 <= k < text::split(s, c).len() ==> free_of(#[trigger] text::split(s, c)[k], c),
        free_of(s, d) ==> forall|k: int|
            0 <= k < text::split(s, c).len() ==> free_of(#[trigger] text::split(s, c)[k], d),
    decreases s.len(),
{
    if free_of(s, c) {
        lemma_split_free(s, c);
    } else {
        let i = choose|i: int| 0 <= i < s.len() && !(#[trigger] s[i] != c);
        let p = first_at(s, c, 0, i);
        let x = s.take(p);
        let y = s.skip(p + 1);
        assert(s =~= x + seq![c] + y);
        assert(free_of(x, c));
        if free_of(s, d) {
            assert(free_of(x, d)) by {
                assert forall|j: int| 0 <= j < x.len() implies #[trigger] x[j] != d by {
                    assert(x[j] == s[j]);
                }
            }
            assert(free_of(y, d)) by {
                assert forall|j: int| 0 <= j < y.len() implies #[trigger] y[j] != d by {
                    assert(y[j] == s[j + p + 1]);
                }
            }
        }
        lemma_split_free(x, c);
        lemma_split_concat(x, y, c);
        lemma_split_pieces(y, c, d);
        assert forall|k: int| 0 <= k < text::split(s, c).len() implies free_of(
            #[trigger] text::split(s, c)[k],
            c,
        ) && (free_of(s, d) ==> free_of(text::split(s, c)[k], d)) by {
            if k > 0 {
                assert(text::split(s, c)[k] == text::split(y, c)[k - 1]);
            }
        }
    }
}

/// The first position in `[i, k]` holding `c`, given `s[k] == c`.
proof fn first_at(s: Seq<char>, c: char, i: int, k: int) -> (p: int)
    requires
        0 <= i <= k < s.len(),
        s[k] == c,
    ensures
        i <= p <= k,
        s[p] == c,
        forall|j: int| i <= j < p ==> #[trigger] s[j] != c,
    decreases k - i,
{
    if s[i] == c {
        i
    } else {
        first_at(s, c, i + 1, k)
    }
}

/// Joining with one more piece in front.
pub proof fn lemma_join_front(x: Seq<char>, l: Seq<Seq<char>>, sep: Seq<char>)
    requires
        l.len() >= 1,
    ensures
        text::join(seq![x] + l, sep) == x + sep + text::join(l, sep),
    decreases l.len(),
{
    let xl = seq![x] + l;
    assert(xl.last() == l.last());
    if l.len() == 1 {
        assert(xl.drop_last() =~= seq![x]);
        assert(text::join(seq![x], sep) == x);
        assert(text::join(l, sep) == l[0]);
    } else {
        assert(xl.drop_last() =~= seq![x] + l.drop_last());
        lemma_join_front(x, l.drop_last(), sep);
        assert(text::join(xl, sep) =~= x + sep + text::join(l, sep));
    }
}

/// Joining a concatenation.
pub proof fn lemma_join_concat(l: Seq<Seq<char>>, m: Seq<Seq<char>>, sep: Seq<char>)
    requires
        l.len() >= 1,
        m.len() >= 1,
    ensures
        text::join(l + m, sep) == text::join(l, sep) + sep + text::join(m, sep),
    decreases m.len(),
{
    let lm = l + m;
    assert(lm.last() == m.last());
    if m.len() == 1 {
        assert(lm.drop_last() =~= l);
        assert(text::join(m, sep) == m[0]);
    } else {
        assert(lm.drop_last() =~= l + m.drop_last());
        lemma_join_concat(l, m.drop_last(), sep);
    }
}

/// Joining the pieces of a split gives the text back.
pub proof fn lemma_join_split(s: Seq<char>, c: char)
    ensures
        text::join(text::split(s, c), seq![c]) == s,
    decreases s.len(),
{
    if free_of(s, c) {
        lemma_split_free(s, c);
    } else {
        let i = choose|i: int| 0 <= i < s.len() && !(#[trigger] s[i] != c);
        let p = first_at(s, c, 0, i);
        let x = s.take(p);
        let y = s.skip(p + 1);
        assert(s =~= x + seq![c] + y);
        assert(free_of(x, c));
        lemma_split_free(x, c);
        lemma_split_concat(x, y, c);
        text::lemma_split_len(y, c);
        lemma_join_front(x, text::split(y, c), seq![c]);
        lemma_join_split(y, c);
    }
}

/// Splitting a join of separator-free pieces gives the pieces back.
pub proof fn lemma_split_join(l: Seq<Seq<char>>, c: char)
    requires
        l.len() >= 1,
        forall|k: int| 0 <= k < l.len() ==> free_of(#[trigger] l[k], c),
    ensures
        text::split(text::join(l, seq![c]), c) == l,
    decreases l.len(),
{
    if l.len() == 1 {
        lemma_split_free(l[0], c);
    } else {
        let d = l.drop_last();
        assert forall|k: int| 0 <= k < d.len() implies free_of(#[trigger] d[k], c) by {
            assert(d[k] == l[k]);
        }
        lemma_split_join(d, c);
        lemma_split_concat(text::join(d, seq![c]), l.last(), c);
        lemma_split_free(l.last(), c);
        assert(text::join(d, seq![c]) + seq![c] + l.last() == text::join(l, seq![c]));
        assert(d + seq![l.last()] =~= l);
    }
}

// ---------------------------------------------------------------------------
// Numbers and timecodes
// ---------------------------------------------------------------------------

/// Every character is an ASCII digit.
pub open spec fn digits_only(s: Seq<char>) -> bool {
    forall|i: int| 0 <= i < s.len() ==> text::is_ascii_digit(#[trigger] s[i])
}

proof fn lemma_digit_char(d: nat)
    requires
        d < 10,
    ensures
        text::is_ascii_digit(text::digit_char(d)),
        text::digit_value(text::digit_char(d), 10) == Some(d),
{
    assert(text::digit_char(d) as int == 48 + d);
}

/// `decimal(n)` is a non-empty digit string of value `n`, of at most three
/// digits below 1000 and at most two below 100.
pub proof fn lemma_decimal(n: nat)
    ensures
        text::decimal(n).len() >= 1,
        digits_only(text::decimal(n)),
        text::digits_value(text::decimal(n), 10) == n,
        n < 100 ==> text::decimal(n).len() <= 2,
        n < 1000 ==> text::decimal(n).len() <= 3,
    decreases n,
{
    lemma_digit_char(n % 10);
    if n >= 10 {
        lemma_decimal(n / 10);
        let d = text::decimal(n / 10);
        let s = text::decimal(n);
        assert(s == d.push(text::digit_char(n % 10)));
        assert(s.drop_last() =~= d);
        assert forall|i: int| 0 <= i < s.len() implies text::is_ascii_digit(#[trigger] s[i]) by {
            if i < d.len() {
                assert(s[i] == d[i]);
            }
        }
        assert(s.last() == text::digit_char(n % 10));
        assert(text::digits_value(s, 10) == text::digits_value(d, 10) * 10 + n % 10);
        assert(n / 10 * 10 + n % 10 == n);
        if n < 100 {
            assert(n / 10 < 10);
        }
        if n < 1000 {
            assert(n / 10 < 100);
        }
    } else {
        let s = text::decimal(n);
        assert(s.drop_last() =~= Seq::<char>::empty());
        assert(s.last() == text::digit_char(n));
        assert(text::digits_value(s, 10) == text::digits_value(s.drop_last(), 10) * 10 + n);
    }
}

/// Leading zeros do not change a digit string's value.
proof fn lemma_zeros_value(k: nat, s: Seq<char>)
    ensures
        text::digits_value(Seq::new(k, |i: int| '0') + s, 10) == text::digits_value(s, 10),
    decreases s.len(), k,
{
    let z = Seq::new(k, |i: int| '0');
    if s.len() == 0 {
        assert(z + s =~= z);
        if k > 0 {
            assert(z.drop_last() =~= Seq::new((k - 1) as nat, |i: int| '0'));
            lemma_zeros_value((k - 1) as nat, s);
            assert(Seq::new((k - 1) as nat, |i: int| '0') + s =~= Seq::new((k - 1) as nat, |i: int| '0'));
            lemma_digit_char(0);
            assert(z.last() == text::digit_char(0));
        }
    } else {
        let zs = z + s;
        assert(zs.drop_last() =~= z + s.drop_last());
        assert(zs.last() == s.last());
        lemma_zeros_value(k, s.drop_last());
    }
}

/// A digit string padded with zeros stays a digit string of the same value.
pub proof fn lemma_pad(s: Seq<char>, w: nat)
    requires
        digits_only(s),
    ensures
        digits_only(text::pad_zeros(s, w)),
        text::digits_value(text::pad_zeros(s, w), 10) == text::digits_value(s, 10),
        text::pad_zeros(s, w).len() == if s.len() >= w {
            s.len()
        } else {
            w
        },
        s.len() >= 1 ==> text::pad_zeros(s, w).last() == s.last(),
{
    if s.len() < w {
        let k = (w - s.len()) as nat;
        lemma_zeros_value(k, s);
        let p = text::pad_zeros(s, w);
        assert(p == Seq::new(k, |i: int| '0') + s);
        assert forall|i: int| 0 <= i < p.len() implies text::is_ascii_digit(#[trigger] p[i]) by {
            if i >= k {
                assert(p[i] == s[i - k]);
            }
        }
    }
}

/// A digit string is its own trim, and reads back as its value.
proof fn lemma_digits_parse(s: Seq<char>)
    requires
        s.len() >= 1,
        digits_only(s),
        text::digits_value(s, 10) <= srt::max_u64(),
    ensures
        text::trim(s) == s,
        text::parse_uint(text::trim(s), 10, srt::max_u64()) == Some(text::digits_value(s, 10)),
        text::parse_uint(text::trim(s), 10, 0xffff_ffff) == if text::digits_value(s, 10) <= 0xffff_ffff {
            Some(text::digits_value(s, 10))
        } else {
            None
        },
{
    assert(text::is_ascii_digit(s[0]));
    assert(text::is_ascii_digit(s.last()));
    assert(text::trim_start(s) == s);
    assert(text::trim_end(s) == s);
    assert forall|i: int| 0 <= i < s.len() implies (#[trigger] text::digit_value(s[i], 10)) is Some by {
        assert(text::is_ascii_digit(s[i]));
    }
    assert(s[0] != '+');
}

proof fn lemma_ascii_digits_id(s: Seq<char>)
    requires
        digits_only(s),
    ensures
        srt::ascii_digits(s) == s,
    decreases s.len(),
{
    if s.len() > 0 {
        assert(text::is_ascii_digit(s.last()));
        lemma_ascii_digits_id(s.drop_last());
        assert(s.drop_last().push(s.last()) =~= s);
    }
}

proof fn lemma_find_either_at(s: Seq<char>, a: char, b: char, i: int, k: int)
    requires
        0 <= i <= k < s.len(),
        s[k] == a || s[k] == b,
        forall|j: int| i <= j < k ==> #[trigger] s[j] != a && s[j] != b,
    ensures
        text::find_either_from(s, a, b, i) == Some(k),
    decreases k - i,
{
    if i < k {
        lemma_find_either_at(s, a, b, i + 1, k);
    }
}

/// The arithmetic of a timecode's fields.
proof fn lemma_timecode_fields(ms: nat)
    ensures
        (ms / 3_600_000) * 3_600_000 + ((ms % 3_600_000) / 60_000) * 60_000 + ((ms % 60_000) / 1000)
            * 1000 + ms % 1000 == ms,
        (ms % 3_600_000) / 60_000 < 60,
        (ms % 60_000) / 1000 < 60,
        ms / 3_600_000 <= ms,
{
    assert((ms / 3_600_000) * 3_600_000 + ms % 3_600_000 == ms) by (nonlinear_arith);
    assert(((ms % 3_600_000) / 60_000) * 60_000 + (ms % 3_600_000) % 60_000 == ms % 3_600_000) by (
    nonlinear_arith);
    assert((ms % 3_600_000) % 60_000 == ms % 60_000) by (nonlinear_arith);
    assert(((ms % 60_000) / 1000) * 1000 + (ms % 60_000) % 1000 == ms % 60_000) by (nonlinear_arith);
    assert((ms % 60_000) % 1000 == ms % 1000) by (nonlinear_arith);
    assert((ms % 3_600_000) / 60_000 < 60) by (nonlinear_arith);
    assert((ms % 60_000) / 1000 < 60) by (nonlinear_arith);
    assert(ms / 3_600_000 <= ms) by (nonlinear_arith);
}

/// A formatted timecode reads back as the same number of milliseconds.
pub proof fn lemma_timecode_roundtrip(ms: u64)
    ensures
        srt::parse_timecode_spec(srt::timecode(ms as nat)) == Some(ms),
        srt::timecode(ms as nat).len() >= 1,
        text::is_ascii_digit(srt::timecode(ms as nat)[0]),
        text::is_ascii_digit(srt::timecode(ms as nat).last()),
        forall|i: int|
            0 <= i < srt::timecode(ms as nat).len() ==> {
                let c = #[trigger] srt::timecode(ms as nat)[i];
                text::is_ascii_digit(c) || c == ':' || c == ','
            },
{
    let n = ms as nat;
    lemma_timecode_fields(n);
    let hv = n / 3_600_000;
    let mv = (n % 3_600_000) / 60_000;
    let sv = (n % 60_000) / 1000;
    let fv = n % 1000;
    lemma_decimal(hv);
    lemma_decimal(mv);
    lemma_decimal(sv);
    lemma_decimal(fv);
    lemma_pad(text::decimal(hv), 2);
    lemma_pad(text::decimal(mv), 2);
    lemma_pad(text::decimal(sv), 2);
    lemma_pad(text::decimal(fv), 3);
    let h = srt::two(hv);
    let m = srt::two(mv);
    let sc = srt::two(sv);
    let f = text::pad_zeros(text::decimal(fv), 3);
    let tc = srt::timecode(n);
    assert(tc == h + seq![':'] + m + seq![':'] + sc + seq![','] + f);
    let hl = h.len() as int;
    assert(m.len() == 2 && sc.len() == 2 && f.len() == 3);
    assert forall|i: int| 0 <= i < tc.len() implies {
        let c = #[trigger] tc[i];
        text::is_ascii_digit(c) || c == ':' || c == ','
    } by {
        if i < hl {
            assert(tc[i] == h[i]);
        } else if hl < i < hl + 3 {
            assert(tc[i] == m[i - hl - 1]);
        } else if hl + 3 < i < hl + 6 {
            assert(tc[i] == sc[i - hl - 4]);
        } else if i > hl + 6 {
            assert(tc[i] == f[i - hl - 7]);
        }
    }
    assert(tc[0] == h[0]);
    assert(tc.last() == f.last());
    // the whole timecode is its own trim
    assert(text::trim_start(tc) == tc);
    assert(text::trim_end(tc) == tc);
    // the fraction starts after the comma
    let p = hl + 6;
    assert(tc[p] == ',');
    assert forall|j: int| 0 <= j < p implies #[trigger] tc[j] != ',' && tc[j] != '.' by {
        if j < hl {
            assert(tc[j] == h[j]);
        } else if hl < j < hl + 3 {
            assert(tc[j] == m[j - hl - 1]);
        } else if hl + 3 < j < hl + 6 {
            assert(tc[j] == sc[j - hl - 4]);
        }
    }
    lemma_find_either_at(tc, ',', '.', 0, p);
    let hms = tc.take(p);
    assert(hms =~= h + seq![':'] + (m + seq![':'] + sc));
    assert(tc.skip(p + 1) =~= f);
    // the three fields
    assert(free_of(h, ':')) by {
        assert forall|i: int| 0 <= i < h.len() implies #[trigger] h[i] != ':' by {
            assert(text::is_ascii_digit(h[i]));
        }
    }
    assert(free_of(m, ':')) by {
        assert forall|i: int| 0 <= i < m.len() implies #[trigger] m[i] != ':' by {
            assert(text::is_ascii_digit(m[i]));
        }
    }
    assert(free_of(sc, ':')) by {
        assert forall|i: int| 0 <= i < sc.len() implies #[trigger] sc[i] != ':' by {
            assert(text::is_ascii_digit(sc[i]));
        }
    }
    lemma_split_concat(h, m + seq![':'] + sc, ':');
    lemma_split_concat(m, sc, ':');
    lemma_split_free(h, ':');
    lemma_split_free(m, ':');
    lemma_split_free(sc, ':');
    let parts = text::split(hms, ':');
    assert(parts =~= seq![h, m, sc]);
    lemma_digits_parse(h);
    lemma_digits_parse(m);
    lemma_digits_parse(sc);
    // the milliseconds
    lemma_ascii_digits_id(f);
    assert(f.take(3) =~= f);
    assert(f + Seq::new(0, |i: int| '0') =~= f);
    assert(srt::millis_value(f) == fv);
}

proof fn lemma_find_at(s: Seq<char>, p: Seq<char>, i: int, k: int)
    requires
        0 <= i <= k,
        text::occurs_at(s, p, k),
        forall|j: int| i <= j < k ==> !text::occurs_at(s, p, j),
    ensures
        text::find_from(s, p, i) == Some(k),
    decreases k - i,
{
    if i < k {
        lemma_find_at(s, p, i + 1, k);
    }
}

/// What a formatted timecode looks like: digits, `:` and `,`, starting and
/// ending with a digit.
pub open spec fn tc_shape(t: Seq<char>) -> bool {
    &&& t.len() >= 1
    &&& text::is_ascii_digit(t[0])
    &&& text::is_ascii_digit(t.last())
    &&& forall|i: int|
        0 <= i < t.len() ==> {
            let c = #[trigger] t[i];
            text::is_ascii_digit(c) || c == ':' || c == ','
        }
}

proof fn lemma_timing_find(t1: Seq<char>, t2: Seq<char>)
    requires
        tc_shape(t1),
    ensures
        text::find(t1 + srt::sep_arrow() + t2, srt::arrow()) == Some(t1.len() + 1int),
{
    let line = t1 + srt::sep_arrow() + t2;
    let l1 = t1.len() as int;
    let a = l1 + 1;
    assert(line.subrange(a, a + 3) =~= srt::arrow());
    assert forall|j: int| 0 <= j < a implies !text::occurs_at(line, srt::arrow(), j) by {
        if text::occurs_at(line, srt::arrow(), j) {
            assert(line.subrange(j, j + 3)[0] == '-');
            assert(line[j] == '-');
            if j < l1 {
                assert(line[j] == t1[j]);
            }
        }
    }
    lemma_find_at(line, srt::arrow(), 0, a);
}

proof fn lemma_timing_left(t1: Seq<char>)
    requires
        tc_shape(t1),
    ensures
        text::trim(t1 + seq![' ']) == t1,
        text::trim(t1) == t1,
{
    let left = t1 + seq![' '];
    assert(left[0] == t1[0]);
    assert(text::trim_start(left) == left);
    assert(left.drop_last() =~= t1);
    assert(text::trim_end(t1) == t1);
    assert(text::trim_start(t1) == t1);
}

proof fn lemma_timing_right(t2: Seq<char>)
    requires
        tc_shape(t2),
    ensures
        text::first_word(text::trim(seq![' '] + t2)) == Some(t2),
{
    let right = seq![' '] + t2;
    assert(right.drop_first() =~= t2);
    assert(text::trim_start(t2) == t2);
    assert(text::trim_end(t2) == t2);
    assert(text::trim(right) == t2);
    text::lemma_ws_end(t2, 0);
    if text::ws_end(t2, 0) < t2.len() {
        let k = text::ws_end(t2, 0);
        let c = t2[k];
        assert(text::is_ascii_digit(c) || c == ':' || c == ',');
        assert(text::is_ws(c));
    }
    assert(t2.take(t2.len() as int) =~= t2);
}

/// The timing line of a cue.
pub open spec fn timing_text(c: Cue) -> Seq<char> {
    srt::timecode(c.start_ms as nat) + srt::sep_arrow() + srt::timecode(c.end_ms as nat)
}

/// A composed timing line reads back as the cue's times.
#[verifier::spinoff_prover]
#[verifier::rlimit(50)]
pub proof fn lemma_timing_roundtrip(c: Cue)
    ensures
        srt::parse_timing_spec(timing_text(c)) == Some((c.start_ms, c.end_ms)),
        text::contains(timing_text(c), srt::arrow()),
        free_of(timing_text(c), '\n'),
        free_of(timing_text(c), '\r'),
        !text::is_blank(timing_text(c)),
{
    let t1 = srt::timecode(c.start_ms as nat);
    let t2 = srt::timecode(c.end_ms as nat);
    lemma_timecode_roundtrip(c.start_ms);
    lemma_timecode_roundtrip(c.end_ms);
    assert(tc_shape(t1));
    assert(tc_shape(t2));
    let line = timing_text(c);
    let l1 = t1.len() as int;
    let a = l1 + 1;
    lemma_timing_find(t1, t2);
    lemma_timing_left(t1);
    lemma_timing_right(t2);
    assert(line.take(a) =~= t1 + seq![' ']);
    assert(line.skip(a + 3) =~= seq![' '] + t2);
    assert forall|i: int| 0 <= i < line.len() implies #[trigger] line[i] != '\n' && line[i] != '\r' by {
        if i < l1 {
            assert(line[i] == t1[i]);
        } else if i >= l1 + 5 {
            assert(line[i] == t2[i - l1 - 5]);
        }
    }
    assert(line[0] == t1[0]);
    assert(!text::is_ws(line[0]));
}

// ---------------------------------------------------------------------------
// Composed text, line by line
// ---------------------------------------------------------------------------

/// A cue text survives composing and parsing: no carriage return, and no
/// blank line (an empty text is fine).
pub open spec fn content_ok(s: Seq<char>) -> bool {
    &&& free_of(s, '\r')
    &&& (s.len() == 0 || forall|k: int|
        0 <= k < text::split(s, '\n').len() ==> !text::is_blank(#[trigger] text::split(s, '\n')[k]))
}

/// The lines of one composed cue: number, timing, text lines, blank line.
#[verifier::opaque]
pub open spec fn block_lines(c: Cue) -> Seq<Seq<char>> {
    seq![text::decimal(c.index as nat), timing_text(c)] + text::split(c.content, '\n') + seq![
        Seq::<char>::empty(),
    ]
}

/// The lines of composed cues.
pub open spec fn all_lines(cs: Seq<Cue>) -> Seq<Seq<char>>
    decreases cs.len(),
{
    if cs.len() == 0 {
        seq![]
    } else {
        block_lines(cs[0]) + all_lines(cs.drop_first())
    }
}

proof fn lemma_replace_absent(s: Seq<char>, p: Seq<char>, r: Seq<char>)
    requires
        p.len() > 0,
        free_of(s, p[0]),
    ensures
        text::replace_all(s, p, r) == s,
    decreases s.len(),
{
    if s.len() > 0 {
        if text::occurs_at(s, p, 0) {
            assert(s.subrange(0, p.len() as int)[0] == s[0]);
        }
        assert(free_of(s.drop_first(), p[0])) by {
            assert forall|j: int| 0 <= j < s.drop_first().len() implies #[trigger] s.drop_first()[j] != p[0] by {
                assert(s.drop_first()[j] == s[j + 1]);
            }
        }
        lemma_replace_absent(s.drop_first(), p, r);
        assert(seq![s[0]] + s.drop_first() =~= s);
    }
}

/// Text without carriage returns is already normalized.
pub proof fn lemma_normalize_id(s: Seq<char>)
    requires
        free_of(s, '\r'),
    ensures
        srt::normalize(s) == s,
{
    lemma_replace_absent(s, seq!['\r', '\n'], seq!['\n']);
    lemma_replace_absent(s, seq!['\r'], seq!['\n']);
}

proof fn lemma_join_free(l: Seq<Seq<char>>, sep: Seq<char>, d: char)
    requires
        free_of(sep, d),
        forall|k: int| 0 <= k < l.len() ==> free_of(#[trigger] l[k], d),
    ensures
        free_of(text::join(l, sep), d),
    decreases l.len(),
{
    if l.len() > 1 {
        let dl = l.drop_last();
        assert forall|k: int| 0 <= k < dl.len() implies free_of(#[trigger] dl[k], d) by {
            assert(dl[k] == l[k]);
        }
        lemma_join_free(dl, sep, d);
        let j = text::join(dl, sep) + sep + l.last();
        assert(free_of(l.last(), d));
        assert forall|i: int| 0 <= i < j.len() implies #[trigger] j[i] != d by {
            let a = text::join(dl, sep).len() as int;
            if i < a {
            } else if i < a + sep.len() {
                assert(j[i] == sep[i - a]);
            } else {
                assert(j[i] == l.last()[i - a - sep.len()]);
            }
        }
    } else if l.len() == 1 {
        assert(free_of(l[0], d));
    }
}

proof fn lemma_digits_free(s: Seq<char>, d: char)
    requires
        digits_only(s),
        !text::is_ascii_digit(d),
    ensures
        free_of(s, d),
{
    assert forall|i: int| 0 <= i < s.len() implies #[trigger] s[i] != d by {
        assert(text::is_ascii_digit(s[i]));
    }
}

/// Every line of a composed cue is free of line breaks and carriage returns.
proof fn lemma_block_lines_free(c: Cue)
    requires
        content_ok(c.content),
    ensures
        forall|k: int| 0 <= k < block_lines(c).len() ==> free_of(#[trigger] block_lines(c)[k], '\n'),
        forall|k: int| 0 <= k < block_lines(c).len() ==> free_of(#[trigger] block_lines(c)[k], '\r'),
{
    reveal(block_lines);
    let b = block_lines(c);
    let d = text::decimal(c.index as nat);
    let p = text::split(c.content, '\n');
    lemma_decimal(c.index as nat);
    lemma_digits_free(d, '\n');
    lemma_digits_free(d, '\r');
    lemma_timing_roundtrip(c);
    lemma_split_pieces(c.content, '\n', '\r');
    assert forall|k: int| 0 <= k < b.len() implies free_of(#[trigger] b[k], '\n') && free_of(b[k], '\r') by {
        if k == 0 {
            assert(b[k] == d);
        } else if k == 1 {
            assert(b[k] == timing_text(c));
        } else if k < 2 + p.len() {
            assert(b[k] == p[k - 2]);
        } else {
            assert(b[k] == Seq::<char>::empty());
        }
    }
}

proof fn lemma_lines_join(d: Seq<char>, t: Seq<char>, content: Seq<char>)
    ensures
        text::join(seq![d, t] + text::split(content, '\n') + seq![Seq::<char>::empty()], seq!['\n'])
            + seq!['\n'] == d + seq!['\n'] + t + seq!['\n'] + content + seq!['\n', '\n'],
{
    let p = text::split(content, '\n');
    let nl = seq!['\n'];
    let e = Seq::<char>::empty();
    text::lemma_split_len(content, '\n');
    lemma_join_split(content, '\n');
    lemma_join_concat(p, seq![e], nl);
    assert(text::join(seq![e], nl) == e);
    lemma_join_front(t, p + seq![e], nl);
    assert(seq![t] + (p + seq![e]) =~= seq![t] + p + seq![e]);
    lemma_join_front(d, seq![t] + p + seq![e], nl);
    assert(seq![d, t] + p + seq![e] =~= seq![d] + (seq![t] + p + seq![e]));
    assert(text::join(seq![d, t] + p + seq![e], nl) + nl =~= d + nl + t + nl + content + seq!['\n', '\n']);
}

/// A composed cue is its lines joined, with a final line break.
proof fn lemma_block_join(c: Cue)
    requires
        content_ok(c.content),
    ensures
        srt::block(c) == text::join(block_lines(c), seq!['\n']) + seq!['\n'],
{
    reveal(block_lines);
    let d = text::decimal(c.index as nat);
    let t = timing_text(c);
    lemma_normalize_id(c.content);
    lemma_lines_join(d, t, c.content);
    assert(srt::block(c) =~= d + seq!['\n'] + t + seq!['\n'] + c.content + seq!['\n', '\n']);
}

proof fn lemma_all_lines_last(cs: Seq<Cue>)
    requires
        cs.len() >= 1,
    ensures
        all_lines(cs) == all_lines(cs.drop_last()) + block_lines(cs.last()),
    decreases cs.len(),
{
    if cs.len() == 1 {
        assert(cs.drop_first() =~= seq![]);
        assert(cs.drop_last() =~= seq![]);
        assert(all_lines(cs.drop_first()) == Seq::<Seq<char>>::empty());
        assert(all_lines(cs.drop_last()) == Seq::<Seq<char>>::empty());
        assert(cs.last() == cs[0]);
        assert(all_lines(cs) =~= block_lines(cs[0]) + Seq::<Seq<char>>::empty());
    } else {
        lemma_all_lines_last(cs.drop_first());
        assert(cs.drop_first().drop_last() =~= cs.drop_last().drop_first());
        assert(cs.drop_last()[0] == cs[0]);
        assert(all_lines(cs) =~= all_lines(cs.drop_last()) + block_lines(cs.last()));
    }
}

proof fn lemma_all_lines_len(cs: Seq<Cue>)
    ensures
        cs.len() >= 1 ==> all_lines(cs).len() >= 1,
{
    reveal(block_lines);
    if cs.len() >= 1 {
        assert(block_lines(cs[0]).len() >= 1);
    }
}

/// Composed cues are their lines joined, with a final line break.
proof fn lemma_compose_join(cs: Seq<Cue>)
    requires
        forall|i: int| 0 <= i < cs.len() ==> content_ok(#[trigger] cs[i].content),
    ensures
        srt::compose_spec(cs) == if cs.len() == 0 {
            Seq::<char>::empty()
        } else {
            text::join(all_lines(cs), seq!['\n']) + seq!['\n']
        },
    decreases cs.len(),
{
    if cs.len() > 0 {
        let d = cs.drop_last();
        let c = cs.last();
        assert(content_ok(c.content)) by {
            assert(c == cs[cs.len() - 1]);
        }
        assert forall|i: int| 0 <= i < d.len() implies content_ok(#[trigger] d[i].content) by {
            assert(d[i] == cs[i]);
        }
        lemma_compose_join(d);
        lemma_block_join(c);
        lemma_all_lines_last(cs);
        if d.len() == 0 {
            assert(all_lines(d) =~= seq![]);
            assert(all_lines(cs) =~= block_lines(c));
            assert(srt::compose_spec(cs) =~= text::join(all_lines(cs), seq!['\n']) + seq!['\n']);
        } else {
            lemma_all_lines_len(d);
            lemma_join_concat(all_lines(d), block_lines(c), seq!['\n']);
            assert(srt::compose_spec(cs) =~= text::join(all_lines(cs), seq!['\n']) + seq!['\n']);
        }
    }
}

proof fn lemma_all_lines_free(cs: Seq<Cue>)
    requires
        forall|i: int| 0 <= i < cs.len() ==> content_ok(#[trigger] cs[i].content),
    ensures
        forall|k: int| 0 <= k < all_lines(cs).len() ==> free_of(#[trigger] all_lines(cs)[k], '\n'),
        forall|k: int| 0 <= k < all_lines(cs).len() ==> free_of(#[trigger] all_lines(cs)[k], '\r'),
    decreases cs.len(),
{
    if cs.len() > 0 {
        let r = cs.drop_first();
        assert forall|i: int| 0 <= i < r.len() implies content_ok(#[trigger] r[i].content) by {
            assert(r[i] == cs[i + 1]);
        }
        lemma_all_lines_free(r);
        assert(content_ok(cs[0].content));
        lemma_block_lines_free(cs[0]);
        let b = block_lines(cs[0]);
        let a = all_lines(cs);
        assert forall|k: int| 0 <= k < a.len() implies free_of(#[trigger] a[k], '\n') && free_of(a[k], '\r') by {
            if k < b.len() {
                assert(a[k] == b[k]);
            } else {
                assert(a[k] == all_lines(r)[k - b.len()]);
            }
        }
    }
}

/// The lines of composed cues, as `str::lines` reads them back.
pub proof fn lemma_lines_compose(cs: Seq<Cue>)
    requires
        forall|i: int| 0 <= i < cs.len() ==> content_ok(#[trigger] cs[i].content),
    ensures
        text::lines(srt::normalize(srt::compose_spec(cs))) == all_lines(cs),
{
    lemma_compose_join(cs);
    lemma_all_lines_free(cs);
    if cs.len() > 0 {
        let al = all_lines(cs);
        let j = text::join(al, seq!['\n']);
        let t = j + seq!['\n'];
        lemma_all_lines_len(cs);
        lemma_join_free(al, seq!['\n'], '\r');
        assert(free_of(t, '\r')) by {
            assert forall|i: int| 0 <= i < t.len() implies #[trigger] t[i] != '\r' by {
                if i < j.len() {
                    assert(t[i] == j[i]);
                }
            }
        }
        lemma_normalize_id(t);
        lemma_split_concat(j, Seq::<char>::empty(), '\n');
        assert(j + seq!['\n'] + Seq::<char>::empty() =~= t);
        lemma_split_free(Seq::<char>::empty(), '\n');
        lemma_split_join(al, '\n');
        assert(t.last() == '\n');
        assert((al + seq![Seq::<char>::empty()]).drop_last() =~= al);
    } else {
        assert(srt::normalize(Seq::<char>::empty()) =~= Seq::<char>::empty());
    }
}

// ---------------------------------------------------------------------------
// Parsing the composed lines
// ---------------------------------------------------------------------------

proof fn lemma_content_len_prefix(p: Seq<Seq<char>>, rest: Seq<Seq<char>>)
    requires
        forall|k: int| 0 <= k < p.len() ==> !text::is_blank(#[trigger] p[k]),
        rest.len() > 0,
        text::is_blank(rest[0]),
    ensures
        srt::content_len(p + rest) == p.len(),
    decreases p.len(),
{
    if p.len() > 0 {
        assert((p + rest)[0] == p[0]);
        assert((p + rest).drop_first() =~= p.drop_first() + rest);
        assert forall|k: int| 0 <= k < p.drop_first().len() implies !text::is_blank(#[trigger] p.drop_first()[k]) by {
            assert(p.drop_first()[k] == p[k + 1]);
        }
        lemma_content_len_prefix(p.drop_first(), rest);
    } else {
        assert((p + rest)[0] == rest[0]);
    }
}

proof fn lemma_no_arrow(s: Seq<char>)
    requires
        digits_only(s),
    ensures
        !text::contains(s, srt::arrow()),
{
    text::lemma_find_from(s, srt::arrow(), 0);
    if let Some(k) = text::find(s, srt::arrow()) {
        assert(s.subrange(k, k + 3)[0] == s[k]);
        assert(text::is_ascii_digit(s[k]));
    }
}

proof fn lemma_parse_step(ls: Seq<Seq<char>>, auto: nat, d: Seq<char>, t: Seq<char>, idx: u32, st: u64, en: u64)
    requires
        ls.len() >= 2,
        ls[0] == d,
        ls[1] == t,
        !text::is_blank(d),
        srt::is_index_text(d),
        text::parse_uint(text::trim(d), 10, 0xffff_ffff) == Some(idx as nat),
        text::contains(t, srt::arrow()),
        srt::parse_timing_spec(t) == Some((st, en)),
    ensures
        ({
            let body = ls.skip(2);
            let n = srt::content_len(body);
            srt::parse_lines(ls, auto) == seq![
                Cue { index: idx, start_ms: st, end_ms: en, content: text::join(body.take(n as int), seq!['\n']) },
            ] + srt::parse_lines(body.skip(n as int), auto + 1)
        }),
{
    assert(ls.drop_first()[0] == t);
    assert(ls.drop_first().drop_first() =~= ls.skip(2));
}

proof fn lemma_block_lines_def(c: Cue)
    ensures
        block_lines(c) == seq![text::decimal(c.index as nat), timing_text(c)] + text::split(c.content, '\n')
            + seq![Seq::<char>::empty()],
{
    reveal(block_lines);
}

proof fn lemma_index_line(n: u32)
    ensures
        !text::is_blank(text::decimal(n as nat)),
        srt::is_index_text(text::decimal(n as nat)),
        text::parse_uint(text::trim(text::decimal(n as nat)), 10, 0xffff_ffff) == Some(n as nat),
{
    let d = text::decimal(n as nat);
    lemma_decimal(n as nat);
    lemma_digits_parse(d);
    lemma_no_arrow(d);
    assert(text::is_ascii_digit(d[0]));
}

/// Parsing one composed cue followed by more lines.
proof fn lemma_parse_block(c: Cue, rest: Seq<Seq<char>>, auto: nat)
    requires
        content_ok(c.content),
    ensures
        srt::parse_lines(block_lines(c) + rest, auto) == seq![c] + srt::parse_lines(rest, auto + 1),
{
    let d = text::decimal(c.index as nat);
    let t = timing_text(c);
    let p = text::split(c.content, '\n');
    let e = Seq::<char>::empty();
    let body = p + (seq![e] + rest);
    let ls = seq![d, t] + body;
    assert(block_lines(c) + rest == ls) by {
        lemma_block_lines_def(c);
        assert(block_lines(c) + rest =~= ls);
    }
    assert(srt::parse_timing_spec(t) == Some((c.start_ms, c.end_ms)) && text::contains(t, srt::arrow())) by {
        lemma_timing_roundtrip(c);
    }
    lemma_index_line(c.index);
    lemma_parse_step(ls, auto, d, t, c.index, c.start_ms, c.end_ms);
    assert(ls.skip(2) =~= body);
    lemma_parse_body(c.content, rest, auto + 1);
}

proof fn lemma_parse_body(content: Seq<char>, rest: Seq<Seq<char>>, auto: nat)
    requires
        content_ok(content),
    ensures
        ({
            let body = text::split(content, '\n') + (seq![Seq::<char>::empty()] + rest);
            let n = srt::content_len(body);
            &&& text::join(body.take(n as int), seq!['\n']) == content
            &&& srt::parse_lines(body.skip(n as int), auto) == srt::parse_lines(rest, auto)
        }),
{
    let p = text::split(content, '\n');
    let e = Seq::<char>::empty();
    let body = p + (seq![e] + rest);
    assert(text::is_blank(e));
    let er = seq![e] + rest;
    assert(er[0] == e);
    assert(er.drop_first() =~= rest);
    assert(srt::parse_lines(er, auto) == srt::parse_lines(rest, auto));
    if content.len() > 0 {
        lemma_content_len_prefix(p, seq![e] + rest);
        assert(body.take(p.len() as int) =~= p);
        lemma_join_split(content, '\n');
        assert(body.skip(p.len() as int) =~= seq![e] + rest);
        assert((seq![e] + rest).drop_first() =~= rest);
        assert((seq![e] + rest)[0] == e);
    } else {
        assert(content =~= e);
        assert(free_of(content, '\n'));
        lemma_split_free(content, '\n');
        assert(p =~= seq![e]);
        assert(body[0] == e);
        assert(srt::content_len(body) == 0);
        assert(body.take(0) =~= Seq::<Seq<char>>::empty());
        assert(body.skip(0) =~= body);
        assert(body.drop_first() =~= er);
        assert(srt::parse_lines(body, auto) == srt::parse_lines(er, auto));
        assert((seq![e] + rest).drop_first() =~= rest);
        assert((seq![e] + rest)[0] == e);
        assert(content =~= Seq::<char>::empty());
    }
}

proof fn lemma_parse_all(cs: Seq<Cue>, auto: nat)
    requires
        forall|i: int| 0 <= i < cs.len() ==> content_ok(#[trigger] cs[i].content),
    ensures
        srt::parse_lines(all_lines(cs), auto) == cs,
    decreases cs.len(),
{
    if cs.len() == 0 {
        assert(all_lines(cs) =~= Seq::<Seq<char>>::empty());
    } else {
        let r = cs.drop_first();
        assert forall|i: int| 0 <= i < r.len() implies content_ok(#[trigger] r[i].content) by {
            assert(r[i] == cs[i + 1]);
        }
        assert(content_ok(cs[0].content));
        lemma_parse_block(cs[0], all_lines(r), auto);
        lemma_parse_all(r, auto + 1);
        assert(seq![cs[0]] + r =~= cs);
    }
}

/// Composing cues and parsing the text back gives the same cues, whenever
/// every cue text is free of carriage returns and blank lines.
pub proof fn lemma_compose_parse(cs: Seq<Cue>)
    requires
        forall|i: int| 0 <= i < cs.len() ==> content_ok(#[trigger] cs[i].content),
    ensures
        srt::parse_spec(srt::compose_spec(cs)) == cs,
{
    lemma_lines_compose(cs);
    lemma_parse_all(cs, 0);
}


// ---------------------------------------------------------------------------
// Files written with CRLF line endings
// ---------------------------------------------------------------------------

/// Composed cues hold no carriage return, and end in a line break unless
/// there are none.
pub proof fn lemma_compose_plain(cs: Seq<Cue>)
    requires
        forall|i: int| 0 <= i < cs.len() ==> content_ok(#[trigger] cs[i].content),
    ensures
        free_of(srt::compose_spec(cs), '\r'),
        cs.len() == 0 ==> srt::compose_spec(cs).len() == 0,
        cs.len() > 0 ==> srt::compose_spec(cs).len() > 0 && srt::compose_spec(cs).last() == '\n',
{
    lemma_compose_join(cs);
    lemma_all_lines_free(cs);
    if cs.len() > 0 {
        let al = all_lines(cs);
        let j = text::join(al, seq!['\n']);
        let t = j + seq!['\n'];
        lemma_join_free(al, seq!['\n'], '\r');
        assert forall|i: int| 0 <= i < t.len() implies #[trigger] t[i] != '\r' by {
            if i < j.len() {
                assert(t[i] == j[i]);
            }
        }
    }
}

/// Normalizing leaves no carriage return.
proof fn lemma_normalize_plain(s: Seq<char>)
    ensures
        free_of(srt::normalize(s), '\r'),
{
    lemma_replace_cr(text::replace_all(s, seq!['\r', '\n'], seq!['\n']));
}

proof fn lemma_replace_cr(s: Seq<char>)
    ensures
        free_of(text::replace_all(s, seq!['\r'], seq!['\n']), '\r'),
    decreases s.len(),
{
    if s.len() > 0 {
        let r = text::replace_all(s, seq!['\r'], seq!['\n']);
        let r1 = text::replace_all(s.drop_first(), seq!['\r'], seq!['\n']);
        lemma_replace_cr(s.drop_first());
        if text::occurs_at(s, seq!['\r'], 0) {
            assert(s.skip(1) =~= s.drop_first());
            assert(r == seq!['\n'] + r1);
        } else {
            assert(s.subrange(0, 1) =~= seq![s[0]]);
            assert(s[0] != '\r');
            assert(r == seq![s[0]] + r1);
        }
        assert forall|k: int| 0 <= k < r.len() implies #[trigger] r[k] != '\r' by {
            if k > 0 {
                assert(r[k] == r1[k - 1]);
            }
        }
    }
}

/// Writing every line break of a text without carriage returns as CRLF, then
/// reading CRLF back as a line break, gives the text back.
proof fn lemma_crlf_back(e: Seq<char>)
    requires
        free_of(e, '\r'),
    ensures
        text::replace_all(text::replace_all(e, seq!['\n'], seq!['\r', '\n']), seq!['\r', '\n'], seq![
            '\n',
        ]) == e,
    decreases e.len(),
{
    if e.len() > 0 {
        let d = e.drop_first();
        assert(free_of(d, '\r')) by {
            assert forall|j: int| 0 <= j < d.len() implies #[trigger] d[j] != '\r' by {
                assert(d[j] == e[j + 1]);
            }
        }
        lemma_crlf_back(d);
        let c1 = text::replace_all(d, seq!['\n'], seq!['\r', '\n']);
        let c = text::replace_all(e, seq!['\n'], seq!['\r', '\n']);
        assert(e.skip(1) =~= d);
        if e[0] == '\n' {
            assert(e.subrange(0, 1) =~= seq!['\n']);
            assert(c == seq!['\r', '\n'] + c1);
            assert(c.subrange(0, 2) =~= seq!['\r', '\n']);
            assert(c.skip(2) =~= c1);
            assert(seq!['\n'] + d =~= e);
        } else {
            assert(e.subrange(0, 1) =~= seq![e[0]]);
            assert(e.subrange(0, 1)[0] != seq!['\n'][0]);
            assert(!text::occurs_at(e, seq!['\n'], 0));
            assert(c == seq![e[0]] + c1);
            assert(c[0] == e[0]);
            if c.len() >= 2 {
                assert(c.subrange(0, 2)[0] == e[0]);
                assert(c.subrange(0, 2)[0] != seq!['\r', '\n'][0]);
            }
            assert(!text::occurs_at(c, seq!['\r', '\n'], 0));
            assert(c.drop_first() =~= c1);
            assert(seq![e[0]] + d =~= e);
        }
    }
}

/// The text `srt_file_text` writes parses back to the cues it was made from,
/// whenever every cue text is free of carriage returns and blank lines.
pub proof fn lemma_crlf_parse(cs: Seq<Cue>)
    requires
        forall|i: int| 0 <= i < cs.len() ==> content_ok(#[trigger] cs[i].content),
    ensures
        srt::parse_spec(srt::crlf_spec(srt::compose_spec(cs))) == cs,
{
    let t = srt::compose_spec(cs);
    lemma_compose_plain(cs);
    lemma_normalize_id(t);
    let e = if t.len() > 0 && t.last() == '\n' {
        t
    } else {
        t.push('\n')
    };
    assert(free_of(e, '\r')) by {
        assert forall|i: int| 0 <= i < e.len() implies #[trigger] e[i] != '\r' by {
            if i < t.len() {
                assert(e[i] == t[i]);
            }
        }
    }
    let c = text::replace_all(e, seq!['\n'], seq!['\r', '\n']);
    assert(srt::crlf_spec(t) == c);
    lemma_crlf_back(e);
    lemma_replace_absent(e, seq!['\r'], seq!['\n']);
    assert(srt::normalize(c) == e);
    if cs.len() > 0 {
        assert(e == t);
        lemma_compose_parse(cs);
    } else {
        assert(e =~= Seq::<char>::empty() + seq!['\n'] + Seq::<char>::empty());
        lemma_split_concat(Seq::<char>::empty(), Seq::<char>::empty(), '\n');
        lemma_split_free(Seq::<char>::empty(), '\n');
        let ls = text::lines(e);
        assert(ls =~= seq![Seq::<char>::empty()]);
        assert(text::is_blank(ls[0]));
        assert(ls.drop_first() =~= Seq::<Seq<char>>::empty());
        assert(srt::parse_lines(ls.drop_first(), 0) =~= Seq::<Cue>::empty());
        assert(srt::parse_lines(ls, 0) =~= Seq::<Cue>::empty());
    }
}

// ---------------------------------------------------------------------------
// Sanitizing
// ---------------------------------------------------------------------------

proof fn lemma_kept_lines_props(ls: Seq<Seq<char>>)
    requires
        forall|j: int| 0 <= j < ls.len() ==> free_of(#[trigger] ls[j], '\n') && free_of(ls[j], '\r'),
    ensures
        forall|k: int|
            0 <= k < srt::kept_lines(ls).len() ==> free_of(#[trigger] srt::kept_lines(ls)[k], '\n') && free_of(
                srt::kept_lines(ls)[k],
                '\r',
            ) && !srt::is_leaked_line(srt::kept_lines(ls)[k]),
    decreases ls.len(),
{
    if ls.len() > 0 {
        let d = ls.drop_last();
        assert forall|j: int| 0 <= j < d.len() implies free_of(#[trigger] d[j], '\n') && free_of(d[j], '\r') by {
            assert(d[j] == ls[j]);
        }
        lemma_kept_lines_props(d);
        assert(free_of(ls[ls.len() - 1], '\n'));
        let kd = srt::kept_lines(d);
        let k = srt::kept_lines(ls);
        assert forall|i: int| 0 <= i < k.len() implies free_of(#[trigger] k[i], '\n') && free_of(k[i], '\r')
            && !srt::is_leaked_line(k[i]) by {
            if i < kd.len() {
                assert(k[i] == kd[i]);
            } else {
                assert(k[i] == ls.last());
            }
        }
    }
}

proof fn lemma_kept_lines_all(ls: Seq<Seq<char>>)
    requires
        forall|j: int| 0 <= j < ls.len() ==> !srt::is_leaked_line(#[trigger] ls[j]),
    ensures
        srt::kept_lines(ls) == ls,
    decreases ls.len(),
{
    if ls.len() > 0 {
        let d = ls.drop_last();
        assert forall|j: int| 0 <= j < d.len() implies !srt::is_leaked_line(#[trigger] d[j]) by {
            assert(d[j] == ls[j]);
        }
        lemma_kept_lines_all(d);
        assert(!srt::is_leaked_line(ls[ls.len() - 1]));
        assert(d.push(ls.last()) =~= ls);
    }
}

/// Sanitizing a sanitized text changes nothing: every text the translation
/// keeps is already free of leaked index and timing lines.
pub proof fn lemma_sanitize_idempotent(t: Seq<char>)
    ensures
        srt::sanitize_spec(srt::sanitize_spec(t)) == srt::sanitize_spec(t),
{
    if t.len() > 0 {
        let n = srt::normalize(t);
        let ps = text::split(n, '\n');
        let kl = srt::kept_lines(ps);
        let r = text::join(kl, seq!['\n']);
        if r.len() > 0 {
            lemma_normalize_plain(t);
            lemma_split_pieces(n, '\n', '\r');
            lemma_kept_lines_props(ps);
            assert(kl.len() >= 1);
            lemma_join_free(kl, seq!['\n'], '\r');
            lemma_normalize_id(r);
            lemma_split_join(kl, '\n');
            lemma_kept_lines_all(kl);
        }
    }
}

} // verus!
