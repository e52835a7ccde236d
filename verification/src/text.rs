//! Character-sequence utilities shared by the SRT, prompt and path logic.
//!
//! Text is handled as `Seq<char>` in specifications and as `Vec<char>` in
//! executable code; `chars_of` and `string_of` convert at the edges.
use vstd::prelude::*;
use vstd::std_specs::iter::IteratorSpec;

verus! {

broadcast use vstd::string::group_string_axioms;

// ---------------------------------------------------------------------------
// Conversions
// ---------------------------------------------------------------------------

/// The characters of `s`, in order.
pub fn chars_of(s: &str) -> (v: Vec<char>)
    ensures
        v@ == s@,
{
    let mut v: Vec<char> = Vec::new();
    for c in it: s.chars()
        invariant
            v@ == it.seq().take(it.index() as int),
    {
        v.push(c);
    }
    v
}

/// `String::push`: appends one character to the string.
#[verifier::external_body]
fn string_push(s: &mut String, c: char)
    ensures
        final(s)@ == old(s)@.push(c),
{
    s.push(c);
}

/// A `String` holding exactly the characters `v`.
pub fn string_of(v: &[char]) -> (s: String)
    ensures
        s@ == v@,
{
    let mut s = String::new();
    let mut i: usize = 0;
    while i < v.len()
        invariant
            i <= v@.len(),
            s@ == v@.take(i as int),
        decreases v@.len() - i,
    {
        string_push(&mut s, v[i]);
        assert(v@.take(i + 1) =~= v@.take(i as int).push(v@[i as int]));
        i = i + 1;
    }
    assert(v@.take(v@.len() as int) =~= v@);
    s
}

/// A fresh `String` copy of a `&str`.
pub fn string_from(s: &str) -> (r: String)
    ensures
        r@ == s@,
{
    let v = chars_of(s);
    string_of(&v)
}

/// The characters `v[a..b]` as a new vector.
pub fn slice_of(v: &[char], a: usize, b: usize) -> (r: Vec<char>)
    requires
        a <= b <= v@.len(),
    ensures
        r@ == v@.subrange(a as int, b as int),
{
    let mut r: Vec<char> = Vec::new();
    let mut i = a;
    while i < b
        invariant
            a <= i <= b <= v@.len(),
            r@ == v@.subrange(a as int, i as int),
        decreases b - i,
    {
        r.push(v[i]);
        assert(r@ =~= v@.subrange(a as int, i + 1));
        i = i + 1;
    }
    r
}

/// Append all of `b` to `a`.
pub fn extend(a: &mut Vec<char>, b: &[char])
    ensures
        final(a)@ == old(a)@ + b@,
{
    let ghost a0 = a@;
    let mut i: usize = 0;
    while i < b.len()
        invariant
            i <= b@.len(),
            a@ == a0 + b@.take(i as int),
        decreases b@.len() - i,
    {
        a.push(b[i]);
        assert(a@ =~= a0 + b@.take(i + 1));
        i = i + 1;
    }
    assert(b@.take(b@.len() as int) =~= b@);
}

// ---------------------------------------------------------------------------
// Whitespace and trimming
// ---------------------------------------------------------------------------

/// Unicode `White_Space`: the characters for which `char::is_whitespace` holds.
pub open spec fn is_ws(c: char) -> bool {
    ||| ('\u{9}' <= c <= '\u{d}')
    ||| c == ' '
    ||| c == '\u{85}'
    ||| c == '\u{a0}'
    ||| c == '\u{1680}'
    ||| ('\u{2000}' <= c <= '\u{200a}')
    ||| c == '\u{2028}'
    ||| c == '\u{2029}'
    ||| c == '\u{202f}'
    ||| c == '\u{205f}'
    ||| c == '\u{3000}'
}

pub fn is_whitespace(c: char) -> (b: bool)
    ensures
        b == is_ws(c),
{
    ('\u{9}' <= c && c <= '\u{d}') || c == ' ' || c == '\u{85}' || c == '\u{a0}' || c
        == '\u{1680}' || ('\u{2000}' <= c && c <= '\u{200a}') || c == '\u{2028}' || c
        == '\u{2029}' || c == '\u{202f}' || c == '\u{205f}' || c == '\u{3000}'
}

/// Every character of `s` is whitespace (so `s.trim()` is empty).
pub open spec fn is_blank(s: Seq<char>) -> bool {
    forall|i: int| 0 <= i < s.len() ==> is_ws(#[trigger] s[i])
}

/// `s` with leading whitespace removed (`str::trim_start`).
pub open spec fn trim_start(s: Seq<char>) -> Seq<char>
    decreases s.len(),
{
    if s.len() > 0 && is_ws(s[0]) {
        trim_start(s.drop_first())
    } else {
        s
    }
}

/// `s` with trailing whitespace removed (`str::trim_end`).
pub open spec fn trim_end(s: Seq<char>) -> Seq<char>
    decreases s.len(),
{
    if s.len() > 0 && is_ws(s.last()) {
        trim_end(s.drop_last())
    } else {
        s
    }
}

/// `str::trim`.
pub open spec fn trim(s: Seq<char>) -> Seq<char> {
    trim_end(trim_start(s))
}

pub proof fn lemma_trim_start_skip(s: Seq<char>, i: int)
    requires
        0 <= i <= s.len(),
        forall|j: int| 0 <= j < i ==> is_ws(#[trigger] s[j]),
    ensures
        trim_start(s) == trim_start(s.skip(i)),
    decreases i,
{
    if i > 0 {
        assert(s.drop_first().skip(i - 1) =~= s.skip(i));
        lemma_trim_start_skip(s.drop_first(), i - 1);
    } else {
        assert(s.skip(0) =~= s);
    }
}

pub proof fn lemma_trim_end_take(s: Seq<char>, i: int)
    requires
        0 <= i <= s.len(),
        forall|j: int| i <= j < s.len() ==> is_ws(#[trigger] s[j]),
    ensures
        trim_end(s) == trim_end(s.take(i)),
    decreases s.len() - i,
{
    if i < s.len() {
        assert(s.drop_last().take(i) =~= s.take(i));
        lemma_trim_end_take(s.drop_last(), i);
    } else {
        assert(s.take(i) =~= s);
    }
}

pub proof fn lemma_trim_start_len(s: Seq<char>)
    ensures
        trim_start(s).len() <= s.len(),
        trim_start(s).len() == 0 <==> is_blank(s),
        trim_start(s).len() > 0 ==> !is_ws(trim_start(s)[0]),
        exists|k: int|
            0 <= k <= s.len() && trim_start(s) == s.skip(k) && (forall|j: int|
                0 <= j < k ==> is_ws(#[trigger] s[j])),
    decreases s.len(),
{
    if s.len() > 0 && is_ws(s[0]) {
        lemma_trim_start_len(s.drop_first());
        let k = choose|k: int|
            0 <= k <= s.drop_first().len() && trim_start(s.drop_first()) == s.drop_first().skip(
                k,
            ) && (forall|j: int| 0 <= j < k ==> is_ws(#[trigger] s.drop_first()[j]));
        assert(s.drop_first().skip(k) =~= s.skip(k + 1));
        assert forall|j: int| 0 <= j < k + 1 implies is_ws(#[trigger] s[j]) by {
            if j > 0 {
                assert(s[j] == s.drop_first()[j - 1]);
            }
        }
        if is_blank(s.drop_first()) {
            assert forall|i: int| 0 <= i < s.len() implies is_ws(#[trigger] s[i]) by {
                if i > 0 {
                    assert(s[i] == s.drop_first()[i - 1]);
                }
            }
        }
        if is_blank(s) {
            assert forall|i: int| 0 <= i < s.drop_first().len() implies is_ws(
                #[trigger] s.drop_first()[i],
            ) by {
                assert(s.drop_first()[i] == s[i + 1]);
            }
        }
    } else {
        assert(s.skip(0) =~= s);
        if s.len() > 0 {
            assert(!is_ws(s[0]));
        }
    }
}

pub proof fn lemma_trim_end_len(s: Seq<char>)
    ensures
        trim_end(s).len() <= s.len(),
        trim_end(s).len() == 0 <==> is_blank(s),
        trim_end(s).len() > 0 ==> !is_ws(trim_end(s).last()),
        trim_end(s) == s.take(trim_end(s).len() as int),
        forall|j: int| trim_end(s).len() <= j < s.len() ==> is_ws(#[trigger] s[j]),
    decreases s.len(),
{
    if s.len() > 0 && is_ws(s.last()) {
        lemma_trim_end_len(s.drop_last());
        let t = trim_end(s.drop_last());
        assert(s.drop_last().take(t.len() as int) =~= s.take(t.len() as int));
        assert forall|j: int| t.len() <= j < s.len() implies is_ws(#[trigger] s[j]) by {
            if j < s.len() - 1 {
                assert(s[j] == s.drop_last()[j]);
            }
        }
        if is_blank(s.drop_last()) {
            assert forall|i: int| 0 <= i < s.len() implies is_ws(#[trigger] s[i]) by {
                if i < s.len() - 1 {
                    assert(s[i] == s.drop_last()[i]);
                }
            }
        }
        if is_blank(s) {
            assert forall|i: int| 0 <= i < s.drop_last().len() implies is_ws(
                #[trigger] s.drop_last()[i],
            ) by {
                assert(s.drop_last()[i] == s[i]);
            }
        }
    } else {
        assert(s.take(s.len() as int) =~= s);
    }
}

/// The bounds `[a, b)` of `trim(v)` within `v`.
pub fn trim_bounds(v: &[char]) -> (r: (usize, usize))
    ensures
        r.0 <= r.1 <= v@.len(),
        trim(v@) == v@.subrange(r.0 as int, r.1 as int),
{
    let mut a: usize = 0;
    while a < v.len() && is_whitespace(v[a])
        invariant
            a <= v@.len(),
            forall|j: int| 0 <= j < a ==> is_ws(#[trigger] v@[j]),
        decreases v@.len() - a,
    {
        a = a + 1;
    }
    proof {
        lemma_trim_start_skip(v@, a as int);
        if a < v@.len() {
            assert(!is_ws(v@.skip(a as int)[0]));
        } else {
            assert(v@.skip(a as int).len() == 0);
        }
    }
    let mut b: usize = v.len();
    while b > a && is_whitespace(v[b - 1])
        invariant
            a <= b <= v@.len(),
            forall|j: int| b <= j < v@.len() ==> is_ws(#[trigger] v@[j]),
        decreases b,
    {
        b = b - 1;
    }
    proof {
        let t = v@.skip(a as int);
        assert(trim_start(v@) == t);
        assert forall|j: int| (b - a) <= j < t.len() implies is_ws(#[trigger] t[j]) by {
            assert(t[j] == v@[j + a]);
        }
        lemma_trim_end_take(t, b - a);
        assert(t.take(b - a) =~= v@.subrange(a as int, b as int));
        let u = v@.subrange(a as int, b as int);
        if u.len() > 0 {
            assert(!is_ws(u.last()));
        }
    }
    (a, b)
}

/// `str::trim` on a character vector.
pub fn trim_vec(v: &[char]) -> (r: Vec<char>)
    ensures
        r@ == trim(v@),
{
    let (a, b) = trim_bounds(v);
    slice_of(v, a, b)
}

/// `str::trim(s).is_empty()`.
pub fn blank(v: &[char]) -> (b: bool)
    ensures
        b == is_blank(v@),
{
    let mut i: usize = 0;
    while i < v.len()
        invariant
            i <= v@.len(),
            forall|j: int| 0 <= j < i ==> is_ws(#[trigger] v@[j]),
        decreases v@.len() - i,
    {
        if !is_whitespace(v[i]) {
            return false;
        }
        i = i + 1;
    }
    true
}


// ---------------------------------------------------------------------------
// Searching
// ---------------------------------------------------------------------------

/// `p` occurs in `s` at position `i`.
pub open spec fn occurs_at(s: Seq<char>, p: Seq<char>, i: int) -> bool {
    0 <= i && i + p.len() <= s.len() && s.subrange(i, i + p.len()) == p
}

/// Position of the first occurrence of `p` in `s` at or after `i` (`str::find`).
pub open spec fn find_from(s: Seq<char>, p: Seq<char>, i: int) -> Option<int>
    decreases s.len() - i,
{
    if i < 0 || i + p.len() > s.len() {
        None
    } else if occurs_at(s, p, i) {
        Some(i)
    } else {
        proof {
            if p.len() == 0 {
                assert(s.subrange(i, i) =~= p);
            }
        }
        find_from(s, p, i + 1)
    }
}

pub open spec fn find(s: Seq<char>, p: Seq<char>) -> Option<int> {
    find_from(s, p, 0)
}

/// `str::contains`.
pub open spec fn contains(s: Seq<char>, p: Seq<char>) -> bool {
    find(s, p) is Some
}

pub proof fn lemma_find_from(s: Seq<char>, p: Seq<char>, i: int)
    requires
        0 <= i,
    ensures
        find_from(s, p, i) matches Some(k) ==> i <= k && occurs_at(s, p, k) && (forall|j: int|
            i <= j < k ==> !occurs_at(s, p, j)),
        find_from(s, p, i) is None ==> forall|j: int| i <= j ==> !occurs_at(s, p, j),
    decreases s.len() - i,
{
    if i + p.len() > s.len() {
    } else if occurs_at(s, p, i) {
    } else {
        if p.len() == 0 {
            assert(s.subrange(i, i) =~= p);
        }
        lemma_find_from(s, p, i + 1);
    }
}

/// `p` occurs in `v` at `i`.
pub fn matches_at(v: &[char], p: &[char], i: usize) -> (b: bool)
    ensures
        b == occurs_at(v@, p@, i as int),
{
    if i > v.len() || p.len() > v.len() - i {
        return false;
    }
    let n = v.len();
    let mut k: usize = 0;
    while k < p.len()
        invariant
            n == v@.len(),
            i + p@.len() <= v@.len(),
            k <= p@.len(),
            forall|j: int| 0 <= j < k ==> v@[i + j] == p@[j],
        decreases p@.len() - k,
    {
        assert(i + k < v@.len());
        if v[i + k] != p[k] {
            assert(v@.subrange(i as int, i + p@.len())[k as int] != p@[k as int]);
            return false;
        }
        k = k + 1;
    }
    assert(v@.subrange(i as int, i + p@.len()) =~= p@);
    true
}

/// `str::find(p)`: the first position of `p` in `v`.
pub fn find_vec(v: &[char], p: &[char]) -> (r: Option<usize>)
    ensures
        r matches Some(k) ==> find(v@, p@) == Some(k as int),
        r is None ==> find(v@, p@) is None,
{
    let mut i: usize = 0;
    while i < v.len()
        invariant
            i <= v@.len(),
            find(v@, p@) == find_from(v@, p@, i as int),
        decreases v@.len() - i,
    {
        if matches_at(v, p, i) {
            return Some(i);
        }
        i = i + 1;
    }
    if matches_at(v, p, i) {
        return Some(i);
    }
    proof {
        if p@.len() == 0 {
            assert(v@.subrange(i as int, i as int) =~= p@);
        }
    }
    None
}

/// `str::contains(p)`.
pub fn contains_vec(v: &[char], p: &[char]) -> (b: bool)
    ensures
        b == contains(v@, p@),
{
    find_vec(v, p).is_some()
}

/// Position of the first character of `v` equal to `a` or `b`
/// (`str::find([a, b])`).
pub open spec fn find_either(s: Seq<char>, a: char, b: char) -> Option<int> {
    find_either_from(s, a, b, 0)
}

pub open spec fn find_either_from(s: Seq<char>, a: char, b: char, i: int) -> Option<int>
    decreases s.len() - i,
{
    if i < 0 || i >= s.len() {
        None
    } else if s[i] == a || s[i] == b {
        Some(i)
    } else {
        find_either_from(s, a, b, i + 1)
    }
}

pub fn find_either_vec(v: &[char], a: char, b: char) -> (r: Option<usize>)
    ensures
        r matches Some(k) ==> find_either(v@, a, b) == Some(k as int),
        r matches Some(k) ==> k < v@.len(),
        r is None ==> find_either(v@, a, b) is None,
{
    let mut i: usize = 0;
    while i < v.len()
        invariant
            i <= v@.len(),
            find_either(v@, a, b) == find_either_from(v@, a, b, i as int),
        decreases v@.len() - i,
    {
        if v[i] == a || v[i] == b {
            return Some(i);
        }
        i = i + 1;
    }
    None
}

/// Position of the last character of `s` equal to `a` or `b` (`str::rfind([a, b])`).
pub open spec fn rfind_either(s: Seq<char>, a: char, b: char) -> Option<int>
    decreases s.len(),
{
    if s.len() == 0 {
        None
    } else if s.last() == a || s.last() == b {
        Some(s.len() - 1)
    } else {
        rfind_either(s.drop_last(), a, b)
    }
}

pub fn rfind_either_vec(v: &[char], a: char, b: char) -> (r: Option<usize>)
    ensures
        r matches Some(k) ==> rfind_either(v@, a, b) == Some(k as int),
        r matches Some(k) ==> k < v@.len(),
        r is None ==> rfind_either(v@, a, b) is None,
{
    let mut i: usize = v.len();
    assert(v@.take(i as int) =~= v@);
    while i > 0
        invariant
            i <= v@.len(),
            rfind_either(v@, a, b) == rfind_either(v@.take(i as int), a, b),
        decreases i,
    {
        assert(v@.take(i as int).last() == v@[i - 1]);
        if v[i - 1] == a || v[i - 1] == b {
            return Some(i - 1);
        }
        assert(v@.take(i as int).drop_last() =~= v@.take(i - 1));
        i = i - 1;
    }
    None
}

// ---------------------------------------------------------------------------
// Replacing, splitting, joining
// ---------------------------------------------------------------------------

/// `str::replace(p, r)`: every non-overlapping occurrence of `p`, scanning
/// left to right, replaced by `r` (for non-empty `p`).
pub open spec fn replace_all(s: Seq<char>, p: Seq<char>, r: Seq<char>) -> Seq<char>
    decreases s.len(),
{
    if s.len() == 0 || p.len() == 0 {
        s
    } else if occurs_at(s, p, 0) {
        r + replace_all(s.skip(p.len() as int), p, r)
    } else {
        seq![s[0]] + replace_all(s.drop_first(), p, r)
    }
}

pub fn replace_vec(v: &[char], p: &[char], r: &[char]) -> (out: Vec<char>)
    ensures
        out@ == replace_all(v@, p@, r@),
{
    let mut out: Vec<char> = Vec::new();
    if p.len() == 0 {
        extend(&mut out, v);
        return out;
    }
    let mut i: usize = 0;
    assert(v@.skip(0) =~= v@);
    assert(out@ + replace_all(v@, p@, r@) =~= replace_all(v@, p@, r@));
    while i < v.len()
        invariant
            i <= v@.len(),
            p@.len() > 0,
            out@ + replace_all(v@.skip(i as int), p@, r@) == replace_all(v@, p@, r@),
        decreases v@.len() - i,
    {
        let ghost rest = v@.skip(i as int);
        if matches_at(v, p, i) {
            assert(rest.subrange(0, p@.len() as int) =~= v@.subrange(i as int, i + p@.len()));
            assert(rest.skip(p@.len() as int) =~= v@.skip(i + p@.len()));
            let ghost o = out@;
            extend(&mut out, r);
            assert(o + (r@ + replace_all(v@.skip(i + p@.len()), p@, r@)) =~= out@
                + replace_all(v@.skip(i + p@.len()), p@, r@));
            i = i + p.len();
        } else {
            proof {
                if occurs_at(rest, p@, 0) {
                    assert(rest.subrange(0, p@.len() as int) =~= v@.subrange(
                        i as int,
                        i + p@.len(),
                    ));
                }
            }
            assert(rest.drop_first() =~= v@.skip(i + 1));
            let ghost o = out@;
            out.push(v[i]);
            assert(o + (seq![rest[0]] + replace_all(v@.skip(i + 1), p@, r@)) =~= out@
                + replace_all(v@.skip(i + 1), p@, r@));
            i = i + 1;
        }
    }
    assert(v@.skip(i as int).len() == 0);
    assert(out@ + seq![] =~= out@);
    out
}

/// `str::split(c)`: the pieces of `s` between occurrences of `c` (scanning from
/// position `i`, with the current piece starting at `st`).
pub open spec fn split_scan(s: Seq<char>, c: char, st: int, i: int) -> Seq<Seq<char>>
    decreases s.len() - i,
{
    if i >= s.len() {
        seq![s.subrange(st, s.len() as int)]
    } else if s[i] == c {
        seq![s.subrange(st, i)].add(split_scan(s, c, i + 1, i + 1))
    } else {
        split_scan(s, c, st, i + 1)
    }
}

pub open spec fn split(s: Seq<char>, c: char) -> Seq<Seq<char>> {
    split_scan(s, c, 0, 0)
}

pub open spec fn views(v: Seq<Vec<char>>) -> Seq<Seq<char>> {
    v.map_values(|x: Vec<char>| x@)
}

pub fn split_vec(v: &[char], c: char) -> (out: Vec<Vec<char>>)
    ensures
        views(out@) == split(v@, c),
{
    let mut out: Vec<Vec<char>> = Vec::new();
    let mut st: usize = 0;
    let mut i: usize = 0;
    while i < v.len()
        invariant
            st <= i <= v@.len(),
            views(out@) + split_scan(v@, c, st as int, i as int) == split(v@, c),
        decreases v@.len() - i,
    {
        if v[i] == c {
            let piece = slice_of(v, st, i);
            let ghost o = out@;
            out.push(piece);
            assert(views(out@) =~= views(o).push(piece@));
            assert(views(o) + (seq![piece@] + split_scan(v@, c, i + 1, i + 1)) =~= views(out@)
                + split_scan(v@, c, i + 1, i + 1));
            st = i + 1;
        }
        i = i + 1;
    }
    let piece = slice_of(v, st, i);
    let ghost o = out@;
    out.push(piece);
    assert(views(out@) =~= views(o).push(piece@));
    assert(views(o) + seq![piece@] =~= views(out@));
    out
}

/// `[T]::join(sep)` for character sequences.
pub open spec fn join(parts: Seq<Seq<char>>, sep: Seq<char>) -> Seq<char>
    decreases parts.len(),
{
    if parts.len() == 0 {
        seq![]
    } else if parts.len() == 1 {
        parts[0]
    } else {
        join(parts.drop_last(), sep) + sep + parts.last()
    }
}

pub fn join_vec(parts: &Vec<Vec<char>>, sep: &[char]) -> (out: Vec<char>)
    ensures
        out@ == join(views(parts@), sep@),
{
    let mut out: Vec<char> = Vec::new();
    let mut i: usize = 0;
    while i < parts.len()
        invariant
            i <= parts@.len(),
            out@ == join(views(parts@).take(i as int), sep@),
        decreases parts@.len() - i,
    {
        let ghost o = out@;
        if i > 0 {
            extend(&mut out, sep);
        }
        extend(&mut out, &parts[i]);
        proof {
            let t = views(parts@).take(i + 1);
            assert(t.drop_last() =~= views(parts@).take(i as int));
            if i == 0 {
                assert(out@ =~= t[0]);
            }
        }
        i = i + 1;
    }
    assert(views(parts@).take(parts@.len() as int) =~= views(parts@));
    out
}

/// `str::lines` on text that holds no `'\r'`: the pieces between `'\n'`s,
/// without a final empty piece after a trailing newline.
pub open spec fn lines(s: Seq<char>) -> Seq<Seq<char>> {
    if s.len() == 0 {
        seq![]
    } else if s.last() == '\n' {
        split(s, '\n').drop_last()
    } else {
        split(s, '\n')
    }
}

pub fn lines_vec(v: &[char]) -> (out: Vec<Vec<char>>)
    ensures
        views(out@) == lines(v@),
{
    if v.len() == 0 {
        return Vec::new();
    }
    let mut out = split_vec(v, '\n');
    if v[v.len() - 1] == '\n' {
        proof { lemma_split_len(v@, '\n'); }
        let ghost o = out@;
        out.pop();
        assert(views(out@) =~= views(o).drop_last());
    }
    out
}

pub proof fn lemma_split_scan_len(s: Seq<char>, c: char, st: int, i: int)
    ensures
        split_scan(s, c, st, i).len() >= 1,
    decreases s.len() - i,
{
    if i >= s.len() {
    } else if s[i] == c {
        lemma_split_scan_len(s, c, i + 1, i + 1);
    } else {
        lemma_split_scan_len(s, c, st, i + 1);
    }
}

pub proof fn lemma_split_len(s: Seq<char>, c: char)
    ensures
        split(s, c).len() >= 1,
{
    lemma_split_scan_len(s, c, 0, 0);
}


// ---------------------------------------------------------------------------
// Numbers
// ---------------------------------------------------------------------------

/// The ASCII digit character for `d` in `0..10`.
pub open spec fn digit_char(d: nat) -> char {
    (48 + d) as char
}

/// Decimal rendering of `n` without leading zeros (`u64`'s `Display`).
pub open spec fn decimal(n: nat) -> Seq<char>
    decreases n,
{
    if n < 10 {
        seq![digit_char(n)]
    } else {
        decimal(n / 10).push(digit_char(n % 10))
    }
}

/// `s` left-padded with `'0'` to width `w` (`{:0w}`).
pub open spec fn pad_zeros(s: Seq<char>, w: nat) -> Seq<char> {
    if s.len() >= w {
        s
    } else {
        Seq::new((w - s.len()) as nat, |i: int| '0') + s
    }
}

/// Decimal rendering of `n`, as `n.to_string()` / `format!("{}", n)`.
pub fn fmt_decimal(n: u64) -> (r: Vec<char>)
    ensures
        r@ == decimal(n as nat),
{
    let mut m = n;
    let mut acc: Vec<char> = Vec::new();
    while m >= 10
        invariant
            decimal(n as nat) == decimal(m as nat) + acc@,
        decreases m,
    {
        let d = m % 10;
        let c: char = ((48 + d) as u8) as char;
        let ghost old_acc = acc@;
        acc.insert(0, c);
        assert(decimal(m as nat) == decimal((m / 10) as nat).push(digit_char((m % 10) as nat)));
        assert(c == digit_char((m % 10) as nat));
        assert(decimal((m / 10) as nat).push(c) + old_acc =~= decimal((m / 10) as nat) + acc@);
        m = m / 10;
    }
    let c: char = ((48 + m) as u8) as char;
    acc.insert(0, c);
    assert(decimal(m as nat) =~= seq![c]);
    acc
}

/// Decimal rendering of `n` left-padded with zeros to `w` digits.
pub fn fmt_padded(n: u64, w: usize) -> (r: Vec<char>)
    ensures
        r@ == pad_zeros(decimal(n as nat), w as nat),
{
    let d = fmt_decimal(n);
    if d.len() >= w {
        return d;
    }
    let mut r: Vec<char> = Vec::new();
    let k = w - d.len();
    let mut i: usize = 0;
    while i < k
        invariant
            i <= k,
            r@ == Seq::new(i as nat, |j: int| '0'),
        decreases k - i,
    {
        r.push('0');
        assert(r@ =~= Seq::new((i + 1) as nat, |j: int| '0'));
        i = i + 1;
    }
    extend(&mut r, &d);
    r
}

/// `char::to_digit(radix)` for radix 10 or 16.
pub open spec fn digit_value(c: char, radix: nat) -> Option<nat> {
    let v: int = if '0' <= c <= '9' {
        c as int - 48
    } else if 'a' <= c <= 'z' {
        c as int - 97 + 10
    } else if 'A' <= c <= 'Z' {
        c as int - 65 + 10
    } else {
        radix as int
    };
    if v < radix {
        Some(v as nat)
    } else {
        None
    }
}

pub open spec fn all_digits(s: Seq<char>, radix: nat) -> bool {
    forall|i: int| 0 <= i < s.len() ==> (#[trigger] digit_value(s[i], radix)) is Some
}

/// The value of a digit string in base `radix`.
pub open spec fn digits_value(s: Seq<char>, radix: nat) -> nat
    decreases s.len(),
{
    if s.len() == 0 {
        0
    } else {
        digits_value(s.drop_last(), radix) * radix + digit_value(s.last(), radix).unwrap_or(0)
    }
}

/// The number that `from_str_radix` reads from `s` for an unsigned type, before
/// the range check: an optional `'+'`, then one or more digits.
pub open spec fn uint_text(s: Seq<char>, radix: nat) -> Option<nat> {
    let d = if s.len() > 0 && s[0] == '+' {
        s.drop_first()
    } else {
        s
    };
    if d.len() > 0 && all_digits(d, radix) {
        Some(digits_value(d, radix))
    } else {
        None
    }
}

/// `uint_text` restricted to values at most `max` (an overflow is an error).
pub open spec fn parse_uint(s: Seq<char>, radix: nat, max: nat) -> Option<nat> {
    match uint_text(s, radix) {
        Some(n) if n <= max => Some(n),
        _ => None,
    }
}

/// `u64::from_str_radix` (and `u32`/`u16` with a smaller `max`), for radix 10
/// or 16.
pub fn parse_uint_vec(v: &[char], radix: u64, max: u64) -> (r: Option<u64>)
    requires
        radix == 10 || radix == 16,
    ensures
        r matches Some(n) ==> parse_uint(v@, radix as nat, max as nat) == Some(n as nat),
        r is None ==> parse_uint(v@, radix as nat, max as nat) is None,
{
    let start: usize = if v.len() > 0 && v[0] == '+' {
        1
    } else {
        0
    };
    let ghost d = if v@.len() > 0 && v@[0] == '+' {
        v@.drop_first()
    } else {
        v@
    };
    assert(d =~= v@.skip(start as int));
    if start >= v.len() {
        return None;
    }
    let mut acc: u64 = 0;
    let mut over = false;
    let ghost mut val: nat = 0;
    let mut i = start;
    while i < v.len()
        invariant
            start <= i <= v@.len(),
            d == v@.skip(start as int),
            uint_text(v@, radix as nat) == (if d.len() > 0 && all_digits(d, radix as nat) {
                Some(digits_value(d, radix as nat))
            } else {
                None
            }),
            radix == 10 || radix == 16,
            val == digits_value(d.take(i - start), radix as nat),
            all_digits(d.take(i - start), radix as nat),
            !over ==> acc == val && val <= max,
            over ==> val > max,
        decreases v@.len() - i,
    {
        let c = v[i];
        let dv: u64 = if '0' <= c && c <= '9' {
            (c as u64) - 48
        } else if 'a' <= c && c <= 'z' {
            (c as u64) - 97 + 10
        } else if 'A' <= c && c <= 'Z' {
            (c as u64) - 65 + 10
        } else {
            radix
        };
        assert(digit_value(c, radix as nat) == if dv < radix { Some(dv as nat) } else { None::<nat> });
        if dv >= radix {
            assert(d[i - start] == c);
            assert(!all_digits(d, radix as nat));
            assert(uint_text(v@, radix as nat) is None);
            return None;
        }
        let ghost t = d.take(i - start + 1);
        assert(t.drop_last() =~= d.take(i - start));
        assert(t.last() == c);
        let ghost old_val = val;
        proof {
            val = val * (radix as nat) + (dv as nat);
            assert forall|j: int| 0 <= j < t.len() implies (#[trigger] digit_value(t[j], radix as nat)) is Some by {
                if j < t.len() - 1 {
                    assert(t[j] == d.take(i - start)[j]);
                }
            }
        }
        if !over {
            if dv > max {
                over = true;
                assert(val > max) by (nonlinear_arith)
                    requires
                        val == acc * radix + dv,
                        dv > max,
                ;
            } else {
                let lim = (max - dv) / radix;
                if acc > lim {
                    over = true;
                    assert(val > max) by (nonlinear_arith)
                        requires
                            acc > lim,
                            lim as int == (max as int - dv as int) / (radix as int),
                            val == acc * radix + dv,
                            radix > 0,
                            dv <= max,
                    ;
                } else {
                    assert(acc * radix + dv <= max) by (nonlinear_arith)
                        requires
                            acc <= lim,
                            lim as int == (max as int - dv as int) / (radix as int),
                            radix > 0,
                            dv <= max,
                    ;
                    acc = acc * radix + dv;
                }
            }
        } else {
            assert(val > max) by (nonlinear_arith)
                requires
                    val == old_val * radix + dv,
                    old_val > max,
                    radix >= 10,
                    dv >= 0,
            ;
        }
        i = i + 1;
    }
    assert(d.take(i - start) =~= d);
    if over {
        None
    } else {
        Some(acc)
    }
}

// ---------------------------------------------------------------------------
// Character classes from std's Unicode tables
// ---------------------------------------------------------------------------

/// Unicode `Alphabetic` property, as `char::is_alphabetic` reports it.
pub uninterp spec fn char_is_alphabetic(c: char) -> bool;

/// Unicode `Lowercase` property, as `char::is_lowercase` reports it.
pub uninterp spec fn char_is_lowercase(c: char) -> bool;

/// The lowercase mapping of a whole string, as `str::to_lowercase` computes it.
pub uninterp spec fn lowercase(s: Seq<char>) -> Seq<char>;

/// Calls `char::is_alphabetic`; the result is the named property of `c`.
#[verifier::external_body]
pub(crate) fn is_alphabetic(c: char) -> (b: bool)
    ensures
        b == char_is_alphabetic(c),
{
    c.is_alphabetic()
}

/// Calls `char::is_lowercase`; the result is the named property of `c`.
#[verifier::external_body]
pub(crate) fn is_lowercase(c: char) -> (b: bool)
    ensures
        b == char_is_lowercase(c),
{
    c.is_lowercase()
}

/// Calls `str::to_lowercase` on the characters `v`; the result is the named
/// lowercase mapping of `v`.
#[verifier::external_body]
pub(crate) fn to_lowercase_vec(v: &[char]) -> (r: Vec<char>)
    ensures
        r@ == lowercase(v@),
{
    v.iter().collect::<String>().to_lowercase().chars().collect()
}

/// `char::is_ascii_digit`.
pub open spec fn is_ascii_digit(c: char) -> bool {
    '0' <= c <= '9'
}


/// `parts[a..b]` joined with `sep`.
pub fn join_range(parts: &Vec<Vec<char>>, a: usize, b: usize, sep: &[char]) -> (out: Vec<char>)
    requires
        a <= b <= parts@.len(),
    ensures
        out@ == join(views(parts@).subrange(a as int, b as int), sep@),
{
    let mut out: Vec<char> = Vec::new();
    let mut i: usize = a;
    while i < b
        invariant
            a <= i <= b <= parts@.len(),
            out@ == join(views(parts@).subrange(a as int, i as int), sep@),
        decreases b - i,
    {
        if i > a {
            extend(&mut out, sep);
        }
        extend(&mut out, &parts[i]);
        proof {
            let t = views(parts@).subrange(a as int, i + 1);
            assert(t.drop_last() =~= views(parts@).subrange(a as int, i as int));
            if i == a {
                assert(out@ =~= t[0]);
            }
        }
        i = i + 1;
    }
    out
}

/// `str::replace` never lengthens text when the replacement is no longer than
/// the pattern.
pub proof fn lemma_replace_len(s: Seq<char>, p: Seq<char>, r: Seq<char>)
    requires
        r.len() <= p.len(),
    ensures
        replace_all(s, p, r).len() <= s.len(),
    decreases s.len(),
{
    if s.len() == 0 || p.len() == 0 {
    } else if occurs_at(s, p, 0) {
        lemma_replace_len(s.skip(p.len() as int), p, r);
    } else {
        lemma_replace_len(s.drop_first(), p, r);
    }
}

pub proof fn lemma_split_scan_bound(s: Seq<char>, c: char, st: int, i: int)
    requires
        0 <= i <= s.len(),
    ensures
        split_scan(s, c, st, i).len() <= s.len() - i + 1,
    decreases s.len() - i,
{
    if i >= s.len() {
    } else if s[i] == c {
        lemma_split_scan_bound(s, c, i + 1, i + 1);
    } else {
        lemma_split_scan_bound(s, c, st, i + 1);
    }
}

pub proof fn lemma_lines_bound(s: Seq<char>)
    ensures
        lines(s).len() <= s.len() + 1,
{
    lemma_split_scan_bound(s, '\n', 0, 0);
    lemma_split_len(s, '\n');
}

/// The first position at or after `i` holding whitespace (or the end).
pub open spec fn ws_end(s: Seq<char>, i: int) -> int
    decreases s.len() - i,
{
    if i < 0 || i >= s.len() || is_ws(s[i]) {
        i
    } else {
        ws_end(s, i + 1)
    }
}

/// The first whitespace-separated word (`str::split_whitespace().next()`).
pub open spec fn first_word(s: Seq<char>) -> Option<Seq<char>> {
    let t = trim_start(s);
    if t.len() == 0 {
        None
    } else {
        Some(t.take(ws_end(t, 0)))
    }
}

pub proof fn lemma_ws_end(s: Seq<char>, i: int)
    requires
        0 <= i <= s.len(),
    ensures
        i <= ws_end(s, i) <= s.len(),
        forall|j: int| i <= j < ws_end(s, i) ==> !is_ws(#[trigger] s[j]),
        ws_end(s, i) < s.len() ==> is_ws(s[ws_end(s, i)]),
    decreases s.len() - i,
{
    if i < s.len() && !is_ws(s[i]) {
        lemma_ws_end(s, i + 1);
    }
}

pub fn first_word_vec(v: &[char]) -> (r: Option<Vec<char>>)
    ensures
        r matches Some(w) ==> first_word(v@) == Some(w@),
        r is None ==> first_word(v@) is None,
{
    let mut a: usize = 0;
    while a < v.len() && is_whitespace(v[a])
        invariant
            a <= v@.len(),
            forall|j: int| 0 <= j < a ==> is_ws(#[trigger] v@[j]),
        decreases v@.len() - a,
    {
        a = a + 1;
    }
    proof {
        lemma_trim_start_skip(v@, a as int);
        if a < v@.len() {
            assert(!is_ws(v@.skip(a as int)[0]));
        }
    }
    if a >= v.len() {
        assert(v@.skip(a as int).len() == 0);
        return None;
    }
    let ghost t = v@.skip(a as int);
    let mut b: usize = a;
    while b < v.len() && !is_whitespace(v[b])
        invariant
            a <= b <= v@.len(),
            t == v@.skip(a as int),
            ws_end(t, 0) == ws_end(t, b - a),
        decreases v@.len() - b,
    {
        assert(t[b - a] == v@[b as int]);
        b = b + 1;
    }
    proof {
        if b < v@.len() {
            assert(t[b - a] == v@[b as int]);
        }
    }
    let w = slice_of(v, a, b);
    assert(w@ =~= t.take(b - a));
    Some(w)
}


/// Character-wise equality of two texts.
pub fn eq_vec(a: &[char], b: &[char]) -> (r: bool)
    ensures
        r == (a@ == b@),
{
    if a.len() != b.len() {
        return false;
    }
    let mut i: usize = 0;
    while i < a.len()
        invariant
            a@.len() == b@.len(),
            i <= a@.len(),
            forall|j: int| 0 <= j < i ==> a@[j] == b@[j],
        decreases a@.len() - i,
    {
        if a[i] != b[i] {
            return false;
        }
        i = i + 1;
    }
    assert(a@ =~= b@);
    true
}

/// Every character is an ASCII digit.
pub open spec fn all_ascii_digits(s: Seq<char>) -> bool {
    forall|i: int| 0 <= i < s.len() ==> is_ascii_digit(#[trigger] s[i])
}

pub fn all_ascii_digits_vec(v: &[char]) -> (r: bool)
    ensures
        r == all_ascii_digits(v@),
{
    let mut i: usize = 0;
    while i < v.len()
        invariant
            i <= v@.len(),
            forall|j: int| 0 <= j < i ==> is_ascii_digit(#[trigger] v@[j]),
        decreases v@.len() - i,
    {
        if !('0' <= v[i] && v[i] <= '9') {
            return false;
        }
        i = i + 1;
    }
    true
}


/// `str::split_whitespace`: the maximal runs of non-whitespace characters.
pub open spec fn words(s: Seq<char>) -> Seq<Seq<char>>
    decreases s.len(),
{
    let t = trim_start(s);
    if t.len() == 0 {
        seq![]
    } else {
        let e = ws_end(t, 0);
        proof {
            lemma_trim_start_len(s);
            lemma_ws_end(t, 0);
        }
        seq![t.take(e)] + words(t.skip(e))
    }
}

pub fn words_vec(v: &[char]) -> (out: Vec<Vec<char>>)
    ensures
        views(out@) == words(v@),
{
    let mut out: Vec<Vec<char>> = Vec::new();
    let mut i: usize = 0;
    assert(v@.skip(0) =~= v@);
    while i < v.len()
        invariant
            i <= v@.len(),
            views(out@) + words(v@.skip(i as int)) == words(v@),
        decreases v@.len() - i,
    {
        let ghost rest = v@.skip(i as int);
        let mut a = i;
        while a < v.len() && is_whitespace(v[a])
            invariant
                i <= a <= v@.len(),
                rest == v@.skip(i as int),
                forall|j: int| i <= j < a ==> is_ws(#[trigger] v@[j]),
            decreases v@.len() - a,
        {
            a = a + 1;
        }
        proof {
            assert forall|j: int| 0 <= j < a - i implies is_ws(#[trigger] rest[j]) by {
                assert(rest[j] == v@[i + j]);
            }
            lemma_trim_start_skip(rest, a - i);
            assert(rest.skip(a - i) =~= v@.skip(a as int));
            if a < v@.len() {
                assert(!is_ws(v@.skip(a as int)[0]));
            }
        }
        if a >= v.len() {
            assert(v@.skip(a as int).len() == 0);
            assert(views(out@) + seq![] =~= views(out@));
            return out;
        }
        let ghost t = v@.skip(a as int);
        let mut b = a;
        while b < v.len() && !is_whitespace(v[b])
            invariant
                a <= b <= v@.len(),
                t == v@.skip(a as int),
                ws_end(t, 0) == ws_end(t, b - a),
            decreases v@.len() - b,
        {
            assert(t[b - a] == v@[b as int]);
            b = b + 1;
        }
        proof {
            if b < v@.len() {
                assert(t[b - a] == v@[b as int]);
            }
            lemma_trim_start_len(rest);
            lemma_ws_end(t, 0);
        }
        let w = slice_of(v, a, b);
        assert(w@ =~= t.take(b - a));
        assert(t.skip(b - a) =~= v@.skip(b as int));
        let ghost o = views(out@);
        out.push(w);
        assert(views(out@) =~= o.push(w@));
        assert(o + (seq![w@] + words(v@.skip(b as int))) =~= views(out@) + words(v@.skip(b as int)));
        i = b;
    }
    assert(v@.skip(i as int).len() == 0);
    assert(views(out@) + seq![] =~= views(out@));
    out
}

/// String equality by content.
pub fn str_eq(a: &str, b: &str) -> (r: bool)
    ensures
        r == (a@ == b@),
{
    eq_vec(&chars_of(a), &chars_of(b))
}

} // verus!
