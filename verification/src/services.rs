//! Prompt construction and target-script validation for the Chat API
//! translator.
use vstd::prelude::*;
use crate::text;
use crate::srt::{self, Subtitle};
use crate::settings::AppSettings;
use crate::json::{self, Json, JsonNumber};

verus! {

broadcast use vstd::string::group_string_axioms;

// ---------------------------------------------------------------------------
// Script classification
// ---------------------------------------------------------------------------

/// Latin letters (Basic Latin, Latin-1 Supplement, Latin Extended-A/B and
/// Latin Extended Additional): always tolerated as loanwords and names.
pub open spec fn latin(c: char) -> bool {
    let u = c as u32;
    (0x41 <= u <= 0x5a) || (0x61 <= u <= 0x7a) || (0xc0 <= u <= 0x24f) || (0x1e00 <= u <= 0x1eff)
}

fn is_latin_letter(c: char) -> (b: bool)
    ensures
        b == latin(c),
{
    let u = c as u32;
    (0x41 <= u && u <= 0x5a) || (0x61 <= u && u <= 0x7a) || (0xc0 <= u && u <= 0x24f) || (0x1e00
        <= u && u <= 0x1eff)
}

/// `c` falls in one of the inclusive code-point ranges.
pub open spec fn in_ranges(c: char, rs: Seq<(u32, u32)>) -> bool {
    exists|i: int| 0 <= i < rs.len() && rs[i].0 <= c as u32 && c as u32 <= rs[i].1
}

fn in_ranges_exec(c: char, rs: &[(u32, u32)]) -> (b: bool)
    ensures
        b == in_ranges(c, rs@),
{
    let u = c as u32;
    let mut i: usize = 0;
    while i < rs.len()
        invariant
            i <= rs@.len(),
            u == c as u32,
            forall|j: int| 0 <= j < i ==> !(rs@[j].0 <= u && u <= rs@[j].1),
        decreases rs@.len() - i,
    {
        let (lo, hi) = rs[i];
        if u >= lo && u <= hi {
            return true;
        }
        i = i + 1;
    }
    false
}

/// Letter counts `(expected-script, Latin, foreign)`; non-letters are ignored.
pub open spec fn script_counts_spec(s: Seq<char>, rs: Seq<(u32, u32)>) -> (nat, nat, nat)
    decreases s.len(),
{
    if s.len() == 0 {
        (0, 0, 0)
    } else {
        let (g, l, f) = script_counts_spec(s.drop_last(), rs);
        let c = s.last();
        if !text::char_is_alphabetic(c) {
            (g, l, f)
        } else if in_ranges(c, rs) {
            (g + 1, l, f)
        } else if latin(c) {
            (g, l + 1, f)
        } else {
            (g, l, f + 1)
        }
    }
}

pub proof fn lemma_counts_bound(s: Seq<char>, rs: Seq<(u32, u32)>)
    ensures
        script_counts_spec(s, rs).0 + script_counts_spec(s, rs).1 + script_counts_spec(s, rs).2
            <= s.len(),
    decreases s.len(),
{
    if s.len() > 0 {
        lemma_counts_bound(s.drop_last(), rs);
    }
}

fn script_counts(v: &[char], expected: &[(u32, u32)]) -> (r: (usize, usize, usize))
    ensures
        (r.0 as nat, r.1 as nat, r.2 as nat) == script_counts_spec(v@, expected@),
        r.0 + r.1 + r.2 <= v@.len(),
{
    let mut good: usize = 0;
    let mut latin_n: usize = 0;
    let mut foreign: usize = 0;
    let mut i: usize = 0;
    while i < v.len()
        invariant
            i <= v@.len(),
            (good as nat, latin_n as nat, foreign as nat) == script_counts_spec(
                v@.take(i as int),
                expected@,
            ),
        decreases v@.len() - i,
    {
        proof {
            lemma_counts_bound(v@.take(i as int), expected@);
            let t = v@.take(i + 1);
            assert(t.drop_last() =~= v@.take(i as int));
        }
        let c = v[i];
        if text::is_alphabetic(c) {
            if in_ranges_exec(c, expected) {
                good = good + 1;
            } else if is_latin_letter(c) {
                latin_n = latin_n + 1;
            } else {
                foreign = foreign + 1;
            }
        }
        i = i + 1;
    }
    assert(v@.take(v@.len() as int) =~= v@);
    proof {
        lemma_counts_bound(v@, expected@);
    }
    (good, latin_n, foreign)
}

/// Whether a translated window is predominantly in the expected script:
/// unknown language (no ranges) or fewer than 8 letters is OK; any foreign
/// non-Latin letter fails; otherwise expected-script letters must be at least
/// half of expected + Latin.
pub open spec fn window_ok_spec(s: Seq<char>, rs: Seq<(u32, u32)>) -> bool {
    let (g, l, f) = script_counts_spec(s, rs);
    if rs.len() == 0 {
        true
    } else if g + l + f < 8 {
        true
    } else if f > 0 {
        false
    } else {
        g + l > 0 && 2 * g >= g + l
    }
}

/// Check whether a translated window is predominantly in the expected script.
pub fn window_script_ok(text: &str, expected: &[(u32, u32)]) -> (b: bool)
    ensures
        b == window_ok_spec(text@, expected@),
{
    let v = text::chars_of(text);
    window_ok_vec(&v, expected)
}

pub fn window_ok_vec(v: &[char], expected: &[(u32, u32)]) -> (b: bool)
    ensures
        b == window_ok_spec(v@, expected@),
{
    if expected.len() == 0 {
        return true;
    }
    let n = v.len();
    let (good, latin_n, foreign) = script_counts(v, expected);
    if good + latin_n + foreign < 8 {
        return true;
    }
    if foreign > 0 {
        return false;
    }
    let denom = good + latin_n;
    denom > 0 && good >= denom - good
}

/// A script-match score `num / den` in `[-1, 1]` (higher is better):
/// `(expected - foreign) / letters`, or `1` when the language is unknown or
/// there are no letters.
#[derive(Debug, Clone, Copy, PartialEq, Eq)]
pub struct Score {
    pub num: i128,
    pub den: u64,
}

pub open spec fn score_spec(s: Seq<char>, rs: Seq<(u32, u32)>) -> (int, int) {
    let (g, l, f) = script_counts_spec(s, rs);
    if rs.len() == 0 || g + l + f == 0 {
        (1, 1)
    } else {
        (g - f, (g + l + f) as int)
    }
}

/// The exact script score of a window (see [`Score`]).
pub fn script_score_exact(v: &[char], expected: &[(u32, u32)]) -> (r: Score)
    ensures
        (r.num as int, r.den as int) == score_spec(v@, expected@),
        r.den > 0,
        -(r.den as int) <= r.num <= r.den,
{
    if expected.len() == 0 {
        return Score { num: 1, den: 1 };
    }
    let n = v.len();
    let (g, l, f) = script_counts(v, expected);
    let total = g + l + f;
    if total == 0 {
        return Score { num: 1, den: 1 };
    }
    Score { num: g as i128 - f as i128, den: total as u64 }
}

/// `a` scores strictly higher than `b`.
pub open spec fn score_gt_spec(a: (int, int), b: (int, int)) -> bool {
    a.0 * b.1 > b.0 * a.1
}

pub fn score_gt(a: &Score, b: &Score) -> (r: bool)
    requires
        a.den > 0,
        b.den > 0,
        -(a.den as int) <= a.num <= a.den,
        -(b.den as int) <= b.num <= b.den,
    ensures
        r == score_gt_spec((a.num as int, a.den as int), (b.num as int, b.den as int)),
{
    let an = a.num;
    let bn = b.num;
    if an >= 0 && bn < 0 {
        assert(an * b.den >= 0 && bn * a.den < 0) by (nonlinear_arith)
            requires
                an >= 0,
                bn < 0,
                a.den > 0,
                b.den > 0,
        ;
        return true;
    }
    if an < 0 && bn >= 0 {
        assert(an * b.den < 0 && bn * a.den >= 0) by (nonlinear_arith)
            requires
                an < 0,
                bn >= 0,
                a.den > 0,
                b.den > 0,
        ;
        return false;
    }
    let ua: u128 = if an >= 0 { an as u128 } else { (-an) as u128 };
    let ub: u128 = if bn >= 0 { bn as u128 } else { (-bn) as u128 };
    assert(ua <= a.den && ub <= b.den);
    assert(ua * (b.den as u128) <= (a.den as u128) * (b.den as u128)) by (nonlinear_arith)
        requires
            ua <= a.den,
    ;
    assert(ub * (a.den as u128) <= (b.den as u128) * (a.den as u128)) by (nonlinear_arith)
        requires
            ub <= b.den,
    ;
    assert((a.den as u128) * (b.den as u128) <= 0xffff_ffff_ffff_ffff * 0xffff_ffff_ffff_ffffu128) by (nonlinear_arith)
        requires
            a.den <= 0xffff_ffff_ffff_ffffu64,
            b.den <= 0xffff_ffff_ffff_ffffu64,
    ;
    let x = ua * (b.den as u128);
    let y = ub * (a.den as u128);
    if an >= 0 {
        x > y
    } else {
        assert(an * b.den == -(ua * b.den)) by (nonlinear_arith)
            requires
                ua == -an,
        ;
        assert(bn * a.den == -(ub * a.den)) by (nonlinear_arith)
            requires
                ub == -bn,
        ;
        y > x
    }
}

// ---------------------------------------------------------------------------
// Per-cue wrong-language detection
// ---------------------------------------------------------------------------

/// The alphabetic characters of `w`.
pub open spec fn letters(w: Seq<char>) -> Seq<char>
    decreases w.len(),
{
    if w.len() == 0 {
        w
    } else if text::char_is_alphabetic(w.last()) {
        letters(w.drop_last()).push(w.last())
    } else {
        letters(w.drop_last())
    }
}

/// The whitespace-separated words that hold at least one letter.
pub open spec fn letter_words(ws: Seq<Seq<char>>) -> Seq<Seq<char>>
    decreases ws.len(),
{
    if ws.len() == 0 {
        ws
    } else if letters(ws.last()).len() > 0 {
        letter_words(ws.drop_last()).push(ws.last())
    } else {
        letter_words(ws.drop_last())
    }
}

/// A word whose letters are at least two and all lowercase.
pub open spec fn lowercase_word(w: Seq<char>) -> bool {
    letters(w).len() >= 2 && forall|i: int|
        0 <= i < letters(w).len() ==> text::char_is_lowercase(#[trigger] letters(w)[i])
}

/// Reads like a phrase (at least two words with letters, one of them an
/// all-lowercase word) rather than a name or code.
pub open spec fn latin_phrase_spec(s: Seq<char>) -> bool {
    let ws = letter_words(text::words(s));
    ws.len() >= 2 && exists|i: int| 0 <= i < ws.len() && lowercase_word(#[trigger] ws[i])
}

fn letters_vec(w: &[char]) -> (r: Vec<char>)
    ensures
        r@ == letters(w@),
{
    let mut r: Vec<char> = Vec::new();
    let mut i: usize = 0;
    while i < w.len()
        invariant
            i <= w@.len(),
            r@ == letters(w@.take(i as int)),
        decreases w@.len() - i,
    {
        let ghost t = w@.take(i + 1);
        assert(t.drop_last() =~= w@.take(i as int));
        if text::is_alphabetic(w[i]) {
            r.push(w[i]);
        }
        i = i + 1;
    }
    assert(w@.take(w@.len() as int) =~= w@);
    r
}

fn lowercase_word_exec(w: &[char]) -> (b: bool)
    ensures
        b == lowercase_word(w@),
{
    let l = letters_vec(w);
    if l.len() < 2 {
        return false;
    }
    let mut i: usize = 0;
    while i < l.len()
        invariant
            i <= l@.len(),
            l@ == letters(w@),
            forall|j: int| 0 <= j < i ==> text::char_is_lowercase(#[trigger] l@[j]),
        decreases l@.len() - i,
    {
        if !text::is_lowercase(l[i]) {
            assert(!text::char_is_lowercase(letters(w@)[i as int]));
            return false;
        }
        i = i + 1;
    }
    true
}

fn looks_like_latin_phrase(v: &[char]) -> (b: bool)
    ensures
        b == latin_phrase_spec(v@),
{
    let ws = text::words_vec(v);
    let ghost w = text::views(ws@);
    let mut lw: Vec<Vec<char>> = Vec::new();
    let mut i: usize = 0;
    while i < ws.len()
        invariant
            i <= ws@.len(),
            w == text::views(ws@),
            text::views(lw@) == letter_words(w.take(i as int)),
        decreases ws@.len() - i,
    {
        let ghost t = w.take(i + 1);
        assert(t.drop_last() =~= w.take(i as int));
        assert(t.last() == ws@[i as int]@);
        let l = letters_vec(&ws[i]);
        if l.len() > 0 {
            let ghost o = text::views(lw@);
            let c = text::slice_of(&ws[i], 0, ws[i].len());
            assert(c@ =~= ws@[i as int]@);
            lw.push(c);
            assert(text::views(lw@) =~= o.push(c@));
        }
        i = i + 1;
    }
    assert(w.take(w.len() as int) =~= w);
    if lw.len() < 2 {
        return false;
    }
    let mut k: usize = 0;
    while k < lw.len()
        invariant
            k <= lw@.len(),
            lw@.len() >= 2,
            w == text::words(v@),
            text::views(lw@) == letter_words(w),
            forall|j: int| 0 <= j < k ==> !lowercase_word(#[trigger] text::views(lw@)[j]),
        decreases lw@.len() - k,
    {
        assert(text::views(lw@)[k as int] == lw@[k as int]@);
        if lowercase_word_exec(&lw[k]) {
            assert(lowercase_word(text::views(lw@)[k as int]));
            assert(lowercase_word(letter_words(text::words(v@))[k as int]));
            return true;
        }
        k = k + 1;
    }
    false
}

/// One translated line looks like it is in the wrong language: it holds a
/// foreign-script letter, or it has no target-script letters but at least
/// three Latin letters reading like a phrase. Always false for an unknown
/// language.
pub open spec fn cue_suspect_spec(s: Seq<char>, rs: Seq<(u32, u32)>) -> bool {
    let (g, l, f) = script_counts_spec(s, rs);
    if rs.len() == 0 {
        false
    } else if f > 0 {
        true
    } else if g > 0 || l < 3 {
        false
    } else {
        latin_phrase_spec(s)
    }
}

/// Per-cue suspicion for the single-line cleanup pass.
pub fn cue_needs_retranslate(text: &str, expected: &[(u32, u32)]) -> (b: bool)
    ensures
        b == cue_suspect_spec(text@, expected@),
{
    let v = text::chars_of(text);
    cue_suspect_vec(&v, expected)
}

pub fn cue_suspect_vec(v: &[char], expected: &[(u32, u32)]) -> (b: bool)
    ensures
        b == cue_suspect_spec(v@, expected@),
{
    if expected.len() == 0 {
        return false;
    }
    let (good, latin_n, foreign) = script_counts(v, expected);
    if foreign > 0 {
        return true;
    }
    if good > 0 || latin_n < 3 {
        return false;
    }
    looks_like_latin_phrase(v)
}


// ---------------------------------------------------------------------------
// Prompts
// ---------------------------------------------------------------------------

pub const DEFAULT_SYSTEM_ROLE: &'static str = "You translate subtitles. Output must be ONLY the translated lines, one per input line, without indices, timestamps, or any additional labels.";

pub const DEFAULT_TEMPLATE: &'static str = "{header}\n- Keep numbering (e.g., 12:, 43:, ...)\n- Do not change the number of lines or merge/split cues\n- Preserve line breaks within each numbered block exactly as in the input\n- Return ONLY the translated text blocks with the same numbering, no timestamps, no extra comments\n- Translate EVERY line fully into the target language; do not leave any line in the source language or in any other language\n- Write product, model, brand and code names and alphanumeric identifiers (e.g. iPhone, R2-D2) in Latin letters, not in the target script; do not translate them. Ordinary personal and place names may be rendered naturally in the target language.{extra}\n\nExample:\n1:\nHello!\n42:\nHow are you?\n\nText:\n{src_block}";

/// Default templates shipped by earlier versions: a stored override equal to
/// one of these (or to [`DEFAULT_TEMPLATE`]) was never really customized.
pub const LEGACY_DEFAULT_TEMPLATES: [&'static str; 1] = [
    "{header}\n- Keep numbering (e.g., 12:, 43:, ...)\n- Do not change the number of lines or merge/split cues\n- Preserve line breaks within each numbered block exactly as in the input\n- Return ONLY the translated text blocks with the same numbering, no timestamps, no extra comments{extra}\n\n- New subtitles don't have to contain any characters in original language\nExample:\n1:\nHello!\n42:\nHow are you?\n\nText:\n{src_block}",
];

/// Default system roles shipped by earlier versions (none differ from the
/// current one yet).
pub const LEGACY_DEFAULT_SYSTEM_ROLES: [&'static str; 0] = [];

/// True if `s` is the current default template or any previously shipped one.
pub fn is_known_default_template(s: &str) -> (r: bool)
    ensures
        r == (s@ == DEFAULT_TEMPLATE@ || exists|i: int|
            0 <= i < LEGACY_DEFAULT_TEMPLATES@.len() && s@ == (#[trigger] LEGACY_DEFAULT_TEMPLATES@[i])@),
{
    if text::str_eq(s, DEFAULT_TEMPLATE) {
        return true;
    }
    let mut i: usize = 0;
    while i < LEGACY_DEFAULT_TEMPLATES.len()
        invariant
            i <= LEGACY_DEFAULT_TEMPLATES@.len(),
            s@ != DEFAULT_TEMPLATE@,
            forall|j: int| 0 <= j < i ==> s@ != (#[trigger] LEGACY_DEFAULT_TEMPLATES@[j])@,
        decreases LEGACY_DEFAULT_TEMPLATES@.len() - i,
    {
        if text::str_eq(s, LEGACY_DEFAULT_TEMPLATES[i]) {
            return true;
        }
        i = i + 1;
    }
    false
}

/// True if `s` is the current default system role or any previously shipped one.
pub fn is_known_default_system_role(s: &str) -> (r: bool)
    ensures
        r == (s@ == DEFAULT_SYSTEM_ROLE@ || exists|i: int|
            0 <= i < LEGACY_DEFAULT_SYSTEM_ROLES@.len() && s@ == (#[trigger] LEGACY_DEFAULT_SYSTEM_ROLES@[i])@),
{
    if text::str_eq(s, DEFAULT_SYSTEM_ROLE) {
        return true;
    }
    let mut i: usize = 0;
    while i < LEGACY_DEFAULT_SYSTEM_ROLES.len()
        invariant
            i <= LEGACY_DEFAULT_SYSTEM_ROLES@.len(),
            s@ != DEFAULT_SYSTEM_ROLE@,
            forall|j: int| 0 <= j < i ==> s@ != (#[trigger] LEGACY_DEFAULT_SYSTEM_ROLES@[j])@,
        decreases LEGACY_DEFAULT_SYSTEM_ROLES@.len() - i,
    {
        if text::str_eq(s, LEGACY_DEFAULT_SYSTEM_ROLES[i]) {
            return true;
        }
        i = i + 1;
    }
    false
}

/// The numbered source lines of a window: `"<index>:"` then the cue text (LF
/// line endings), for each cue.
pub open spec fn src_lines(cs: Seq<srt::Cue>) -> Seq<Seq<char>>
    decreases cs.len(),
{
    if cs.len() == 0 {
        seq![]
    } else {
        src_lines(cs.drop_last()).push(text::decimal(cs.last().index as nat).push(':')).push(
            srt::normalize(cs.last().content),
        )
    }
}

pub open spec fn extra_clause(extra_prompt: Seq<char>) -> Seq<char> {
    let extra = text::trim(extra_prompt);
    if extra.len() > 0 {
        "\n- IMPORTANT: "@ + extra + " (this instruction is mandatory even if exact translation suffers)"@
    } else {
        seq![]
    }
}

/// The user prompt for a window of cues: the template (the stored override,
/// or [`DEFAULT_TEMPLATE`] when it is empty) with `{header}`, `{extra}` and
/// `{src_block}` filled in, in that order.
pub open spec fn prompt_spec(
    extra_prompt: Seq<char>,
    template_override: Seq<char>,
    group: Seq<srt::Cue>,
    target_lang: Seq<char>,
) -> Seq<char> {
    let template = if template_override.len() > 0 {
        template_override
    } else {
        DEFAULT_TEMPLATE@
    };
    let header = "Translate into "@ + target_lang + ". Rules:"@;
    text::replace_all(
        text::replace_all(text::replace_all(template, "{header}"@, header), "{extra}"@, extra_clause(extra_prompt)),
        "{src_block}"@,
        text::join(src_lines(group), seq!['\n']),
    )
}

/// The translator's configuration; the HTTP side lives in the application.
pub struct TranslationService {
    pub settings: AppSettings,
}

impl TranslationService {
    pub fn new(settings: AppSettings) -> (r: TranslationService)
        ensures
            r.settings == settings,
    {
        TranslationService { settings }
    }

    /// The system message for translation requests: the stored override, or
    /// [`DEFAULT_SYSTEM_ROLE`] when it is empty.
    pub fn system_role(&self) -> (r: String)
        ensures
            r@ == if self.settings.system_role@.len() == 0 {
                DEFAULT_SYSTEM_ROLE@
            } else {
                self.settings.system_role@
            },
    {
        if self.settings.system_role.as_str().is_empty() {
            text::string_from(DEFAULT_SYSTEM_ROLE)
        } else {
            self.settings.system_role.clone()
        }
    }

    /// Build the user prompt for a group of cues.
    pub fn build_prompt(&self, group: &[Subtitle], target_lang: &str) -> (r: String)
        ensures
            r@ == prompt_spec(
                self.settings.extra_prompt@,
                self.settings.main_prompt_template@,
                srt::cues(group@),
                target_lang@,
            ),
    {
        let mut lines: Vec<Vec<char>> = Vec::new();
        let mut i: usize = 0;
        while i < group.len()
            invariant
                i <= group@.len(),
                text::views(lines@) == src_lines(srt::cues(group@).take(i as int)),
            decreases group@.len() - i,
        {
            let ghost t = srt::cues(group@).take(i + 1);
            assert(t.drop_last() =~= srt::cues(group@).take(i as int));
            let mut num = text::fmt_decimal(group[i].index as u64);
            num.push(':');
            let c = srt::normalize_vec(&text::chars_of(group[i].content.as_str()));
            let ghost o = text::views(lines@);
            lines.push(num);
            lines.push(c);
            assert(text::views(lines@) =~= o.push(num@).push(c@));
            i = i + 1;
        }
        assert(srt::cues(group@).take(group@.len() as int) =~= srt::cues(group@));
        let mut lf: Vec<char> = Vec::new();
        lf.push('\n');
        assert(lf@ =~= seq!['\n']);
        let src_block = text::join_vec(&lines, &lf);
        let extra = text::trim_vec(&text::chars_of(self.settings.extra_prompt.as_str()));
        let mut clause: Vec<char> = Vec::new();
        if extra.len() > 0 {
            clause = text::chars_of("\n- IMPORTANT: ");
            text::extend(&mut clause, &extra);
            text::extend(
                &mut clause,
                &text::chars_of(" (this instruction is mandatory even if exact translation suffers)"),
            );
        }
        let template = if !self.settings.main_prompt_template.as_str().is_empty() {
            text::chars_of(self.settings.main_prompt_template.as_str())
        } else {
            text::chars_of(DEFAULT_TEMPLATE)
        };
        let mut header = text::chars_of("Translate into ");
        text::extend(&mut header, &text::chars_of(target_lang));
        text::extend(&mut header, &text::chars_of(". Rules:"));
        let a = text::replace_vec(&template, &text::chars_of("{header}"), &header);
        let b = text::replace_vec(&a, &text::chars_of("{extra}"), &clause);
        let c = text::replace_vec(&b, &text::chars_of("{src_block}"), &src_block);
        text::string_of(&c)
    }
}

// ---------------------------------------------------------------------------
// Target-language metadata
// ---------------------------------------------------------------------------

/// Target-language metadata for the prompt header and script validation. An
/// empty `name` or empty `ranges` means unknown: the caller falls back to the
/// raw language string and skips validation.
#[derive(Debug)]
pub struct LangMeta {
    pub name: String,
    pub ranges: Vec<(u32, u32)>,
}

impl Default for LangMeta {
    fn default() -> (r: LangMeta)
        ensures
            r.name@ == Seq::<char>::empty(),
            r.ranges@ == Seq::<(u32, u32)>::empty(),
    {
        LangMeta { name: String::new(), ranges: Vec::new() }
    }
}

/// `s` with every leading copy of `p` removed (`str::trim_start_matches`).
pub open spec fn strip_all(s: Seq<char>, p: Seq<char>) -> Seq<char>
    decreases s.len(),
{
    if p.len() > 0 && p.is_prefix_of(s) {
        strip_all(s.skip(p.len() as int), p)
    } else {
        s
    }
}

/// A code point written as text: `0x`/`0X` hex, decimal, or bare hex, after
/// trimming and dropping `U+`/`u+` prefixes.
pub open spec fn codepoint_text(s: Seq<char>) -> Option<u32> {
    let t = strip_all(strip_all(text::trim(s), "U+"@), "u+"@);
    let v = if "0x"@.is_prefix_of(t) || "0X"@.is_prefix_of(t) {
        text::parse_uint(t.skip(2), 16, 0xffff_ffff)
    } else {
        match text::parse_uint(t, 10, 0xffff_ffff) {
            Some(v) => Some(v),
            None => text::parse_uint(t, 16, 0xffff_ffff),
        }
    };
    match v {
        Some(n) => Some(n as u32),
        None => None,
    }
}

/// A code point given as a JSON number or string.
pub open spec fn codepoint_spec(j: Json) -> Option<u32> {
    match j {
        Json::Number(JsonNumber::PosInt(u)) => if u <= 0xffff_ffff {
            Some(u as u32)
        } else {
            None
        },
        Json::Str(s) => codepoint_text(s@),
        _ => None,
    }
}

/// The well-formed `[lo, hi]` pairs (with `lo <= hi`) of a JSON array.
pub open spec fn ranges_of(items: Seq<Json>) -> Seq<(u32, u32)>
    decreases items.len(),
{
    if items.len() == 0 {
        seq![]
    } else {
        let rest = ranges_of(items.drop_last());
        match items.last() {
            Json::Array(p) => if p@.len() == 2 {
                match (codepoint_spec(p@[0]), codepoint_spec(p@[1])) {
                    (Some(lo), Some(hi)) => if lo <= hi {
                        rest.push((lo, hi))
                    } else {
                        rest
                    },
                    _ => rest,
                }
            } else {
                rest
            },
            _ => rest,
        }
    }
}

/// The text from the first `{` to the last `}`, if that `}` comes later.
pub open spec fn braced(raw: Seq<char>) -> Option<Seq<char>> {
    match (text::find_either(raw, '{', '{'), text::rfind_either(raw, '}', '}')) {
        (Some(a), Some(b)) => if b > a {
            Some(raw.subrange(a, b + 1))
        } else {
            None
        },
        _ => None,
    }
}

/// The name and ranges read from a metadata reply (empty when unreadable).
pub open spec fn lang_meta_spec(raw: Seq<char>) -> (Seq<char>, Seq<(u32, u32)>) {
    match braced(raw) {
        None => (Seq::<char>::empty(), Seq::<(u32, u32)>::empty()),
        Some(sl) => match json::json_parse_result(sl) {
            None => (Seq::<char>::empty(), Seq::<(u32, u32)>::empty()),
            Some(v) => meta_of(v),
        },
    }
}

/// The name and ranges held by a parsed metadata object: its trimmed `name`
/// (empty when missing or not a string) and the readable pairs of `ranges`.
pub open spec fn meta_of(v: Json) -> (Seq<char>, Seq<(u32, u32)>) {
    (
        text::trim(
            match json::str_of(json::member(v, "name"@)) {
                Some(n) => n,
                None => Seq::<char>::empty(),
            },
        ),
        match json::member(v, "ranges"@) {
            Some(Json::Array(a)) => ranges_of(a@),
            _ => Seq::<(u32, u32)>::empty(),
        },
    )
}

fn strip_all_vec(v: Vec<char>, p: &str) -> (r: Vec<char>)
    ensures
        r@ == strip_all(v@, p@),
    decreases v@.len(),
{
    let pv = text::chars_of(p);
    if pv.len() > 0 && pv.len() <= v.len() && text::matches_at(&v, &pv, 0) {
        assert(v@.subrange(0, pv@.len() as int) =~= pv@);
        assert(pv@.is_prefix_of(v@));
        let rest = text::slice_of(&v, pv.len(), v.len());
        assert(rest@ =~= v@.skip(pv@.len() as int));
        strip_all_vec(rest, p)
    } else {
        proof {
            if pv@.len() > 0 && pv@.is_prefix_of(v@) {
                assert(v@.subrange(0, pv@.len() as int) =~= pv@);
            }
        }
        v
    }
}

fn is_prefix_str(v: &[char], p: &str) -> (r: bool)
    ensures
        r == p@.is_prefix_of(v@),
{
    let pv = text::chars_of(p);
    crate::track_matcher::starts_with(v, &pv)
}

fn parse_codepoint_text(s: &str) -> (r: Option<u32>)
    ensures
        r == codepoint_text(s@),
{
    let t0 = text::trim_vec(&text::chars_of(s));
    let t = strip_all_vec(strip_all_vec(t0, "U+"), "u+");
    let v = if is_prefix_str(&t, "0x") || is_prefix_str(&t, "0X") {
        proof {
            reveal_strlit("0x");
            reveal_strlit("0X");
        }
        let h = text::slice_of(&t, 2, t.len());
        assert(h@ =~= t@.skip(2));
        text::parse_uint_vec(&h, 16, 0xffff_ffff)
    } else {
        match text::parse_uint_vec(&t, 10, 0xffff_ffff) {
            Some(v) => Some(v),
            None => text::parse_uint_vec(&t, 16, 0xffff_ffff),
        }
    };
    match v {
        Some(n) => Some(n as u32),
        None => None,
    }
}

fn parse_codepoint(v: &Json) -> (r: Option<u32>)
    ensures
        r == codepoint_spec(*v),
{
    match v {
        Json::Number(JsonNumber::PosInt(u)) => if *u <= 0xffff_ffff {
            Some(*u as u32)
        } else {
            None
        },
        Json::Str(s) => parse_codepoint_text(s.as_str()),
        _ => None,
    }
}

/// Read the metadata reply: the JSON object between the first `{` and the
/// last `}`, its trimmed `name`, and its `[lo, hi]` code-point pairs given as
/// numbers or as decimal/hex strings (`"3585"`, `"0x0E01"`, `"U+0E01"`),
/// keeping pairs with `lo <= hi`. Unreadable input gives empty metadata.
pub fn parse_lang_meta(raw: &str) -> (r: LangMeta)
    ensures
        (r.name@, r.ranges@) == lang_meta_spec(raw@),
{
    let v = text::chars_of(raw);
    let a = match text::find_either_vec(&v, '{', '{') {
        Some(a) => a,
        None => return LangMeta::default(),
    };
    let b = match text::rfind_either_vec(&v, '}', '}') {
        Some(b) => b,
        None => return LangMeta::default(),
    };
    if b <= a || b >= v.len() {
        return LangMeta::default();
    }
    let slice = text::string_of(&text::slice_of(&v, a, b + 1));
    let val = match json::json_parse(slice.as_str()) {
        Some(x) => x,
        None => return LangMeta::default(),
    };
    lang_meta_of(&val)
}

/// The metadata a parsed reply object holds: its trimmed `name` and its
/// `[lo, hi]` code-point pairs given as numbers or as decimal/hex strings,
/// keeping pairs with `lo <= hi`.
pub fn lang_meta_of(val: &Json) -> (r: LangMeta)
    ensures
        (r.name@, r.ranges@) == meta_of(*val),
{
    let name = match json::get_str(val, "name") {
        Some(n) => text::string_of(&text::trim_vec(&text::chars_of(n))),
        None => String::new(),
    };
    let mut ranges: Vec<(u32, u32)> = Vec::new();
    match json::get(val, "ranges") {
        Some(Json::Array(arr)) => {
            let mut i: usize = 0;
            assert(arr@.take(0) =~= seq![]);
            while i < arr.len()
                invariant
                    i <= arr@.len(),
                    ranges@ == ranges_of(arr@.take(i as int)),
                decreases arr@.len() - i,
            {
                let ghost q = arr@.take(i + 1);
                assert(q.drop_last() =~= arr@.take(i as int));
                assert(q.last() == arr@[i as int]);
                match &arr[i] {
                    Json::Array(p) => {
                        if p.len() == 2 {
                            match (parse_codepoint(&p[0]), parse_codepoint(&p[1])) {
                                (Some(lo), Some(hi)) => {
                                    if lo <= hi {
                                        ranges.push((lo, hi));
                                    }
                                },
                                _ => {},
                            }
                        }
                    },
                    _ => {},
                }
                i = i + 1;
            }
            assert(arr@.take(i as int) =~= arr@);
        },
        _ => {},
    }
    proof {
        reveal_strlit("");
    }
    LangMeta { name, ranges }
}

/// A JSON string literal, as `serde_json` writes it.
pub open spec fn quoted(s: Seq<char>) -> Seq<char> {
    json::json_string_literal(s)
}

/// `[lo,hi]` items separated by commas.
pub open spec fn ranges_text(rs: Seq<(u32, u32)>) -> Seq<char> {
    text::join(
        rs.map_values(|r: (u32, u32)| seq!['['] + text::decimal(r.0 as nat) + seq![','] + text::decimal(r.1 as nat) + seq![']']),
        seq![','],
    )
}

/// The cache blob for `meta` resolved from `target_lang`: a compact JSON
/// object with keys in order (`input`, `name`, `ranges`).
pub open spec fn cache_text(target: Seq<char>, name: Seq<char>, rs: Seq<(u32, u32)>) -> Seq<char> {
    "{\"input\":"@ + quoted(target) + ",\"name\":"@ + quoted(name) + ",\"ranges\":["@ + ranges_text(rs) + "]}"@
}

/// Characters that a JSON string literal holds as they are.
proof fn lemma_escaped_plain(s: Seq<char>)
    requires
        forall|k: int| 0 <= k < s.len() ==> #[trigger] s[k] != '"' && s[k] != '\\' && (s[k] as int) >= 0x20,
    ensures
        json::json_escaped(s) == s,
    decreases s.len(),
{
    if s.len() > 0 {
        lemma_escaped_plain(s.drop_last());
        assert(s.drop_last().push(s.last()) =~= s);
    }
}

proof fn lemma_key_literals()
    ensures
        json::json_string_literal("input"@) == seq!['"', 'i', 'n', 'p', 'u', 't', '"'],
        json::json_string_literal("name"@) == seq!['"', 'n', 'a', 'm', 'e', '"'],
        json::json_string_literal("ranges"@) == seq!['"', 'r', 'a', 'n', 'g', 'e', 's', '"'],
        text_lt("input"@, "name"@),
        text_lt("input"@, "ranges"@),
        text_lt("name"@, "ranges"@),
{
    reveal_strlit("input");
    reveal_strlit("name");
    reveal_strlit("ranges");
    lemma_escaped_plain("input"@);
    lemma_escaped_plain("name"@);
    lemma_escaped_plain("ranges"@);
}

/// The JSON array `[lo,hi]` of a range.
pub open spec fn range_json_ok(x: Json, r: (u32, u32)) -> bool {
    json::writable(x, 62) && json::json_text(x, 62) == seq!['['] + text::decimal(r.0 as nat) + seq![','] + text::decimal(
        r.1 as nat,
    ) + seq![']']
}

fn range_json(lo: u32, hi: u32) -> (x: Json)
    ensures
        range_json_ok(x, (lo, hi)),
{
    let mut pair: Vec<Json> = Vec::new();
    pair.push(Json::Number(JsonNumber::PosInt(lo as u64)));
    pair.push(Json::Number(JsonNumber::PosInt(hi as u64)));
    let x = Json::Array(pair);
    proof {
        let p = pair@;
        assert(p.drop_last().len() == 1);
        assert(p.drop_last()[0] == p[0]);
        assert(json::json_text(p[0], 61) == text::decimal(lo as nat));
        assert(json::json_text(p[1], 61) == text::decimal(hi as nat));
        assert(json::items_text(p.drop_last(), 61) == text::decimal(lo as nat));
        assert(json::items_text(p, 61) == text::decimal(lo as nat) + seq![','] + text::decimal(hi as nat));
        assert(json::items_writable(p.drop_last().drop_last(), 61));
        assert(p.drop_last().last() == p[0] && p.last() == p[1]);
        assert(json::writable(p[0], 61) && json::writable(p[1], 61));
        assert(json::items_writable(p.drop_last(), 61));
        assert(json::items_writable(p, 61));
        assert(json::writable(x, 62));
        assert(json::json_text(x, 62) == seq!['['] + json::items_text(p, 61) + seq![']']);
        assert(json::json_text(x, 62) =~= seq!['['] + text::decimal(lo as nat) + seq![','] + text::decimal(hi as nat)
            + seq![']']);
    }
    x
}

/// Serialize `meta` and its cache key into the blob kept in the settings:
/// `serde_json`'s compact text of `{"input":..,"name":..,"ranges":[[lo,hi],..]}`.
pub fn lang_meta_to_cache(target_lang: &str, meta: &LangMeta) -> (r: String)
    ensures
        r@ == cache_text(target_lang@, meta.name@, meta.ranges@),
{
    let ghost f = |r: (u32, u32)| seq!['['] + text::decimal(r.0 as nat) + seq![','] + text::decimal(r.1 as nat) + seq![']'];
    let mut items: Vec<Json> = Vec::new();
    let mut i: usize = 0;
    while i < meta.ranges.len()
        invariant
            i <= meta.ranges@.len(),
            items@.len() == i,
            f == (|r: (u32, u32)| seq!['['] + text::decimal(r.0 as nat) + seq![','] + text::decimal(r.1 as nat) + seq![']']),
            json::items_writable(items@, 62),
            json::items_text(items@, 62) == text::join(meta.ranges@.take(i as int).map_values(f), seq![',']),
        decreases meta.ranges@.len() - i,
    {
        let (lo, hi) = meta.ranges[i];
        let x = range_json(lo, hi);
        let ghost o = items@;
        let ghost parts = meta.ranges@.take(i as int).map_values(f);
        items.push(x);
        proof {
            assert(items@.drop_last() =~= o);
            assert(items@.last() == x);
            let np = meta.ranges@.take(i + 1).map_values(f);
            assert(np =~= parts.push(f((lo, hi))));
            assert(np.drop_last() =~= parts);
            assert(f((lo, hi)) == json::json_text(x, 62));
            if i == 0 {
                assert(items@.len() == 1);
                assert(items@[0] == x);
            }
        }
        i = i + 1;
    }
    assert(meta.ranges@.take(i as int) =~= meta.ranges@);
    let ranges = Json::Array(items);
    let mut ms: Vec<(String, Json)> = Vec::new();
    ms.push((text::string_from("input"), Json::Str(text::string_from(target_lang))));
    ms.push((text::string_from("name"), Json::Str(meta.name.clone())));
    ms.push((text::string_from("ranges"), ranges));
    let obj = Json::Object(ms);
    proof {
        lemma_key_literals();
        let m = ms@;
        assert(m.len() == 3);
        assert(json::keys_sorted(m)) by {
            assert forall|a: int, b: int| 0 <= a < b < m.len() implies text_lt(#[trigger] m[a].0@, #[trigger] m[b].0@) by {
            }
        }
        let m2 = m.drop_last();
        let m1 = m2.drop_last();
        assert(m1.len() == 1 && m1[0] == m[0]);
        assert(m2.len() == 2 && m2.last() == m[1]);
        assert(m1.drop_last().len() == 0);
        assert(json::writable(m[0].1, 63));
        assert(json::writable(m[1].1, 63));
        assert(json::writable(m[2].1, 63));
        assert(json::members_writable(m1.drop_last(), 63));
        assert(json::members_writable(m1, 63));
        assert(json::members_writable(m2, 63));
        assert(json::members_writable(m, 63));
        assert(json::writable(obj, 64));
        assert(json::json_text(obj, 64) == seq!['{'] + json::members_text(m, 63) + seq!['}']);
        assert(json::json_text(m[2].1, 63) == seq!['['] + json::items_text(items@, 62) + seq![']']);
        assert(json::json_text(m[1].1, 63) == quoted(meta.name@));
        assert(json::json_text(m[0].1, 63) == quoted(target_lang@));
        assert(json::members_text(m1, 63) == json::json_string_literal("input"@) + seq![':'] + quoted(target_lang@));
        assert(json::members_text(m2, 63) == json::members_text(m1, 63) + seq![','] + json::json_string_literal(
            "name"@,
        ) + seq![':'] + quoted(meta.name@));
        assert(json::members_text(m, 63) == json::members_text(m2, 63) + seq![','] + json::json_string_literal(
            "ranges"@,
        ) + seq![':'] + json::json_text(m[2].1, 63));
        reveal_strlit("{\"input\":");
        reveal_strlit(",\"name\":");
        reveal_strlit(",\"ranges\":[");
        reveal_strlit("]}");
        assert(json::json_text(obj, 64) =~= cache_text(target_lang@, meta.name@, meta.ranges@));
    }
    json::json_write(&obj)
}

/// Cached metadata, when the blob was produced for `target_lang`.
pub open spec fn from_cache_spec(cache: Seq<char>, target: Seq<char>) -> Option<(Seq<char>, Seq<(u32, u32)>)> {
    match json::json_parse_result(cache) {
        None => None,
        Some(v) => if json::str_of(json::member(v, "input"@)) == Some(target) {
            Some(lang_meta_spec(cache))
        } else {
            None
        },
    }
}

/// Read cached metadata if the blob was produced for `target_lang`.
pub fn lang_meta_from_cache(cache: &str, target_lang: &str) -> (r: Option<LangMeta>)
    ensures
        r matches Some(m) ==> from_cache_spec(cache@, target_lang@) == Some((m.name@, m.ranges@)),
        r is None ==> from_cache_spec(cache@, target_lang@) is None,
{
    let val = match json::json_parse(cache) {
        Some(v) => v,
        None => return None,
    };
    if cache_matches(&val, target_lang) {
        Some(parse_lang_meta(cache))
    } else {
        None
    }
}

/// Whether a parsed cache blob was produced for `target_lang`: its `input`
/// member is that string.
pub fn cache_matches(val: &Json, target_lang: &str) -> (b: bool)
    ensures
        b == (json::str_of(json::member(*val, "input"@)) == Some(target_lang@)),
{
    match json::get_str(val, "input") {
        Some(i) => text::str_eq(i, target_lang),
        None => false,
    }
}

// ---------------------------------------------------------------------------
// Chat requests and replies
// ---------------------------------------------------------------------------

/// System message of the ISO 639-2 request.
pub const ISO3_SYSTEM: &'static str = "You are a language code normalizer. Given any user-provided language/style description, respond with the ISO 639-2 (bibliographic or terminologic) three-letter lowercase code for the primary language. If uncertain, respond with 'und'. Output MUST be only the 3-letter code or 'und', no extra text.";

/// Examples of the ISO 639-2 request.
pub const ISO3_EXAMPLES: &'static str = "Examples:\n- 'феня с матами' -> rus\n- 'русский' -> rus\n- 'english sdH' -> eng\n- '日本語' -> jpn\n- 'китайский мандарин' -> zho\n";

/// System message of the language-tag request.
pub const TAG_SYSTEM: &'static str = "You convert any user-provided language/style description into a short English phrase suitable for an MKV metadata language tag. Rules: respond in lowercase ascii only, max 30 characters, use only letters, numbers and spaces, no punctuation, no quotes, no code blocks. Return ONLY the phrase.";

/// Examples of the language-tag request.
pub const TAG_EXAMPLES: &'static str = "Examples:\n- 'феня с матами' -> fen bad words\n- 'русский' -> russian\n- '日本語' -> japanese\n- 'русский без мата' -> russian no profanity\n";

/// System message of the language-metadata request.
pub const META_SYSTEM: &'static str = "You are a language metadata resolver. Given a user-provided language or style description, respond with ONLY a JSON object of the form {\"name\": <canonical English language name>, \"ranges\": [[start, end], ...]} where `ranges` are the Unicode code-point ranges (decimal integers, inclusive) of the LETTER blocks of the script(s) normally used to write that language. Include letter blocks only (no punctuation, digits or symbols). Cover every script the language commonly uses. If you cannot determine the language, respond with {\"name\": \"\", \"ranges\": []}. No prose, no code fences.";

/// Examples of the language-metadata request.
pub const META_EXAMPLES: &'static str = "Examples:\n- 'th' -> {\"name\": \"Thai\", \"ranges\": [[3585, 3675]]}\n- 'русский' -> {\"name\": \"Russian\", \"ranges\": [[1024, 1327]]}\n- 'english sdh' -> {\"name\": \"English\", \"ranges\": [[65, 90], [97, 122]]}\n- '日本語' -> {\"name\": \"Japanese\", \"ranges\": [[12352, 12447], [12448, 12543], [19968, 40959]]}\n";

/// The user message asking for the ISO 639-2 code of `raw_lang`.
pub open spec fn iso3_user_text(raw_lang: Seq<char>) -> Seq<char> {
    "Language field: "@ + crate::kodi::debug_text(raw_lang) + ". Return only ISO 639-2 code. "@ + ISO3_EXAMPLES@
}

/// The user message asking for an English MKV tag phrase for `raw_lang`.
pub open spec fn tag_user_text(raw_lang: Seq<char>) -> Seq<char> {
    "Given a 'language' field: "@ + crate::kodi::debug_text(raw_lang) + ". "@ + TAG_EXAMPLES@
        + "\nReturn only the English phrase."@
}

/// The user message asking for the name and script ranges of `target_lang`.
pub open spec fn meta_user_text(target_lang: Seq<char>) -> Seq<char> {
    "Language field: "@ + crate::kodi::debug_text(target_lang) + ". Return only the JSON object. "@ + META_EXAMPLES@
}

/// The messages `(system, user)` asking for the ISO 639-2 code.
pub fn iso3_request(raw_lang: &str) -> (r: (String, String))
    ensures
        r.0@ == ISO3_SYSTEM@,
        r.1@ == iso3_user_text(raw_lang@),
{
    let mut u = text::chars_of("Language field: ");
    text::extend(&mut u, &text::chars_of(crate::kodi::debug_str(raw_lang).as_str()));
    text::extend(&mut u, &text::chars_of(". Return only ISO 639-2 code. "));
    text::extend(&mut u, &text::chars_of(ISO3_EXAMPLES));
    (text::string_from(ISO3_SYSTEM), text::string_of(&u))
}

/// The messages `(system, user)` asking for an MKV language-tag phrase.
pub fn tag_request(raw_lang: &str) -> (r: (String, String))
    ensures
        r.0@ == TAG_SYSTEM@,
        r.1@ == tag_user_text(raw_lang@),
{
    let mut u = text::chars_of("Given a 'language' field: ");
    text::extend(&mut u, &text::chars_of(crate::kodi::debug_str(raw_lang).as_str()));
    text::extend(&mut u, &text::chars_of(". "));
    text::extend(&mut u, &text::chars_of(TAG_EXAMPLES));
    text::extend(&mut u, &text::chars_of("\nReturn only the English phrase."));
    (text::string_from(TAG_SYSTEM), text::string_of(&u))
}

/// The messages `(system, user)` asking for the language metadata.
pub fn meta_request(target_lang: &str) -> (r: (String, String))
    ensures
        r.0@ == META_SYSTEM@,
        r.1@ == meta_user_text(target_lang@),
{
    let mut u = text::chars_of("Language field: ");
    text::extend(&mut u, &text::chars_of(crate::kodi::debug_str(target_lang).as_str()));
    text::extend(&mut u, &text::chars_of(". Return only the JSON object. "));
    text::extend(&mut u, &text::chars_of(META_EXAMPLES));
    (text::string_from(META_SYSTEM), text::string_of(&u))
}

/// Requests need an API key.
pub fn check_api_key(settings: &AppSettings) -> (r: Result<(), String>)
    ensures
        settings.api_key@.len() == 0 ==> (r matches Err(e) && e@ == "API key is not set in settings"@),
        settings.api_key@.len() > 0 ==> r is Ok,
{
    if settings.api_key.as_str().is_empty() {
        Err(text::string_from("API key is not set in settings"))
    } else {
        Ok(())
    }
}

/// The element `i` of a JSON array.
pub open spec fn item(j: Option<Json>, i: int) -> Option<Json> {
    match j {
        Some(Json::Array(a)) => if 0 <= i < a@.len() {
            Some(a@[i])
        } else {
            None
        },
        _ => None,
    }
}

/// The step `0` of a JSON pointer (`Value::pointer`): member `"0"` of an
/// object, element 0 of an array.
pub open spec fn pointer_zero(j: Option<Json>) -> Option<Json> {
    match j {
        Some(Json::Object(_)) => json::member(j->0, "0"@),
        _ => item(j, 0),
    }
}

/// The reply text of a chat completion: the string at the JSON pointer
/// `/choices/0/message/content`.
pub open spec fn content_of(data: Json) -> Option<Seq<char>> {
    match pointer_zero(json::member(data, "choices"@)) {
        Some(c) => match json::member(c, "message"@) {
            Some(m) => json::str_of(json::member(m, "content"@)),
            None => None,
        },
        None => None,
    }
}

/// The outcome of a chat completion from the reply's status and body: an API
/// error for a status other than 200, a format error when the body is not JSON
/// or has no reply text, else the trimmed reply text.
pub open spec fn chat_reply_spec(status: u16, body: Seq<char>) -> Result<Seq<char>, Seq<char>> {
    if status != 200 {
        Err("API error "@ + text::decimal(status as nat) + ": "@ + crate::kodi::truncated(body, 300))
    } else {
        match json::json_parse_result(body) {
            None => Err("Unexpected API response format"@),
            Some(data) => match content_of(data) {
                Some(c) => Ok(text::trim(c)),
                None => Err("Unexpected API response format"@),
            },
        }
    }
}

/// Read a chat completion reply.
pub fn chat_reply(status: u16, body: &str) -> (r: Result<String, String>)
    ensures
        match chat_reply_spec(status, body@) {
            Ok(c) => r matches Ok(s) && s@ == c,
            Err(e) => r matches Err(s) && s@ == e,
        },
{
    if status != 200 {
        let mut out = text::chars_of("API error ");
        text::extend(&mut out, &text::fmt_decimal(status as u64));
        text::extend(&mut out, &text::chars_of(": "));
        let b = text::chars_of(body);
        let t = if b.len() <= 300 {
            b
        } else {
            text::slice_of(&b, 0, 300)
        };
        text::extend(&mut out, &t);
        return Err(text::string_of(&out));
    }
    let data = match json::json_parse(body) {
        Some(d) => d,
        None => return Err(text::string_from("Unexpected API response format")),
    };
    reply_content(&data)
}

/// The reply text of a parsed chat completion: the trimmed string at
/// `/choices/0/message/content`, or a format error when there is none.
pub fn reply_content(data: &Json) -> (r: Result<String, String>)
    ensures
        match content_of(*data) {
            Some(c) => r matches Ok(s) && s@ == text::trim(c),
            None => r matches Err(s) && s@ == "Unexpected API response format"@,
        },
{
    let first = match json::get(data, "choices") {
        Some(Json::Array(a)) => if a.len() > 0 {
            Some(&a[0])
        } else {
            None
        },
        Some(c) => match c {
            Json::Object(_) => json::get(c, "0"),
            _ => None,
        },
        None => None,
    };
    let content = match first {
        Some(c) => match json::get(c, "message") {
            Some(m) => json::get_str(m, "content"),
            None => None,
        },
        None => None,
    };
    match content {
        Some(c) => Ok(text::string_of(&text::trim_vec(&text::chars_of(c)))),
        None => Err(text::string_from("Unexpected API response format")),
    }
}


// ---------------------------------------------------------------------------
// Model list
// ---------------------------------------------------------------------------

/// The error of a reply whose status is not 200: the status and the first 300
/// characters of the body.
pub open spec fn api_error_spec(status: u16, body: Seq<char>) -> Option<Seq<char>> {
    if status != 200 {
        Some("API error "@ + text::decimal(status as nat) + ": "@ + crate::kodi::truncated(body, 300))
    } else {
        None
    }
}

/// The API error of a reply, if its status is not 200.
pub fn api_error(status: u16, body: &str) -> (r: Option<String>)
    ensures
        match api_error_spec(status, body@) {
            Some(e) => r matches Some(s) && s@ == e,
            None => r is None,
        },
{
    if status == 200 {
        return None;
    }
    let mut out = text::chars_of("API error ");
    text::extend(&mut out, &text::fmt_decimal(status as u64));
    text::extend(&mut out, &text::chars_of(": "));
    let b = text::chars_of(body);
    let t = if b.len() <= 300 {
        b
    } else {
        text::slice_of(&b, 0, 300)
    };
    text::extend(&mut out, &t);
    Some(text::string_of(&out))
}

/// `a` sorts strictly before `b`, character by character (the order of
/// `String`: UTF-8 byte order is code point order).
pub open spec fn text_lt(a: Seq<char>, b: Seq<char>) -> bool
    decreases a.len(),
{
    if a.len() == 0 {
        b.len() > 0
    } else if b.len() == 0 {
        false
    } else if a[0] != b[0] {
        (a[0] as int) < (b[0] as int)
    } else {
        text_lt(a.drop_first(), b.drop_first())
    }
}

pub open spec fn text_le(a: Seq<char>, b: Seq<char>) -> bool {
    a == b || text_lt(a, b)
}

/// `x` placed into `s` after every id not greater than it.
pub open spec fn insert_id(s: Seq<Seq<char>>, x: Seq<char>) -> Seq<Seq<char>>
    decreases s.len(),
{
    if s.len() == 0 || text_le(s.last(), x) {
        s.push(x)
    } else {
        insert_id(s.drop_last(), x).push(s.last())
    }
}

/// The ids in ascending order.
pub open spec fn sort_ids(s: Seq<Seq<char>>) -> Seq<Seq<char>>
    decreases s.len(),
{
    if s.len() == 0 {
        s
    } else {
        insert_id(sort_ids(s.drop_last()), s.last())
    }
}

/// The string `id` of each listed model, in order (entries without one are
/// skipped).
pub open spec fn ids_in(items: Seq<Json>) -> Seq<Seq<char>>
    decreases items.len(),
{
    if items.len() == 0 {
        seq![]
    } else {
        let rest = ids_in(items.drop_last());
        match json::str_of(json::member(items.last(), "id"@)) {
            Some(s) => rest.push(s),
            None => rest,
        }
    }
}

/// The model ids of a `/models` reply, sorted: the string `id`s of the
/// entries of its `data` array (none when there is no such array).
pub open spec fn model_ids_spec(data: Json) -> Seq<Seq<char>> {
    match json::member(data, "data"@) {
        Some(Json::Array(a)) => sort_ids(ids_in(a@)),
        _ => seq![],
    }
}

pub open spec fn id_views(v: Seq<String>) -> Seq<Seq<char>> {
    Seq::new(v.len(), |i: int| v[i]@)
}

fn text_le_exec(a: &[char], b: &[char]) -> (r: bool)
    ensures
        r == text_le(a@, b@),
{
    let mut i: usize = 0;
    assert(a@.skip(0) =~= a@);
    assert(b@.skip(0) =~= b@);
    while i < a.len() && i < b.len() && a[i] == b[i]
        invariant
            i <= a@.len(),
            i <= b@.len(),
            a@.take(i as int) == b@.take(i as int),
            text_le(a@, b@) == text_le(a@.skip(i as int), b@.skip(i as int)),
        decreases a@.len() - i,
    {
        let ghost (x, y) = (a@.skip(i as int), b@.skip(i as int));
        assert(x.drop_first() =~= a@.skip(i + 1));
        assert(y.drop_first() =~= b@.skip(i + 1));
        assert(a@.take(i + 1) =~= a@.take(i as int).push(a@[i as int]));
        assert(b@.take(i + 1) =~= b@.take(i as int).push(b@[i as int]));
        proof {
            if x == y {
                assert(x.drop_first() == y.drop_first());
            } else {
                assert(x.drop_first() != y.drop_first()) by {
                    if x.drop_first() == y.drop_first() {
                        assert forall|k: int| 0 <= k < x.len() implies x[k] == y[k] by {
                            if k > 0 {
                                assert(x[k] == x.drop_first()[k - 1]);
                                assert(y[k] == y.drop_first()[k - 1]);
                            }
                        }
                        assert(x =~= y);
                    }
                }
            }
        }
        i = i + 1;
    }
    let ghost (x, y) = (a@.skip(i as int), b@.skip(i as int));
    if i == a.len() {
        assert(x.len() == 0);
        proof {
            if y.len() == 0 {
                assert(a@ =~= a@.take(i as int));
                assert(b@ =~= b@.take(i as int));
            }
        }
        true
    } else if i == b.len() {
        assert(y.len() == 0 && x.len() > 0);
        assert(a@ != b@) by {
            if a@ == b@ {
                assert(a@.len() == b@.len());
            }
        }
        false
    } else {
        assert(x[0] == a@[i as int] && y[0] == b@[i as int]);
        assert(a@ != b@) by {
            if a@ == b@ {
                assert(a@[i as int] == b@[i as int]);
            }
        }
        a[i] < b[i]
    }
}

fn insert_id_exec(out: &mut Vec<String>, x: String)
    ensures
        id_views(final(out)@) == insert_id(id_views(old(out)@), x@),
{
    let ghost o = id_views(out@);
    let xc = text::chars_of(x.as_str());
    let mut j: usize = out.len();
    assert(o.take(j as int) =~= o);
    assert(o.skip(j as int) =~= seq![]);
    while j > 0 && !text_le_exec(&text::chars_of(out[j - 1].as_str()), &xc)
        invariant
            j <= out@.len(),
            o == id_views(out@),
            xc@ == x@,
            insert_id(o, x@) == insert_id(o.take(j as int), x@) + o.skip(j as int),
        decreases j,
    {
        let ghost t = o.take(j as int);
        assert(t.last() == out@[j - 1]@);
        assert(t.drop_last() =~= o.take(j - 1));
        assert(insert_id(o.take(j - 1), x@).push(t.last()) + o.skip(j as int) =~= insert_id(
            o.take(j - 1),
            x@,
        ) + o.skip(j - 1));
        j = j - 1;
    }
    proof {
        if j > 0 {
            assert(o.take(j as int).last() == out@[j - 1]@);
        }
    }
    out.insert(j, x);
    assert(id_views(out@) =~= o.take(j as int).push(x@) + o.skip(j as int));
}

/// The model ids of a `/models` reply, sorted.
pub fn model_ids(data: &Json) -> (r: Vec<String>)
    ensures
        id_views(r@) == model_ids_spec(*data),
{
    let mut out: Vec<String> = Vec::new();
    let a = match json::get(data, "data") {
        Some(Json::Array(a)) => a,
        _ => {
            assert(id_views(out@) =~= seq![]);
            return out;
        },
    };
    let ghost ids = ids_in(a@);
    let mut i: usize = 0;
    assert(id_views(out@) =~= seq![]);
    assert(a@.take(0) =~= seq![]);
    while i < a.len()
        invariant
            i <= a@.len(),
            id_views(out@) == sort_ids(ids_in(a@.take(i as int))),
        decreases a@.len() - i,
    {
        let ghost t = a@.take(i + 1);
        assert(t.drop_last() =~= a@.take(i as int));
        assert(t.last() == a@[i as int]);
        match json::get_str(&a[i], "id") {
            Some(s) => {
                let ghost q = ids_in(a@.take(i as int));
                assert(ids_in(t) == q.push(s@));
                assert(q.push(s@).drop_last() =~= q);
                insert_id_exec(&mut out, text::string_from(s));
            },
            None => {},
        }
        i = i + 1;
    }
    assert(a@.take(a@.len() as int) =~= a@);
    out
}

} // verus!
