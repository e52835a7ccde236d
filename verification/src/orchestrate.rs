//! The single-file flow's decisions: output paths, the language tag and
//! ISO 639-2 code of the new track (with their cache), its title, and the
//! target-language metadata cache.
use vstd::prelude::*;
use crate::text;
use crate::matching;
use crate::ffmpeg::Stream;
use crate::services::{self, LangMeta};

verus! {

broadcast use vstd::string::group_string_axioms;

// ---------------------------------------------------------------------------
// Paths
// ---------------------------------------------------------------------------

/// `path` without its extension: the text before the last `.` when that `.`
/// comes after the file name's first character.
pub open spec fn strip_ext_spec(p: Seq<char>) -> Seq<char> {
    let sep: int = match text::rfind_either(p, '/', '\\') {
        Some(k) => k + 1,
        None => 0,
    };
    match text::rfind_either(p, '.', '.') {
        Some(pos) => if pos > sep {
            p.take(pos)
        } else {
            p
        },
        None => p,
    }
}

/// Strip the extension from a path (`/a/b.mkv` gives `/a/b`; `/a/.hidden`
/// and `/a.d/b` are kept).
pub fn strip_ext(path: &str) -> (r: String)
    ensures
        r@ == strip_ext_spec(path@),
{
    let v = text::chars_of(path);
    let n = v.len();
    let sep: usize = match text::rfind_either_vec(&v, '/', '\\') {
        Some(k) => k + 1,
        None => 0,
    };
    match text::rfind_either_vec(&v, '.', '.') {
        Some(pos) => if pos > sep {
            let s = text::slice_of(&v, 0, pos);
            assert(s@ =~= v@.take(pos as int));
            text::string_of(&s)
        } else {
            text::string_from(path)
        },
        None => text::string_from(path),
    }
}

/// The extension of a path: the text after the last `.` when that `.` comes
/// after the file name's first character (`/` and `\` both end a directory).
pub open spec fn extension_spec(p: Seq<char>) -> Option<Seq<char>> {
    let sep: int = match text::rfind_either(p, '/', '\\') {
        Some(k) => k + 1,
        None => 0,
    };
    match text::rfind_either(p, '.', '.') {
        Some(pos) => if pos > sep {
            Some(p.skip(pos + 1))
        } else {
            None
        },
        None => None,
    }
}

/// The extension is `mkv` in any ASCII letter case.
pub open spec fn mkv_spec(p: Option<Seq<char>>) -> bool {
    match p {
        Some(x) => match extension_spec(x) {
            Some(e) => e.len() == 3 && (e[0] == 'm' || e[0] == 'M') && (e[1] == 'k' || e[1] == 'K') && (e[2]
                == 'v' || e[2] == 'V'),
            None => false,
        },
        None => false,
    }
}

/// Whether a container path is an MKV file, which gets the translated track
/// remuxed in.
pub fn is_mkv(path: Option<&str>) -> (r: bool)
    ensures
        r == mkv_spec(
            match path {
                Some(p) => Some(p@),
                None => None,
            },
        ),
{
    let p = match path {
        Some(p) => p,
        None => return false,
    };
    let v = text::chars_of(p);
    let n = v.len();
    let sep: usize = match text::rfind_either_vec(&v, '/', '\\') {
        Some(k) => k + 1,
        None => 0,
    };
    match text::rfind_either_vec(&v, '.', '.') {
        Some(pos) => if pos > sep {
            if n - (pos + 1) != 3 {
                return false;
            }
            let (a, b, c) = (v[pos + 1], v[pos + 2], v[pos + 3]);
            assert(v@.skip(pos + 1)[0] == a && v@.skip(pos + 1)[1] == b && v@.skip(pos + 1)[2] == c);
            (a == 'm' || a == 'M') && (b == 'k' || b == 'K') && (c == 'v' || c == 'V')
        } else {
            false
        },
        None => false,
    }
}

/// The file name of a path: the text after the last `/` or `\`.
pub open spec fn basename_spec(p: Seq<char>) -> Seq<char> {
    match text::rfind_either(p, '/', '\\') {
        Some(k) => p.skip(k + 1),
        None => p,
    }
}

/// The file name of a path.
pub fn basename(path: &str) -> (r: String)
    ensures
        r@ == basename_spec(path@),
{
    let v = text::chars_of(path);
    let n = v.len();
    match text::rfind_either_vec(&v, '/', '\\') {
        Some(k) => {
            let s = text::slice_of(&v, k + 1, n);
            assert(s@ =~= v@.skip(k + 1));
            text::string_of(&s)
        },
        None => text::string_from(path),
    }
}

/// Where the translated SRT goes: a standalone SRT is translated in place;
/// an SRT extracted from a container goes next to it, named after the target
/// language.
pub open spec fn translated_srt_spec(src: Seq<char>, target: Seq<char>, standalone: bool) -> Seq<char> {
    if standalone {
        src
    } else {
        strip_ext_spec(src) + "."@ + target + ".translated.srt"@
    }
}

/// The path of the translated SRT.
pub fn translated_srt_path(src_srt: &str, target_lang: &str, standalone: bool) -> (r: String)
    ensures
        r@ == translated_srt_spec(src_srt@, target_lang@, standalone),
{
    if standalone {
        return text::string_from(src_srt);
    }
    let mut out = text::chars_of(strip_ext(src_srt).as_str());
    text::extend(&mut out, &text::chars_of("."));
    text::extend(&mut out, &text::chars_of(target_lang));
    text::extend(&mut out, &text::chars_of(".translated.srt"));
    text::string_of(&out)
}

/// Where the remuxed MKV goes: a temporary file to be renamed over the
/// source file, or a `.translated.mkv` next to it.
pub open spec fn output_mkv_spec(mkv: Seq<char>, overwrite: bool) -> Seq<char> {
    if overwrite {
        strip_ext_spec(mkv) + ".__tmp_translated__.mkv"@
    } else {
        strip_ext_spec(mkv) + ".translated.mkv"@
    }
}

/// The path of the remuxed MKV.
pub fn output_mkv_path(mkv_path: &str, overwrite: bool) -> (r: String)
    ensures
        r@ == output_mkv_spec(mkv_path@, overwrite),
{
    let mut out = text::chars_of(strip_ext(mkv_path).as_str());
    if overwrite {
        text::extend(&mut out, &text::chars_of(".__tmp_translated__.mkv"));
    } else {
        text::extend(&mut out, &text::chars_of(".translated.mkv"));
    }
    text::string_of(&out)
}

/// The extracted source SRT of stream `idx` of a file in a batch.
pub open spec fn stream_srt_spec(file: Seq<char>, idx: i64) -> Seq<char> {
    strip_ext_spec(file) + ".stream"@ + crate::kodi::signed_text(idx as int) + ".srt"@
}

/// The path the batch extracts stream `idx` of `file` to.
pub fn stream_srt_path(file: &str, idx: i64) -> (r: String)
    ensures
        r@ == stream_srt_spec(file@, idx),
{
    let mut out = text::chars_of(strip_ext(file).as_str());
    text::extend(&mut out, &text::chars_of(".stream"));
    text::extend(&mut out, &crate::kodi::fmt_signed(idx));
    text::extend(&mut out, &text::chars_of(".srt"));
    text::string_of(&out)
}

// ---------------------------------------------------------------------------
// Track title and language tags
// ---------------------------------------------------------------------------

/// The title of the first stream with index `idx`, when it has a non-empty one.
pub open spec fn source_title_spec(streams: Seq<Stream>, idx: Option<i64>) -> Option<Seq<char>>
    decreases streams.len(),
{
    match idx {
        None => None,
        Some(i) => if streams.len() == 0 {
            None
        } else if streams[0].index == i {
            let t = streams[0].title_spec();
            if t.len() == 0 {
                None
            } else {
                Some(t)
            }
        } else {
            source_title_spec(streams.drop_first(), idx)
        },
    }
}

/// The title of the source track, if known and non-empty.
pub fn source_title(streams: &[Stream], idx: Option<i64>) -> (r: Option<String>)
    ensures
        r matches Some(t) ==> source_title_spec(streams@, idx) == Some(t@),
        r is None ==> source_title_spec(streams@, idx) is None,
{
    let i = match idx {
        Some(i) => i,
        None => return None,
    };
    let mut k: usize = 0;
    assert(streams@.skip(0) =~= streams@);
    while k < streams.len()
        invariant
            k <= streams@.len(),
            idx == Some(i),
            source_title_spec(streams@, idx) == source_title_spec(streams@.skip(k as int), idx),
        decreases streams@.len() - k,
    {
        assert(streams@.skip(k as int)[0] == streams@[k as int]);
        assert(streams@.skip(k as int).drop_first() =~= streams@.skip(k + 1));
        if streams[k].index == i {
            let t = streams[k].title();
            if t.is_empty() {
                return None;
            }
            return Some(text::string_from(t));
        }
        k = k + 1;
    }
    None
}

/// An ASCII letter or digit.
pub open spec fn ascii_alnum(c: char) -> bool {
    ('a' <= c <= 'z') || ('A' <= c <= 'Z') || ('0' <= c <= '9')
}

/// The characters of `s` kept by `keep`.
pub open spec fn tag_chars(s: Seq<char>) -> Seq<char>
    decreases s.len(),
{
    if s.len() == 0 {
        s
    } else if ascii_alnum(s.last()) || s.last() == ' ' {
        tag_chars(s.drop_last()).push(s.last())
    } else {
        tag_chars(s.drop_last())
    }
}

/// The non-empty pieces.
pub open spec fn nonempty(ps: Seq<Seq<char>>) -> Seq<Seq<char>>
    decreases ps.len(),
{
    if ps.len() == 0 {
        ps
    } else if ps.last().len() == 0 {
        nonempty(ps.drop_last())
    } else {
        nonempty(ps.drop_last()).push(ps.last())
    }
}

/// A short ASCII tag phrase: lower-case, only letters, digits and single
/// spaces, at most 30 characters.
pub open spec fn tag_phrase(s: Seq<char>) -> Seq<char> {
    let words = nonempty(text::split(tag_chars(text::trim(text::lowercase(s))), ' '));
    let out = text::join(words, seq![' ']);
    if out.len() <= 30 {
        out
    } else {
        out.take(30)
    }
}

fn tag_phrase_vec(s: &str) -> (r: Vec<char>)
    ensures
        r@ == tag_phrase(s@),
{
    let t = text::trim_vec(&text::to_lowercase_vec(&text::chars_of(s)));
    let mut kept: Vec<char> = Vec::new();
    let mut i: usize = 0;
    assert(t@.take(0) =~= seq![]);
    while i < t.len()
        invariant
            i <= t@.len(),
            kept@ == tag_chars(t@.take(i as int)),
        decreases t@.len() - i,
    {
        assert(t@.take(i + 1).drop_last() =~= t@.take(i as int));
        let c = t[i];
        if ('a' <= c && c <= 'z') || ('A' <= c && c <= 'Z') || ('0' <= c && c <= '9') || c == ' ' {
            kept.push(c);
        }
        i = i + 1;
    }
    assert(t@.take(i as int) =~= t@);
    let parts = text::split_vec(&kept, ' ');
    let mut words: Vec<Vec<char>> = Vec::new();
    let mut j: usize = 0;
    assert(text::views(parts@).take(0) =~= seq![]);
    assert(text::views(words@) =~= seq![]);
    while j < parts.len()
        invariant
            j <= parts@.len(),
            text::views(words@) == nonempty(text::views(parts@).take(j as int)),
        decreases parts@.len() - j,
    {
        let ghost q = text::views(parts@).take(j + 1);
        assert(q.drop_last() =~= text::views(parts@).take(j as int));
        assert(q.last() == parts@[j as int]@);
        if parts[j].len() > 0 {
            let ghost o = text::views(words@);
            let w = text::slice_of(&parts[j], 0, parts[j].len());
            assert(w@ =~= parts@[j as int]@);
            words.push(w);
            assert(text::views(words@) =~= o.push(w@));
        }
        j = j + 1;
    }
    assert(text::views(parts@).take(j as int) =~= text::views(parts@));
    let mut sp: Vec<char> = Vec::new();
    sp.push(' ');
    assert(sp@ =~= seq![' ']);
    let out = text::join_vec(&words, &sp);
    if out.len() <= 30 {
        out
    } else {
        let r = text::slice_of(&out, 0, 30);
        assert(r@ =~= out@.take(30));
        r
    }
}

/// The MKV language tag phrase: from the model's reply when it cleans up to
/// something, else from the raw language input, else `und`.
pub open spec fn tag_lang_spec(reply: Option<Seq<char>>, raw_lang: Seq<char>) -> Seq<char> {
    let from_reply = match reply {
        Some(r) => tag_phrase(r),
        None => Seq::<char>::empty(),
    };
    if from_reply.len() > 0 {
        from_reply
    } else if tag_phrase(raw_lang).len() > 0 {
        tag_phrase(raw_lang)
    } else {
        "und"@
    }
}

/// The language tag phrase for the MKV track, from the model's reply (if the
/// request succeeded) and the raw language input.
pub fn tag_lang_from_reply(reply: Option<&str>, raw_lang: &str) -> (r: String)
    ensures
        r@ == tag_lang_spec(
            match reply {
                Some(s) => Some(s@),
                None => None,
            },
            raw_lang@,
        ),
{
    match reply {
        Some(content) => {
            let out = tag_phrase_vec(content);
            if out.len() > 0 {
                return text::string_of(&out);
            }
        },
        None => {},
    }
    let cleaned = tag_phrase_vec(raw_lang);
    if cleaned.len() == 0 {
        text::string_from("und")
    } else {
        text::string_of(&cleaned)
    }
}

/// Three ASCII letters.
pub open spec fn three_letters(s: Seq<char>) -> bool {
    s.len() == 3 && forall|i: int| 0 <= i < 3 ==> (('a' <= #[trigger] s[i] <= 'z') || ('A' <= s[i] <= 'Z'))
}

fn three_letters_vec(v: &[char]) -> (r: bool)
    ensures
        r == three_letters(v@),
{
    if v.len() != 3 {
        return false;
    }
    let mut i: usize = 0;
    while i < 3
        invariant
            i <= 3,
            v@.len() == 3,
            forall|j: int| 0 <= j < i ==> (('a' <= #[trigger] v@[j] <= 'z') || ('A' <= v@[j] <= 'Z')),
        decreases 3 - i,
    {
        let c = v[i];
        if !(('a' <= c && c <= 'z') || ('A' <= c && c <= 'Z')) {
            return false;
        }
        i = i + 1;
    }
    true
}

/// A three-letter word in the model's ISO reply.
pub const ISO3_PATTERN: &'static str = "\\b([a-z]{3})\\b";

/// The ISO 639-2 reply after cleanup: the trimmed lower-case reply when it is
/// `und` or three ASCII letters, else the first three-letter word in it, else
/// `und`.
pub open spec fn iso3_reply_spec(content: Seq<char>) -> Seq<char> {
    let c = text::lowercase(text::trim(content));
    if c == "und"@ || three_letters(c) {
        c
    } else {
        match matching::regex_group_result(ISO3_PATTERN@, c, 1) {
            Some(Some(w)) => w,
            _ => "und"@,
        }
    }
}

/// Clean up the model's ISO 639-2 reply.
pub fn normalize_iso3_reply(content: &str) -> (r: String)
    ensures
        r@ == iso3_reply_spec(content@),
{
    let c = text::to_lowercase_vec(&text::trim_vec(&text::chars_of(content)));
    if text::eq_vec(&c, &text::chars_of("und")) || three_letters_vec(&c) {
        return text::string_of(&c);
    }
    let cs = text::string_of(&c);
    match matching::regex_group(ISO3_PATTERN, cs.as_str(), 1) {
        Some(Some(w)) => w,
        _ => text::string_from("und"),
    }
}

/// The ISO 639-2 code taken from the model's (cleaned) reply: three ASCII
/// letters in lower case, else `und`.
pub open spec fn iso3_spec(reply: Option<Seq<char>>) -> Seq<char> {
    match reply {
        Some(r) => {
            let c = text::lowercase(text::trim(r));
            if three_letters(c) {
                c
            } else {
                "und"@
            }
        },
        None => "und"@,
    }
}

/// The ISO 639-2 code from the model's reply (if the request succeeded).
pub fn iso3_from_reply(reply: Option<&str>) -> (r: String)
    ensures
        r@ == iso3_spec(
            match reply {
                Some(s) => Some(s@),
                None => None,
            },
        ),
{
    match reply {
        Some(s) => {
            let c = text::to_lowercase_vec(&text::trim_vec(&text::chars_of(s)));
            if three_letters_vec(&c) {
                text::string_of(&c)
            } else {
                text::string_from("und")
            }
        },
        None => text::string_from("und"),
    }
}

/// The code written into the track: the code if it is three ASCII letters,
/// else `und`.
pub fn track_iso3(iso3: &str) -> (r: String)
    ensures
        r@ == if three_letters(iso3@) {
            iso3@
        } else {
            "und"@
        },
{
    if three_letters_vec(&text::chars_of(iso3)) {
        text::string_from(iso3)
    } else {
        text::string_from("und")
    }
}

/// The title of the new track: `Translated [iso3] (tag)`, after the source
/// track's title when there is one.
pub open spec fn final_title_spec(src_title: Option<Seq<char>>, iso3: Seq<char>, tag: Seq<char>) -> Seq<char> {
    let t = "Translated ["@ + iso3 + "] ("@ + tag + ")"@;
    match src_title {
        None => t,
        Some(s) => s + " | "@ + t,
    }
}

/// The title of the new track.
pub fn final_title(src_title: Option<&str>, iso3: &str, tag_lang: &str) -> (r: String)
    ensures
        r@ == final_title_spec(
            match src_title {
                Some(s) => Some(s@),
                None => None,
            },
            iso3@,
            tag_lang@,
        ),
{
    let mut out: Vec<char> = Vec::new();
    match src_title {
        Some(s) => {
            text::extend(&mut out, &text::chars_of(s));
            text::extend(&mut out, &text::chars_of(" | "));
        },
        None => {},
    }
    text::extend(&mut out, &text::chars_of("Translated ["));
    text::extend(&mut out, &text::chars_of(iso3));
    text::extend(&mut out, &text::chars_of("] ("));
    text::extend(&mut out, &text::chars_of(tag_lang));
    text::extend(&mut out, &text::chars_of(")"));
    text::string_of(&out)
}

/// The cached tag and code can be reused: they were made for this language
/// input and neither is empty.
pub fn tag_cache_hit(cached_input: &str, cached_tag: &str, cached_iso3: &str, target_lang: &str) -> (r: bool)
    ensures
        r == (cached_input@ == target_lang@ && cached_tag@.len() > 0 && cached_iso3@.len() > 0),
{
    text::str_eq(cached_input, target_lang) && !cached_tag.is_empty() && !cached_iso3.is_empty()
}

// ---------------------------------------------------------------------------
// Target-language metadata
// ---------------------------------------------------------------------------

/// The metadata and cache blob after asking the model: the parsed reply and
/// its fresh blob, or (when the request failed) empty metadata and the old
/// blob.
pub fn lang_meta_after_reply(reply: Option<&str>, target_lang: &str, old_cache: &str) -> (r: (LangMeta, String))
    ensures
        reply matches Some(c) ==> (r.0.name@, r.0.ranges@) == services::lang_meta_spec(c@) && r.1@
            == services::cache_text(target_lang@, r.0.name@, r.0.ranges@),
        reply is None ==> r.0.name@.len() == 0 && r.0.ranges@.len() == 0 && r.1@ == old_cache@,
{
    match reply {
        Some(c) => {
            let m = services::parse_lang_meta(c);
            let blob = services::lang_meta_to_cache(target_lang, &m);
            (m, blob)
        },
        None => (LangMeta::default(), text::string_from(old_cache)),
    }
}

/// What a single-file run hands back to persist in the settings.
#[derive(Debug)]
pub struct FileOutcome {
    pub output_path: String,
    pub cached_source_lang_input: String,
    pub cached_tag_lang: String,
    pub cached_iso3: String,
    pub cached_lang_meta: String,
}


// ---------------------------------------------------------------------------
// The run's checks
// ---------------------------------------------------------------------------

/// Where a single-file run looks for a cancellation.
#[derive(Debug, Clone, Copy, PartialEq, Eq)]
pub enum CancelPoint {
    /// Before reading the SRT.
    Start,
    /// After translating, before writing the translated SRT.
    BeforeWrite,
    /// After writing the SRT, before remuxing.
    BeforeRemux,
}

pub open spec fn cancel_text(p: CancelPoint) -> Seq<char> {
    match p {
        CancelPoint::Start => "Cancelled."@,
        CancelPoint::BeforeWrite => "Cancelled before writing SRT."@,
        CancelPoint::BeforeRemux => "Cancelled before remux."@,
    }
}

/// The error a run ends with when cancelled at `p`.
pub fn cancel_error(p: CancelPoint) -> (r: String)
    ensures
        r@ == cancel_text(p),
{
    match p {
        CancelPoint::Start => text::string_from("Cancelled."),
        CancelPoint::BeforeWrite => text::string_from("Cancelled before writing SRT."),
        CancelPoint::BeforeRemux => text::string_from("Cancelled before remux."),
    }
}

/// A run goes on only when the source SRT held at least one cue.
pub fn check_parsed(count: usize) -> (r: Result<(), String>)
    ensures
        count > 0 <==> r is Ok,
        r matches Err(e) ==> e@ == "No subtitles parsed from SRT"@,
{
    if count == 0 {
        Err(text::string_from("No subtitles parsed from SRT"))
    } else {
        Ok(())
    }
}

pub open spec fn invalid_srt_text(expected: nat, got: nat) -> Seq<char> {
    "Generated SRT is invalid: expected "@ + text::decimal(expected) + " entries, got "@ + text::decimal(got)
}

/// The composed SRT must read back as many cues as were translated.
pub fn check_composed(expected: usize, got: usize) -> (r: Result<(), String>)
    ensures
        expected == got <==> r is Ok,
        r matches Err(e) ==> e@ == invalid_srt_text(expected as nat, got as nat),
{
    if expected == got {
        Ok(())
    } else {
        let mut out = text::chars_of("Generated SRT is invalid: expected ");
        text::extend(&mut out, &text::fmt_decimal(expected as u64));
        text::extend(&mut out, &text::chars_of(" entries, got "));
        text::extend(&mut out, &text::fmt_decimal(got as u64));
        Err(text::string_of(&out))
    }
}

/// What became of replacing the original MKV by the remuxed copy: the copy
/// was not there, it was renamed over the original, or the rename failed
/// (with the error's text).
#[derive(Debug)]
pub enum OverwriteCheck {
    TempMissing,
    Renamed,
    RenameFailed(String),
}

/// The file a run ends with and the status line it shows, after an
/// overwrite was attempted.
pub open spec fn overwrite_spec(check: OverwriteCheck, out_mkv: Seq<char>, remux_src: Seq<char>) -> (
    Seq<char>,
    Seq<char>,
) {
    match check {
        OverwriteCheck::Renamed => (remux_src, "Original MKV has been overwritten with translated version."@),
        OverwriteCheck::RenameFailed(e) => (
            out_mkv,
            "[Warning] Could not overwrite original file: "@ + e@ + ". Keeping new file as "@ + out_mkv,
        ),
        OverwriteCheck::TempMissing => (
            out_mkv,
            "[Warning] Expected temporary output file not found after remux; cannot overwrite original."@,
        ),
    }
}

/// The final output and the status line after trying to overwrite the
/// original `remux_src` with the remuxed `out_mkv`: the original's path
/// when the rename worked, else the copy's path with a warning.
pub fn overwrite_outcome(check: OverwriteCheck, out_mkv: &str, remux_src: &str) -> (r: (String, String))
    ensures
        (r.0@, r.1@) == overwrite_spec(check, out_mkv@, remux_src@),
{
    match check {
        OverwriteCheck::Renamed => (
            text::string_from(remux_src),
            text::string_from("Original MKV has been overwritten with translated version."),
        ),
        OverwriteCheck::RenameFailed(e) => {
            let mut out = text::chars_of("[Warning] Could not overwrite original file: ");
            text::extend(&mut out, &text::chars_of(e.as_str()));
            text::extend(&mut out, &text::chars_of(". Keeping new file as "));
            text::extend(&mut out, &text::chars_of(out_mkv));
            (text::string_from(out_mkv), text::string_of(&out))
        },
        OverwriteCheck::TempMissing => (
            text::string_from(out_mkv),
            text::string_from(
                "[Warning] Expected temporary output file not found after remux; cannot overwrite original.",
            ),
        ),
    }
}

} // verus!
