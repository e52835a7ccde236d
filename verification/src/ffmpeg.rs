//! Subtitle streams as ffprobe reports them, and the ffmpeg command lines
//! that extract a stream to SRT and remux a translated track.
use vstd::prelude::*;
use crate::text;
use crate::kodi;
use crate::orchestrate;

verus! {

broadcast use vstd::string::group_string_axioms;

/// A subtitle stream as reported by ffprobe. `disposition` and `tags` hold
/// the entries of ffprobe's JSON objects (each key once, in key order).
#[derive(Debug)]
pub struct Stream {
    pub index: i64,
    pub codec_name: String,
    pub codec_type: String,
    pub disposition: Vec<(String, i64)>,
    pub tags: Vec<(String, String)>,
}

/// The value of the first entry with key `k`.
pub open spec fn lookup<V>(entries: Seq<(String, V)>, k: Seq<char>) -> Option<V>
    decreases entries.len(),
{
    if entries.len() == 0 {
        None
    } else if entries[0].0@ == k {
        Some(entries[0].1)
    } else {
        lookup(entries.drop_first(), k)
    }
}

/// Each key occurs once: the entries of ffprobe's JSON object as a map.
pub open spec fn keys_unique<V>(entries: Seq<(String, V)>) -> bool {
    forall|i: int, j: int| 0 <= i < j < entries.len() ==> #[trigger] entries[i].0@ != #[trigger] entries[j].0@
}

/// With each key once, the first entry for a key is the entry for it: reading
/// the pairs by first match reads them as a map.
pub proof fn lemma_lookup_unique<V>(entries: Seq<(String, V)>, i: int)
    requires
        keys_unique(entries),
        0 <= i < entries.len(),
    ensures
        lookup(entries, entries[i].0@) == Some(entries[i].1),
    decreases i,
{
    if i > 0 {
        let d = entries.drop_first();
        assert(entries[0].0@ != entries[i].0@);
        assert(keys_unique(d)) by {
            assert forall|a: int, b: int| 0 <= a < b < d.len() implies #[trigger] d[a].0@ != #[trigger] d[b].0@ by {
                assert(d[a] == entries[a + 1] && d[b] == entries[b + 1]);
            }
        }
        assert(d[i - 1] == entries[i]);
        lemma_lookup_unique(d, i - 1);
    }
}

/// The text of tag `k`, if present.
pub open spec fn tag_text(tags: Seq<(String, String)>, k: Seq<char>) -> Option<Seq<char>> {
    match lookup(tags, k) {
        Some(v) => Some(v@),
        None => None,
    }
}

fn find_entry<V>(entries: &Vec<(String, V)>, k: &str) -> (r: Option<usize>)
    ensures
        r matches Some(i) ==> i < entries@.len() && lookup(entries@, k@) == Some(entries@[i as int].1),
        r is None ==> lookup(entries@, k@) is None,
{
    let mut i: usize = 0;
    assert(entries@.skip(0) =~= entries@);
    while i < entries.len()
        invariant
            i <= entries@.len(),
            lookup(entries@, k@) == lookup(entries@.skip(i as int), k@),
        decreases entries@.len() - i,
    {
        assert(entries@.skip(i as int)[0] == entries@[i as int]);
        assert(entries@.skip(i as int).drop_first() =~= entries@.skip(i + 1));
        if text::str_eq(entries[i].0.as_str(), k) {
            return Some(i);
        }
        i = i + 1;
    }
    None
}

impl Stream {
    /// Tags and disposition flags hold each key once, as in ffprobe's output.
    pub open spec fn wf(&self) -> bool {
        keys_unique(self.tags@) && keys_unique(self.disposition@)
    }

    /// The `language` tag, or empty.
    pub open spec fn language_spec(&self) -> Seq<char> {
        match tag_text(self.tags@, "language"@) {
            Some(v) => v,
            None => Seq::<char>::empty(),
        }
    }

    /// The `title` tag, or empty.
    pub open spec fn title_spec(&self) -> Seq<char> {
        match tag_text(self.tags@, "title"@) {
            Some(v) => v,
            None => Seq::<char>::empty(),
        }
    }

    /// The disposition flag `k` is set (non-zero).
    pub open spec fn flag_spec(&self, k: Seq<char>) -> bool {
        match lookup(self.disposition@, k) {
            Some(v) => v != 0,
            None => false,
        }
    }

    /// The `language` tag, or `""`.
    pub fn language(&self) -> (r: &str)
        ensures
            r@ == self.language_spec(),
    {
        match find_entry(&self.tags, "language") {
            Some(i) => self.tags[i].1.as_str(),
            None => {
                proof {
                    reveal_strlit("");
                }
                ""
            },
        }
    }

    /// The `title` tag, or `""`.
    pub fn title(&self) -> (r: &str)
        ensures
            r@ == self.title_spec(),
    {
        match find_entry(&self.tags, "title") {
            Some(i) => self.tags[i].1.as_str(),
            None => {
                proof {
                    reveal_strlit("");
                }
                ""
            },
        }
    }

    /// Whether disposition flag `key` is set.
    pub fn disposition_flag(&self, key: &str) -> (r: bool)
        ensures
            r == self.flag_spec(key@),
    {
        match find_entry(&self.disposition, key) {
            Some(i) => self.disposition[i].1 != 0,
            None => false,
        }
    }
}

// ---------------------------------------------------------------------------
// Command lines
// ---------------------------------------------------------------------------

pub open spec fn strs(v: Seq<String>) -> Seq<Seq<char>> {
    v.map_values(|s: String| s@)
}

fn push_text(v: &mut Vec<String>, s: Vec<char>)
    ensures
        strs(final(v)@) == strs(old(v)@).push(s@),
{
    let ghost o = strs(v@);
    let t = text::string_of(&s);
    v.push(t);
    assert(strs(v@) =~= o.push(s@));
}

fn push_str(v: &mut Vec<String>, s: &str)
    ensures
        strs(final(v)@) == strs(old(v)@).push(s@),
{
    push_text(v, text::chars_of(s));
}

/// `prefix` followed by the decimal stream index.
pub open spec fn with_index(prefix: Seq<char>, idx: i64) -> Seq<char> {
    prefix + kodi::signed_text(idx as int)
}

fn with_index_vec(prefix: &str, idx: i64) -> (r: Vec<char>)
    ensures
        r@ == with_index(prefix@, idx),
{
    let mut r = text::chars_of(prefix);
    text::extend(&mut r, &kodi::fmt_signed(idx));
    r
}

/// The ffprobe arguments that list the subtitle streams of a complete file
/// as JSON.
pub open spec fn probe_args_spec(mkv: Seq<char>) -> Seq<Seq<char>> {
    seq![
        "-v"@, "error"@, "-select_streams"@, "s"@, "-show_entries"@,
        "stream=index,codec_name,codec_type,disposition:stream_tags=language,title"@, "-of"@, "json"@, mkv,
    ]
}

/// The arguments of the probe of a complete file.
pub fn probe_args(mkv_path: &str) -> (r: Vec<String>)
    ensures
        strs(r@) == probe_args_spec(mkv_path@),
{
    let mut v: Vec<String> = Vec::new();
    push_str(&mut v, "-v");
    push_str(&mut v, "error");
    push_str(&mut v, "-select_streams");
    push_str(&mut v, "s");
    push_str(&mut v, "-show_entries");
    push_str(&mut v, "stream=index,codec_name,codec_type,disposition:stream_tags=language,title");
    push_str(&mut v, "-of");
    push_str(&mut v, "json");
    push_str(&mut v, mkv_path);
    assert(strs(v@) =~= probe_args_spec(mkv_path@));
    v
}

/// The ffprobe arguments that list the subtitle streams visible so far in a
/// file that may still be downloading, ignoring decode errors.
pub open spec fn partial_probe_args_spec(mkv: Seq<char>) -> Seq<Seq<char>> {
    seq![
        "-v"@, "error"@, "-err_detect"@, "ignore_err"@, "-select_streams"@, "s"@, "-show_entries"@,
        "stream=index,codec_name,codec_type,disposition,bit_rate:stream_tags=language,title"@, "-of"@, "json"@, mkv,
    ]
}

/// The arguments of the probe of a partial file.
pub fn partial_probe_args(mkv_path: &str) -> (r: Vec<String>)
    ensures
        strs(r@) == partial_probe_args_spec(mkv_path@),
{
    let mut v: Vec<String> = Vec::new();
    push_str(&mut v, "-v");
    push_str(&mut v, "error");
    push_str(&mut v, "-err_detect");
    push_str(&mut v, "ignore_err");
    push_str(&mut v, "-select_streams");
    push_str(&mut v, "s");
    push_str(&mut v, "-show_entries");
    push_str(&mut v, "stream=index,codec_name,codec_type,disposition,bit_rate:stream_tags=language,title");
    push_str(&mut v, "-of");
    push_str(&mut v, "json");
    push_str(&mut v, mkv_path);
    assert(strs(v@) =~= partial_probe_args_spec(mkv_path@));
    v
}

/// The ffmpeg arguments that extract stream `idx` of `mkv` to SRT at `out`.
pub open spec fn extract_args_spec(mkv: Seq<char>, idx: i64, out: Seq<char>) -> Seq<Seq<char>> {
    seq!["-y"@, "-i"@, mkv, "-map"@, with_index("0:"@, idx), "-c:s"@, "srt"@, out]
}

/// The arguments of the strict extraction used by the batch flow.
pub fn extract_args(mkv_path: &str, stream_index: i64, out_path: &str) -> (r: Vec<String>)
    ensures
        strs(r@) == extract_args_spec(mkv_path@, stream_index, out_path@),
{
    let mut v: Vec<String> = Vec::new();
    push_str(&mut v, "-y");
    push_str(&mut v, "-i");
    push_str(&mut v, mkv_path);
    push_str(&mut v, "-map");
    push_text(&mut v, with_index_vec("0:", stream_index));
    push_str(&mut v, "-c:s");
    push_str(&mut v, "srt");
    push_str(&mut v, out_path);
    assert(strs(v@) =~= extract_args_spec(mkv_path@, stream_index, out_path@));
    v
}

/// The arguments of the lenient extraction from a partial file.
pub open spec fn lenient_args_spec(mkv: Seq<char>, idx: i64, out: Seq<char>) -> Seq<Seq<char>> {
    seq![
        "-y"@, "-err_detect"@, "ignore_err"@, "-fflags"@, "+genpts+igndts"@, "-i"@, mkv, "-map"@,
        with_index("0:"@, idx), "-c:s"@, "srt"@, out,
    ]
}

/// The arguments of the lenient extraction used while a file downloads.
pub fn lenient_extract_args(mkv_path: &str, stream_index: i64, out_path: &str) -> (r: Vec<String>)
    ensures
        strs(r@) == lenient_args_spec(mkv_path@, stream_index, out_path@),
{
    let mut v: Vec<String> = Vec::new();
    push_str(&mut v, "-y");
    push_str(&mut v, "-err_detect");
    push_str(&mut v, "ignore_err");
    push_str(&mut v, "-fflags");
    push_str(&mut v, "+genpts+igndts");
    push_str(&mut v, "-i");
    push_str(&mut v, mkv_path);
    push_str(&mut v, "-map");
    push_text(&mut v, with_index_vec("0:", stream_index));
    push_str(&mut v, "-c:s");
    push_str(&mut v, "srt");
    push_str(&mut v, out_path);
    assert(strs(v@) =~= lenient_args_spec(mkv_path@, stream_index, out_path@));
    v
}

/// Where the lenient extraction writes: the given path, or
/// `<base>.live.stream<idx>.srt` next to the MKV.
pub open spec fn lenient_out_spec(mkv: Seq<char>, idx: i64, out: Option<Seq<char>>) -> Seq<char> {
    match out {
        Some(p) => p,
        None => orchestrate::strip_ext_spec(mkv) + with_index(".live.stream"@, idx) + ".srt"@,
    }
}

/// The output path of the lenient extraction.
pub fn lenient_output_path(mkv_path: &str, stream_index: i64, out_path: Option<&str>) -> (r: String)
    ensures
        r@ == lenient_out_spec(
            mkv_path@,
            stream_index,
            match out_path {
                Some(p) => Some(p@),
                None => None,
            },
        ),
{
    match out_path {
        Some(p) => text::string_from(p),
        None => {
            let mut r = text::chars_of(orchestrate::strip_ext(mkv_path).as_str());
            text::extend(&mut r, &with_index_vec(".live.stream", stream_index));
            text::extend(&mut r, &text::chars_of(".srt"));
            text::string_of(&r)
        },
    }
}

/// The indices of the streams not marked for deletion, in order.
pub open spec fn kept_spec(streams: Seq<Stream>, delete: Seq<i64>) -> Seq<i64>
    decreases streams.len(),
{
    if streams.len() == 0 {
        seq![]
    } else if delete.contains(streams.last().index) {
        kept_spec(streams.drop_last(), delete)
    } else {
        kept_spec(streams.drop_last(), delete).push(streams.last().index)
    }
}

fn contains_i64(v: &[i64], x: i64) -> (r: bool)
    ensures
        r == v@.contains(x),
{
    let mut i: usize = 0;
    while i < v.len()
        invariant
            i <= v@.len(),
            forall|j: int| 0 <= j < i ==> v@[j] != x,
        decreases v@.len() - i,
    {
        if v[i] == x {
            assert(v@[i as int] == x);
            return true;
        }
        i = i + 1;
    }
    false
}

/// The streams kept by a remux.
pub fn kept_streams(streams: &[Stream], delete_indexes: &[i64]) -> (r: Vec<i64>)
    ensures
        r@ == kept_spec(streams@, delete_indexes@),
{
    let mut out: Vec<i64> = Vec::new();
    let mut i: usize = 0;
    assert(streams@.take(0) =~= seq![]);
    while i < streams.len()
        invariant
            i <= streams@.len(),
            out@ == kept_spec(streams@.take(i as int), delete_indexes@),
        decreases streams@.len() - i,
    {
        let ghost q = streams@.take(i + 1);
        assert(q.drop_last() =~= streams@.take(i as int));
        assert(q.last() == streams@[i as int]);
        if !contains_i64(delete_indexes, streams[i].index) {
            out.push(streams[i].index);
        }
        i = i + 1;
    }
    assert(streams@.take(i as int) =~= streams@);
    out
}

/// `-map 0:<idx>` for each kept stream.
pub open spec fn map_args(kept: Seq<i64>) -> Seq<Seq<char>>
    decreases kept.len(),
{
    if kept.len() == 0 {
        seq![]
    } else {
        map_args(kept.drop_last()) + seq!["-map"@, with_index("0:"@, kept.last())]
    }
}

fn push_maps(v: &mut Vec<String>, kept: &Vec<i64>)
    ensures
        strs(final(v)@) == strs(old(v)@) + map_args(kept@),
{
    let ghost o = strs(v@);
    let mut i: usize = 0;
    assert(kept@.take(0) =~= seq![]);
    assert(strs(v@) =~= o + map_args(kept@.take(0)));
    while i < kept.len()
        invariant
            i <= kept@.len(),
            strs(v@) == o + map_args(kept@.take(i as int)),
        decreases kept@.len() - i,
    {
        let ghost q = kept@.take(i + 1);
        assert(q.drop_last() =~= kept@.take(i as int));
        assert(q.last() == kept@[i as int]);
        push_str(v, "-map");
        push_text(v, with_index_vec("0:", kept[i]));
        assert(strs(v@) =~= o + map_args(kept@.take(i + 1)));
        i = i + 1;
    }
    assert(kept@.take(i as int) =~= kept@);
}

/// The arguments of a remux that drops the streams marked for deletion.
pub open spec fn drop_args_spec(mkv: Seq<char>, kept: Seq<i64>, out: Seq<char>) -> Seq<Seq<char>> {
    seq!["-y"@, "-i"@, mkv, "-map"@, "0:v?"@, "-map"@, "0:a?"@, "-map"@, "0:t?"@, "-map"@, "0:d?"@]
        + map_args(kept) + seq!["-c"@, "copy"@, "-max_interleave_delta"@, "0"@, out]
}

/// The arguments that copy an MKV without the streams in `delete_indexes`.
pub fn remux_drop_args(mkv_path: &str, streams: &[Stream], delete_indexes: &[i64], out_path: &str) -> (r: Vec<String>)
    ensures
        strs(r@) == drop_args_spec(mkv_path@, kept_spec(streams@, delete_indexes@), out_path@),
{
    let kept = kept_streams(streams, delete_indexes);
    let mut v: Vec<String> = Vec::new();
    push_str(&mut v, "-y");
    push_str(&mut v, "-i");
    push_str(&mut v, mkv_path);
    push_str(&mut v, "-map");
    push_str(&mut v, "0:v?");
    push_str(&mut v, "-map");
    push_str(&mut v, "0:a?");
    push_str(&mut v, "-map");
    push_str(&mut v, "0:t?");
    push_str(&mut v, "-map");
    push_str(&mut v, "0:d?");
    push_maps(&mut v, &kept);
    push_str(&mut v, "-c");
    push_str(&mut v, "copy");
    push_str(&mut v, "-max_interleave_delta");
    push_str(&mut v, "0");
    push_str(&mut v, out_path);
    assert(strs(v@) =~= drop_args_spec(mkv_path@, kept@, out_path@));
    v
}

/// The arguments of a remux that adds the translated SRT as a new subtitle
/// track (after the kept ones) with its language and title, dropping the
/// streams marked for deletion.
pub open spec fn translated_args_spec(
    mkv: Seq<char>,
    srt: Seq<char>,
    kept: Seq<i64>,
    any_deleted: bool,
    iso3: Seq<char>,
    title: Seq<char>,
    out: Seq<char>,
) -> Seq<Seq<char>> {
    let head = if any_deleted {
        seq![
            "-y"@, "-i"@, mkv, "-f"@, "srt"@, "-i"@, srt, "-map"@, "0:v?"@, "-map"@, "0:a?"@, "-map"@,
            "0:t?"@, "-map"@, "0:d?"@,
        ] + map_args(kept)
    } else {
        seq!["-y"@, "-i"@, mkv, "-f"@, "srt"@, "-i"@, srt, "-map"@, "0"@]
    };
    let n = text::decimal(kept.len());
    head + seq![
        "-map"@, "1:0"@, "-c"@, "copy"@, "-max_interleave_delta"@, "0"@, "-c:s:"@ + n, "srt"@,
        "-metadata:s:s:"@ + n, "language="@ + iso3, "-metadata:s:s:"@ + n, "title="@ + title, out,
    ]
}

/// The arguments that mux the translated SRT into a copy of the MKV.
pub fn remux_translated_args(
    mkv_path: &str,
    srt_path: &str,
    streams: &[Stream],
    delete_indexes: &[i64],
    iso3: &str,
    title: &str,
    out_path: &str,
) -> (r: Vec<String>)
    ensures
        strs(r@) == translated_args_spec(
            mkv_path@,
            srt_path@,
            kept_spec(streams@, delete_indexes@),
            delete_indexes@.len() > 0,
            iso3@,
            title@,
            out_path@,
        ),
{
    let kept = kept_streams(streams, delete_indexes);
    let mut v: Vec<String> = Vec::new();
    push_str(&mut v, "-y");
    push_str(&mut v, "-i");
    push_str(&mut v, mkv_path);
    push_str(&mut v, "-f");
    push_str(&mut v, "srt");
    push_str(&mut v, "-i");
    push_str(&mut v, srt_path);
    if delete_indexes.len() > 0 {
        push_str(&mut v, "-map");
        push_str(&mut v, "0:v?");
        push_str(&mut v, "-map");
        push_str(&mut v, "0:a?");
        push_str(&mut v, "-map");
        push_str(&mut v, "0:t?");
        push_str(&mut v, "-map");
        push_str(&mut v, "0:d?");
        push_maps(&mut v, &kept);
    } else {
        push_str(&mut v, "-map");
        push_str(&mut v, "0");
    }
    let ghost head = strs(v@);
    let n = text::fmt_decimal(kept.len() as u64);
    push_str(&mut v, "-map");
    push_str(&mut v, "1:0");
    push_str(&mut v, "-c");
    push_str(&mut v, "copy");
    push_str(&mut v, "-max_interleave_delta");
    push_str(&mut v, "0");
    let mut a = text::chars_of("-c:s:");
    text::extend(&mut a, &n);
    push_text(&mut v, a);
    push_str(&mut v, "srt");
    let mut b = text::chars_of("-metadata:s:s:");
    text::extend(&mut b, &n);
    push_text(&mut v, b);
    let mut l = text::chars_of("language=");
    text::extend(&mut l, &text::chars_of(iso3));
    push_text(&mut v, l);
    let mut c = text::chars_of("-metadata:s:s:");
    text::extend(&mut c, &n);
    push_text(&mut v, c);
    let mut t = text::chars_of("title=");
    text::extend(&mut t, &text::chars_of(title));
    push_text(&mut v, t);
    push_str(&mut v, out_path);
    assert(strs(v@) =~= translated_args_spec(
        mkv_path@,
        srt_path@,
        kept@,
        delete_indexes@.len() > 0,
        iso3@,
        title@,
        out_path@,
    ));
    v
}

/// One argument as logged: quoted when it holds a space or is empty.
pub open spec fn shown_arg(a: Seq<char>) -> Seq<char> {
    if text::contains(a, seq![' ']) || a.len() == 0 {
        seq!['\''] + a + seq!['\'']
    } else {
        a
    }
}

/// A readable, shell-like rendering of a command line.
pub open spec fn command_text(program: Seq<char>, args: Seq<Seq<char>>) -> Seq<char> {
    text::join(seq![program] + args.map_values(|a: Seq<char>| shown_arg(a)), seq![' '])
}

/// The command line that is logged before running ffmpeg.
pub fn command_line(program: &str, args: &Vec<String>) -> (r: String)
    ensures
        r@ == command_text(program@, strs(args@)),
{
    let mut parts: Vec<Vec<char>> = Vec::new();
    parts.push(text::chars_of(program));
    let ghost shown = strs(args@).map_values(|a: Seq<char>| shown_arg(a));
    let mut sp: Vec<char> = Vec::new();
    sp.push(' ');
    assert(sp@ =~= seq![' ']);
    let mut i: usize = 0;
    assert(text::views(parts@) =~= seq![program@] + shown.take(0));
    while i < args.len()
        invariant
            i <= args@.len(),
            sp@ == seq![' '],
            shown == strs(args@).map_values(|a: Seq<char>| shown_arg(a)),
            text::views(parts@) == seq![program@] + shown.take(i as int),
        decreases args@.len() - i,
    {
        let a = text::chars_of(args[i].as_str());
        let s = if text::contains_vec(&a, &sp) || a.len() == 0 {
            let mut q: Vec<char> = Vec::new();
            q.push('\'');
            text::extend(&mut q, &a);
            q.push('\'');
            assert(q@ =~= seq!['\''] + a@ + seq!['\'']);
            q
        } else {
            a
        };
        assert(s@ == shown[i as int]);
        let ghost o = text::views(parts@);
        parts.push(s);
        assert(text::views(parts@) =~= o.push(s@));
        assert(shown.take(i + 1) =~= shown.take(i as int).push(shown[i as int]));
        i = i + 1;
    }
    assert(shown.take(i as int) =~= shown);
    text::string_of(&text::join_vec(&parts, &sp))
}

/// The error of a failed ffmpeg run: its trimmed stderr, or `fallback` when
/// stderr is blank.
pub fn failure_message(stderr: &str, fallback: &str) -> (r: String)
    ensures
        r@ == if text::trim(stderr@).len() == 0 {
            fallback@
        } else {
            text::trim(stderr@)
        },
{
    let t = text::trim_vec(&text::chars_of(stderr));
    if t.len() == 0 {
        text::string_from(fallback)
    } else {
        text::string_of(&t)
    }
}

/// The file name of a tool: with `.exe` on Windows.
pub fn exe_name(name: &str, windows: bool) -> (r: String)
    ensures
        r@ == if windows {
            name@ + ".exe"@
        } else {
            name@
        },
{
    if windows {
        let mut v = text::chars_of(name);
        text::extend(&mut v, &text::chars_of(".exe"));
        text::string_of(&v)
    } else {
        text::string_from(name)
    }
}

} // verus!
