//! Kodi: path mapping between the local disk and Kodi's sources, the
//! JSON-RPC reply handling, the subtitle choice after attaching an SRT, and
//! the pieces of LAN discovery that read replies.
use vstd::prelude::*;
use crate::text;
use crate::json::{self, Json, JsonNumber};
use crate::matching;

verus! {

broadcast use vstd::string::group_string_axioms;

// ---------------------------------------------------------------------------
// Text helpers
// ---------------------------------------------------------------------------

/// `s` without trailing `c`s (`str::trim_end_matches(c)`).
pub open spec fn trim_end_char(s: Seq<char>, c: char) -> Seq<char>
    decreases s.len(),
{
    if s.len() > 0 && s.last() == c {
        trim_end_char(s.drop_last(), c)
    } else {
        s
    }
}

/// `s` with every `\` turned into `/`.
pub open spec fn slashes(s: Seq<char>) -> Seq<char> {
    s.map_values(|c: char| if c == '\\' { '/' } else { c })
}

/// `s` ending in exactly the `/` it has, or with one added.
pub open spec fn with_slash(s: Seq<char>) -> Seq<char> {
    if s.len() > 0 && s.last() == '/' {
        s
    } else {
        s.push('/')
    }
}

fn trim_end_char_vec(v: &[char], c: char) -> (r: Vec<char>)
    ensures
        r@ == trim_end_char(v@, c),
{
    let mut n: usize = v.len();
    assert(v@.take(n as int) =~= v@);
    while n > 0 && v[n - 1] == c
        invariant
            n <= v@.len(),
            trim_end_char(v@, c) == trim_end_char(v@.take(n as int), c),
        decreases n,
    {
        assert(v@.take(n as int).drop_last() =~= v@.take(n - 1));
        n = n - 1;
    }
    text::slice_of(v, 0, n)
}

fn slashes_vec(v: &[char]) -> (r: Vec<char>)
    ensures
        r@ == slashes(v@),
{
    let mut out: Vec<char> = Vec::new();
    let mut i: usize = 0;
    while i < v.len()
        invariant
            i <= v@.len(),
            out@ == slashes(v@.take(i as int)),
        decreases v@.len() - i,
    {
        out.push(if v[i] == '\\' { '/' } else { v[i] });
        assert(slashes(v@.take(i + 1)) =~= slashes(v@.take(i as int)).push(
            if v@[i as int] == '\\' { '/' } else { v@[i as int] },
        ));
        i = i + 1;
    }
    assert(v@.take(i as int) =~= v@);
    out
}

fn with_slash_vec(v: &[char]) -> (r: Vec<char>)
    ensures
        r@ == with_slash(v@),
{
    let mut r = text::slice_of(v, 0, v.len());
    assert(r@ =~= v@);
    if !(v.len() > 0 && v[v.len() - 1] == '/') {
        r.push('/');
    }
    r
}

fn prefix_vec(s: &[char], p: &[char]) -> (r: bool)
    ensures
        r == p@.is_prefix_of(s@),
{
    crate::track_matcher::starts_with(s, p)
}

/// The Rust `Debug` text of a string: quoted, with escapes.
pub uninterp spec fn debug_text(s: Seq<char>) -> Seq<char>;

/// Formats `s` with `{:?}` (`<str as Debug>::fmt`). The contract only names
/// the result.
#[verifier::external_body]
pub(crate) fn debug_str(s: &str) -> (r: String)
    ensures
        r@ == debug_text(s@),
{
    format!("{:?}", s)
}

// ---------------------------------------------------------------------------
// Path mapping
// ---------------------------------------------------------------------------

/// The Kodi path of a local file, or why there is none.
pub open spec fn local_to_kodi_spec(f: Seq<char>, lp: Seq<char>, kp: Seq<char>) -> Result<Seq<char>, Seq<char>> {
    if lp.len() == 0 {
        Err("Local parent folder is not configured. Set it on the Kodi tab."@)
    } else if kp.len() == 0 {
        Err("Kodi source path is not configured. Set it on the Kodi tab."@)
    } else {
        let lf = slashes(f);
        let l = trim_end_char(slashes(lp), '/');
        if lf == l {
            Ok(with_slash(kp))
        } else if l.push('/').is_prefix_of(lf) {
            Ok(with_slash(kp) + lf.skip(l.len() + 1int))
        } else {
            Err("File is outside the configured local parent folder."@)
        }
    }
}

/// Translate a local filesystem path to a Kodi-visible path (`smb://...`).
pub fn map_local_to_kodi(local_file: &str, local_parent: &str, kodi_parent: &str) -> (r: Result<String, String>)
    ensures
        match local_to_kodi_spec(local_file@, local_parent@, kodi_parent@) {
            Ok(p) => r matches Ok(s) && s@ == p,
            Err(e) => r matches Err(s) && s@ == e,
        },
{
    if local_parent.is_empty() {
        return Err(text::string_from("Local parent folder is not configured. Set it on the Kodi tab."));
    }
    if kodi_parent.is_empty() {
        return Err(text::string_from("Kodi source path is not configured. Set it on the Kodi tab."));
    }
    let lf = slashes_vec(&text::chars_of(local_file));
    let l = trim_end_char_vec(&slashes_vec(&text::chars_of(local_parent)), '/');
    let parent = with_slash_vec(&text::chars_of(kodi_parent));
    if text::eq_vec(&lf, &l) {
        return Ok(text::string_of(&parent));
    }
    let mut ls = text::slice_of(&l, 0, l.len());
    ls.push('/');
    assert(ls@ =~= l@.push('/'));
    if prefix_vec(&lf, &ls) {
        let rel = text::slice_of(&lf, ls.len(), lf.len());
        assert(rel@ =~= lf@.skip(l@.len() + 1int));
        let mut out = parent;
        text::extend(&mut out, &rel);
        Ok(text::string_of(&out))
    } else {
        Err(text::string_from("File is outside the configured local parent folder."))
    }
}

/// The local path of a Kodi file, or why there is none.
pub open spec fn kodi_to_local_spec(kf: Seq<char>, kp: Seq<char>, lp: Seq<char>) -> Result<Seq<char>, Seq<char>> {
    if lp.len() == 0 {
        Err("Local parent folder is not configured."@)
    } else if kp.len() == 0 {
        Err("Kodi source path is not configured."@)
    } else {
        let parent = with_slash(kp);
        let rel = if parent.is_prefix_of(kf) {
            Some(kf.skip(parent.len() as int))
        } else if trim_end_char(kf, '/') == trim_end_char(kp, '/') {
            Some(Seq::<char>::empty())
        } else {
            None
        };
        match rel {
            Some(r) => Ok(trim_end_char(lp, '/') + seq!['/'] + r),
            None => Err("Kodi file "@ + debug_text(kf) + " is outside Kodi source "@ + debug_text(kp) + "."@),
        }
    }
}

/// Inverse of [`map_local_to_kodi`].
pub fn map_kodi_to_local(kodi_file: &str, kodi_parent: &str, local_parent: &str) -> (r: Result<String, String>)
    ensures
        match kodi_to_local_spec(kodi_file@, kodi_parent@, local_parent@) {
            Ok(p) => r matches Ok(s) && s@ == p,
            Err(e) => r matches Err(s) && s@ == e,
        },
{
    if local_parent.is_empty() {
        return Err(text::string_from("Local parent folder is not configured."));
    }
    if kodi_parent.is_empty() {
        return Err(text::string_from("Kodi source path is not configured."));
    }
    let kf = text::chars_of(kodi_file);
    let kp = text::chars_of(kodi_parent);
    let parent = with_slash_vec(&kp);
    let rel = if prefix_vec(&kf, &parent) {
        let r = text::slice_of(&kf, parent.len(), kf.len());
        assert(r@ =~= kf@.skip(parent@.len() as int));
        r
    } else if text::eq_vec(&trim_end_char_vec(&kf, '/'), &trim_end_char_vec(&kp, '/')) {
        let r: Vec<char> = Vec::new();
        assert(r@ =~= Seq::<char>::empty());
        r
    } else {
        let mut out = text::chars_of("Kodi file ");
        text::extend(&mut out, &text::chars_of(debug_str(kodi_file).as_str()));
        text::extend(&mut out, &text::chars_of(" is outside Kodi source "));
        text::extend(&mut out, &text::chars_of(debug_str(kodi_parent).as_str()));
        text::extend(&mut out, &text::chars_of("."));
        return Err(text::string_of(&out));
    };
    let mut out = trim_end_char_vec(&text::chars_of(local_parent), '/');
    out.push('/');
    text::extend(&mut out, &rel);
    Ok(text::string_of(&out))
}

proof fn lemma_slashes_id(s: Seq<char>)
    requires
        forall|i: int| 0 <= i < s.len() ==> #[trigger] s[i] != '\\',
    ensures
        slashes(s) == s,
{
    assert(slashes(s) =~= s);
}

/// Mapping a file strictly under the local parent to Kodi and back gives the
/// file back (for paths written with `/`; the parent may end in `/`).
pub proof fn lemma_map_roundtrip(f: Seq<char>, lp: Seq<char>, kp: Seq<char>)
    requires
        lp.len() > 0,
        kp.len() > 0,
        forall|i: int| 0 <= i < f.len() ==> #[trigger] f[i] != '\\',
        forall|i: int| 0 <= i < lp.len() ==> #[trigger] lp[i] != '\\',
        trim_end_char(lp, '/').push('/').is_prefix_of(f),
    ensures
        local_to_kodi_spec(f, lp, kp) matches Ok(k) && kodi_to_local_spec(k, kp, lp) == Ok::<Seq<char>, Seq<char>>(f),
{
    lemma_slashes_id(f);
    lemma_slashes_id(lp);
    let l = trim_end_char(lp, '/');
    assert(f != l) by {
        assert(f.len() > l.len());
    }
    let rel = f.skip(l.len() + 1int);
    let parent = with_slash(kp);
    let k = parent + rel;
    assert(local_to_kodi_spec(f, lp, kp) == Ok::<Seq<char>, Seq<char>>(k));
    assert(parent.is_prefix_of(k));
    assert(k.skip(parent.len() as int) =~= rel);
    assert(l + seq!['/'] + rel =~= f) by {
        assert forall|i: int| 0 <= i < f.len() implies (l + seq!['/'] + rel)[i] == f[i] by {
            if i <= l.len() {
                assert(l.push('/')[i] == f[i]);
            }
        }
    }
}

// ---------------------------------------------------------------------------
// Discovery
// ---------------------------------------------------------------------------

/// The part of `s` before the first `c`.
pub open spec fn before(s: Seq<char>, c: char) -> Seq<char> {
    match text::find_either(s, c, c) {
        Some(k) => s.take(k),
        None => s,
    }
}

/// The host of an `http://HOST:PORT/...` location.
pub open spec fn host_spec(loc: Seq<char>) -> Option<Seq<char>> {
    match text::find(loc, "://"@) {
        None => None,
        Some(i) => {
            let rest = loc.skip(i + 3);
            let after = match text::find(rest, "://"@) {
                Some(j) => rest.take(j),
                None => rest,
            };
            let host = before(before(after, '/'), ':');
            if host.len() == 0 {
                None
            } else {
                Some(host)
            }
        },
    }
}

fn before_vec(v: &[char], c: char) -> (r: Vec<char>)
    ensures
        r@ == before(v@, c),
{
    match text::find_either_vec(v, c, c) {
        Some(k) => text::slice_of(v, 0, k),
        None => text::slice_of(v, 0, v.len()),
    }
}

/// Parse `http://HOST:PORT/...` into `HOST`.
pub fn host_from_location(loc: &str) -> (r: Option<String>)
    ensures
        r matches Some(h) ==> host_spec(loc@) == Some(h@),
        r is None ==> host_spec(loc@) is None,
{
    let v = text::chars_of(loc);
    let sep = text::chars_of("://");
    proof {
        reveal_strlit("://");
    }
    proof {
        text::lemma_find_from(v@, sep@, 0);
    }
    let i = match text::find_vec(&v, &sep) {
        Some(i) => i,
        None => return None,
    };
    assert(text::occurs_at(v@, sep@, i as int));
    assert(sep@.len() == 3);
    let n = v.len();
    let rest = text::slice_of(&v, i + 3, n);
    assert(rest@ =~= v@.skip(i + 3));
    proof {
        text::lemma_find_from(rest@, sep@, 0);
    }
    let after = match text::find_vec(&rest, &sep) {
        Some(j) => {
            assert(text::occurs_at(rest@, sep@, j as int));
            let a = text::slice_of(&rest, 0, j);
            assert(a@ =~= rest@.take(j as int));
            a
        },
        None => {
            let a = text::slice_of(&rest, 0, rest.len());
            assert(a@ =~= rest@);
            a
        },
    };
    let host = before_vec(&before_vec(&after, '/'), ':');
    if host.len() == 0 {
        None
    } else {
        Some(text::string_of(&host))
    }
}

/// The `LOCATION:` header of an SSDP reply.
pub const LOCATION_PATTERN: &'static str = "(?im)^LOCATION:\\s*(.+?)\\s*$";

/// The location announced in an SSDP reply, if any.
pub fn ssdp_location(reply: &str) -> (r: Option<String>)
    ensures
        r matches Some(l) ==> matching::regex_group_result(LOCATION_PATTERN@, reply@, 1) == Some(Some(l@)),
        r is None ==> !(matching::regex_group_result(LOCATION_PATTERN@, reply@, 1) matches Some(Some(_))),
{
    match matching::regex_group(LOCATION_PATTERN, reply, 1) {
        Some(Some(l)) => Some(l),
        _ => None,
    }
}

/// The `/24` prefix `a.b.c.` of a dotted IPv4 address.
pub open spec fn subnet_spec(ip: Seq<char>) -> Option<Seq<char>> {
    let parts = text::split(ip, '.');
    if parts.len() != 4 {
        None
    } else {
        Some(parts[0] + seq!['.'] + parts[1] + seq!['.'] + parts[2] + seq!['.'])
    }
}

/// The `/24` prefix of the local address, for the subnet scan.
pub fn subnet_prefix(ip: &str) -> (r: Option<String>)
    ensures
        r matches Some(p) ==> subnet_spec(ip@) == Some(p@),
        r is None ==> subnet_spec(ip@) is None,
{
    let parts = text::split_vec(&text::chars_of(ip), '.');
    if parts.len() != 4 {
        return None;
    }
    let mut out = text::slice_of(&parts[0], 0, parts[0].len());
    out.push('.');
    text::extend(&mut out, &parts[1]);
    out.push('.');
    text::extend(&mut out, &parts[2]);
    out.push('.');
    assert(text::views(parts@)[0] == parts@[0]@);
    assert(text::views(parts@)[1] == parts@[1]@);
    assert(text::views(parts@)[2] == parts@[2]@);
    Some(text::string_of(&out))
}

/// A Kodi instance found on the network.
#[derive(Debug)]
pub struct KodiInstance {
    pub ip: String,
    pub port: u16,
    pub name: String,
    pub source: String,
}

// ---------------------------------------------------------------------------
// Numbers in replies
// ---------------------------------------------------------------------------

/// `Value::as_i64`.
pub open spec fn as_i64_spec(j: Option<Json>) -> Option<i64> {
    match j {
        Some(Json::Number(JsonNumber::PosInt(u))) => if u <= 0x7fff_ffff_ffff_ffff {
            Some(u as i64)
        } else {
            None
        },
        Some(Json::Number(JsonNumber::NegInt(i))) => Some(i),
        _ => None,
    }
}

fn as_i64(j: Option<&Json>) -> (r: Option<i64>)
    ensures
        r == as_i64_spec(match j {
            Some(x) => Some(*x),
            None => None,
        }),
{
    match j {
        Some(Json::Number(JsonNumber::PosInt(u))) => if *u <= 0x7fff_ffff_ffff_ffff {
            Some(*u as i64)
        } else {
            None
        },
        Some(Json::Number(JsonNumber::NegInt(i))) => Some(*i),
        _ => None,
    }
}

pub open spec fn opt(j: Option<&Json>) -> Option<Json> {
    match j {
        Some(x) => Some(*x),
        None => None,
    }
}

/// A whole-number member of a reply object (`Value::get` then
/// `Value::as_i64`): `None` when missing or not an `i64`.
pub fn int_member(j: &Json, k: &str) -> (r: Option<i64>)
    ensures
        r == as_i64_spec(json::member(*j, k@)),
{
    as_i64(json::get(j, k))
}

/// Decimal text of a signed number.
pub open spec fn signed_text(n: int) -> Seq<char> {
    if n < 0 {
        seq!['-'] + text::decimal((-n) as nat)
    } else {
        text::decimal(n as nat)
    }
}

pub fn fmt_signed(n: i64) -> (r: Vec<char>)
    ensures
        r@ == signed_text(n as int),
{
    if n < 0 {
        let m: u64 = (0i128 - n as i128) as u64;
        let mut r: Vec<char> = Vec::new();
        r.push('-');
        text::extend(&mut r, &text::fmt_decimal(m));
        assert(r@ =~= seq!['-'] + text::decimal((-n) as nat));
        r
    } else {
        text::fmt_decimal(n as u64)
    }
}

/// Seconds of a Kodi `{hours, minutes, seconds}` time.
pub fn kodi_time_to_sec(hours: i64, minutes: i64, seconds: i64) -> (r: i64)
    requires
        i64::MIN <= hours * 3600 + minutes * 60 + seconds <= i64::MAX,
        i64::MIN <= hours * 3600 <= i64::MAX,
        i64::MIN <= hours * 3600 + minutes * 60 <= i64::MAX,
        i64::MIN <= minutes * 60 <= i64::MAX,
    ensures
        r == hours * 3600 + minutes * 60 + seconds,
{
    hours * 3600 + minutes * 60 + seconds
}

/// The seconds of a playback `time` object (missing fields count as 0).
pub open spec fn time_field(t: Json, k: Seq<char>) -> int {
    match as_i64_spec(json::member(t, k)) {
        Some(v) => v as int,
        None => 0,
    }
}

/// A 0.5 s step back from the current position (not before 0) as
/// `(hours, minutes, seconds, milliseconds)`, used to refresh the subtitle
/// overlay; only while paused (`speed == 0`).
pub open spec fn seek_spec(speed: i64, h: int, m: int, s: int, ms: int) -> Option<(int, int, int, int)> {
    if speed != 0 {
        None
    } else {
        let cur = h * 3_600_000 + m * 60_000 + s * 1000 + ms;
        let t = if cur - 500 > 0 {
            cur - 500
        } else {
            0
        };
        Some((t / 3_600_000, (t / 60_000) % 60, (t / 1000) % 60, t % 1000))
    }
}

/// The seek that refreshes the overlay after switching subtitles.
pub fn seek_target(speed: i64, h: i64, m: i64, s: i64, ms: i64) -> (r: Option<(i64, i64, i64, i64)>)
    requires
        speed == 0 ==> i64::MIN + 500 <= h * 3_600_000 + m * 60_000 + s * 1000 + ms <= i64::MAX,
        speed == 0 ==> i64::MIN <= h * 3_600_000 <= i64::MAX,
        speed == 0 ==> i64::MIN <= m * 60_000 <= i64::MAX,
        speed == 0 ==> i64::MIN <= s * 1000 <= i64::MAX,
        speed == 0 ==> i64::MIN <= h * 3_600_000 + m * 60_000 <= i64::MAX,
        speed == 0 ==> i64::MIN <= h * 3_600_000 + m * 60_000 + s * 1000 <= i64::MAX,
    ensures
        match seek_spec(speed, h as int, m as int, s as int, ms as int) {
            Some((a, b, c, d)) => r == Some((a as i64, b as i64, c as i64, d as i64)),
            None => r is None,
        },
{
    if speed != 0 {
        return None;
    }
    let cur = h * 3_600_000 + m * 60_000 + s * 1000 + ms;
    let t = if cur - 500 > 0 {
        cur - 500
    } else {
        0
    };
    Some((t / 3_600_000, (t / 60_000) % 60, (t / 1000) % 60, t % 1000))
}

// ---------------------------------------------------------------------------
// JSON-RPC replies
// ---------------------------------------------------------------------------

/// The text of a truncated body: its first `n` characters.
pub open spec fn truncated(s: Seq<char>, n: nat) -> Seq<char> {
    if s.len() <= n {
        s
    } else {
        s.take(n as int)
    }
}

/// The outcome of a JSON-RPC call from the reply's status and body.
pub open spec fn rpc_spec(status: u16, body: Seq<char>) -> Result<Json, Seq<char>> {
    if status == 401 {
        Err("Kodi: 401 Unauthorized \u{2014} check user/password."@)
    } else if status != 200 {
        Err("Kodi HTTP "@ + text::decimal(status as nat) + ": "@ + truncated(body, 300))
    } else {
        match json::json_parse_result(body) {
            None => Err("Kodi returned non-JSON response."@),
            Some(data) => rpc_data_spec(data),
        }
    }
}

/// The outcome held by a parsed JSON-RPC reply: its `error` as a message, or
/// its `result` (null if absent).
pub open spec fn rpc_data_spec(data: Json) -> Result<Json, Seq<char>> {
    match json::member(data, "error"@) {
        Some(err) => Err(
            "Kodi RPC error "@ + signed_text(
                match as_i64_spec(json::member(err, "code"@)) {
                    Some(c) => c as int,
                    None => 0,
                },
            ) + ": "@ + match json::str_of(json::member(err, "message"@)) {
                Some(m) => m,
                None => Seq::<char>::empty(),
            },
        ),
        None => Ok(
            match json::member(data, "result"@) {
                Some(x) => x,
                None => Json::Null,
            },
        ),
    }
}

/// Read a JSON-RPC reply: 401 and other non-200 statuses, bodies that are not
/// JSON and RPC errors are errors; otherwise the `result` (null if absent).
pub fn rpc_outcome(status: u16, body: &str) -> (r: Result<Json, String>)
    ensures
        match rpc_spec(status, body@) {
            Ok(j) => r == Ok::<Json, String>(j),
            Err(e) => r matches Err(s) && s@ == e,
        },
{
    if status == 401 {
        return Err(text::string_from("Kodi: 401 Unauthorized \u{2014} check user/password."));
    }
    if status != 200 {
        let mut out = text::chars_of("Kodi HTTP ");
        text::extend(&mut out, &text::fmt_decimal(status as u64));
        text::extend(&mut out, &text::chars_of(": "));
        let b = text::chars_of(body);
        let t = if b.len() <= 300 {
            b
        } else {
            text::slice_of(&b, 0, 300)
        };
        text::extend(&mut out, &t);
        return Err(text::string_of(&out));
    }
    let data = match json::json_parse(body) {
        Some(d) => d,
        None => return Err(text::string_from("Kodi returned non-JSON response.")),
    };
    rpc_result(data)
}

/// Read a parsed JSON-RPC reply: an RPC error becomes its message, otherwise
/// the `result` (null if absent).
pub fn rpc_result(data: Json) -> (r: Result<Json, String>)
    ensures
        match rpc_data_spec(data) {
            Ok(j) => r == Ok::<Json, String>(j),
            Err(e) => r matches Err(s) && s@ == e,
        },
{
    match json::get(&data, "error") {
        Some(err) => {
            let code = match as_i64(json::get(err, "code")) {
                Some(c) => c,
                None => 0,
            };
            let mut out = text::chars_of("Kodi RPC error ");
            text::extend(&mut out, &fmt_signed(code));
            text::extend(&mut out, &text::chars_of(": "));
            match json::get_str(err, "message") {
                Some(m) => text::extend(&mut out, &text::chars_of(m)),
                None => {},
            }
            Err(text::string_of(&out))
        },
        None => match json::take_member(data, "result") {
            Some(x) => Ok(x),
            None => Ok(Json::Null),
        },
    }
}

/// A ping reply counts as a pong unless it is null.
pub fn ping_ok(reply: &Json) -> (r: bool)
    ensures
        r == !(*reply is Null),
{
    match reply {
        Json::Null => false,
        _ => true,
    }
}

/// The version text of `Application.GetProperties`: `major.minor`, `major`,
/// or the application name.
pub open spec fn version_spec(res: Json) -> Seq<char> {
    let named = match json::str_of(json::member(res, "name"@)) {
        Some(n) => n,
        None => Seq::<char>::empty(),
    };
    match json::member(res, "version"@) {
        Some(v) => match (as_i64_spec(json::member(v, "major"@)), as_i64_spec(json::member(v, "minor"@))) {
            (Some(ma), Some(mi)) => signed_text(ma as int) + seq!['.'] + signed_text(mi as int),
            (Some(ma), None) => signed_text(ma as int),
            _ => named,
        },
        None => named,
    }
}

/// The Kodi version shown to the user.
pub fn version_text(res: &Json) -> (r: String)
    ensures
        r@ == version_spec(*res),
{
    match json::get(res, "version") {
        Some(v) => {
            let major = as_i64(json::get(v, "major"));
            let minor = as_i64(json::get(v, "minor"));
            match (major, minor) {
                (Some(ma), Some(mi)) => {
                    let mut out = fmt_signed(ma);
                    out.push('.');
                    text::extend(&mut out, &fmt_signed(mi));
                    return text::string_of(&out);
                },
                (Some(ma), None) => {
                    return text::string_of(&fmt_signed(ma));
                },
                _ => {},
            }
        },
        None => {},
    }
    match json::get_str(res, "name") {
        Some(n) => text::string_from(n),
        None => String::new(),
    }
}

/// The id of the first active video player (its `playerid`, if numeric).
pub open spec fn video_player_spec(items: Seq<Json>) -> Option<i64>
    decreases items.len(),
{
    if items.len() == 0 {
        None
    } else if json::str_of(json::member(items[0], "type"@)) == Some("video"@) {
        as_i64_spec(json::member(items[0], "playerid"@))
    } else {
        video_player_spec(items.drop_first())
    }
}

/// The active video player among `Player.GetActivePlayers`' reply.
pub fn video_player_id(players: &Json) -> (r: Option<i64>)
    ensures
        r == match *players {
            Json::Array(a) => video_player_spec(a@),
            _ => None,
        },
{
    match players {
        Json::Array(a) => {
            let mut i: usize = 0;
            assert(a@.skip(0) =~= a@);
            while i < a.len()
                invariant
                    i <= a@.len(),
                    *players == Json::Array(*a),
                    video_player_spec(a@) == video_player_spec(a@.skip(i as int)),
                decreases a@.len() - i,
            {
                assert(a@.skip(i as int)[0] == a@[i as int]);
                assert(a@.skip(i as int).drop_first() =~= a@.skip(i + 1));
                let is_video = match json::get_str(&a[i], "type") {
                    Some(t) => text::str_eq(t, "video"),
                    None => false,
                };
                if is_video {
                    return as_i64(json::get(&a[i], "playerid"));
                }
                i = i + 1;
            }
            None
        },
        _ => None,
    }
}

/// A probed address answers like Kodi: a 401, or a 200 whose body is a JSON
/// object with a `jsonrpc`, `result` or `error` member and that mentions
/// `JSONRPC`, `kodi` or `xbmc`.
pub open spec fn kodi_probe_spec(code: u16, body: Seq<char>) -> bool {
    let low = text::lowercase(body);
    let looks = text::contains(body, "JSONRPC"@) || text::contains(low, "kodi"@) || text::contains(low, "xbmc"@)
        || code == 401;
    let shape = match json::json_parse_result(body) {
        Some(j) => probe_shape_spec(j),
        None => false,
    };
    if code == 200 {
        shape && looks
    } else {
        code == 401
    }
}

/// A parsed probe reply has the shape of a JSON-RPC answer: an object with a
/// `jsonrpc`, `result` or `error` member.
pub open spec fn probe_shape_spec(j: Json) -> bool {
    j is Object && (json::member(j, "jsonrpc"@) is Some || json::member(j, "result"@) is Some || json::member(
        j,
        "error"@,
    ) is Some)
}

/// Whether a parsed probe reply has the shape of a JSON-RPC answer.
pub fn probe_shape(j: &Json) -> (r: bool)
    ensures
        r == probe_shape_spec(*j),
{
    let is_obj = match j {
        Json::Object(_) => true,
        _ => false,
    };
    is_obj && (json::get(j, "jsonrpc").is_some() || json::get(j, "result").is_some() || json::get(j, "error").is_some())
}

/// Whether a probed address is a Kodi instance.
pub fn kodi_probe_ok(code: u16, body: &str) -> (r: bool)
    ensures
        r == kodi_probe_spec(code, body@),
{
    let b = text::chars_of(body);
    let low = text::to_lowercase_vec(&b);
    let looks = text::contains_vec(&b, &text::chars_of("JSONRPC")) || text::contains_vec(&low, &text::chars_of("kodi"))
        || text::contains_vec(&low, &text::chars_of("xbmc")) || code == 401;
    if code == 200 {
        let shape = match json::json_parse(body) {
            Some(j) => probe_shape(&j),
            None => false,
        };
        if !shape {
            return false;
        }
    } else if code != 401 {
        return false;
    }
    if !looks && code != 401 {
        return false;
    }
    true
}

// ---------------------------------------------------------------------------
// Authorization
// ---------------------------------------------------------------------------

/// A digit of the standard base64 alphabet (`A-Z`, `a-z`, `0-9`, `+`, `/`).
pub open spec fn b64_digit(n: int) -> char {
    if n < 26 {
        (65 + n) as char
    } else if n < 52 {
        (97 + n - 26) as char
    } else if n < 62 {
        (48 + n - 52) as char
    } else if n == 62 {
        '+'
    } else {
        '/'
    }
}

/// Standard base64 with `=` padding: each group of three bytes gives four
/// digits of six bits; a final group of one or two bytes gives two or three
/// digits and the padding.
pub open spec fn base64_std(b: Seq<u8>) -> Seq<char>
    decreases b.len(),
{
    if b.len() == 0 {
        seq![]
    } else if b.len() == 1 {
        let x = b[0] as int;
        seq![b64_digit(x / 4), b64_digit((x % 4) * 16), '=', '=']
    } else if b.len() == 2 {
        let (x, y) = (b[0] as int, b[1] as int);
        seq![b64_digit(x / 4), b64_digit((x % 4) * 16 + y / 16), b64_digit((y % 16) * 4), '=']
    } else {
        let (x, y, z) = (b[0] as int, b[1] as int, b[2] as int);
        seq![b64_digit(x / 4), b64_digit((x % 4) * 16 + y / 16), b64_digit((y % 16) * 4 + z / 64), b64_digit(z % 64)]
            + base64_std(b.skip(3))
    }
}

/// Calls `base64::engine::general_purpose::STANDARD.encode(s.as_bytes())`:
/// the standard alphabet with padding (`PAD`) over the UTF-8 bytes of `s`.
#[verifier::external_body]
fn base64_encode(s: &str) -> (r: String)
    ensures
        r@ == base64_std(vstd::utf8::encode_utf8(s@)),
{
    base64::Engine::encode(&base64::engine::general_purpose::STANDARD, s.as_bytes())
}

/// The Basic-auth header value for the credentials (UTF-8), `None` when both
/// are empty.
pub fn auth_header(user: &str, password: &str) -> (r: Option<String>)
    ensures
        user@.len() == 0 && password@.len() == 0 ==> r is None,
        !(user@.len() == 0 && password@.len() == 0) ==> (r matches Some(h) && h@ == "Basic "@ + base64_std(
            vstd::utf8::encode_utf8(user@ + seq![':'] + password@),
        )),
{
    if user.is_empty() && password.is_empty() {
        return None;
    }
    let mut raw = text::chars_of(user);
    raw.push(':');
    text::extend(&mut raw, &text::chars_of(password));
    assert(raw@ =~= user@ + seq![':'] + password@);
    let raw_s = text::string_of(&raw);
    let mut out = text::chars_of("Basic ");
    text::extend(&mut out, &text::chars_of(base64_encode(raw_s.as_str()).as_str()));
    Some(text::string_of(&out))
}

// ---------------------------------------------------------------------------
// Subtitle choice
// ---------------------------------------------------------------------------

/// The lower-case file name of a path.
pub open spec fn base_name(p: Seq<char>) -> Seq<char> {
    let t = trim_end_char(p, '/');
    text::lowercase(
        match text::rfind_either(t, '/', '\\') {
            Some(k) => t.skip(k + 1),
            None => t,
        },
    )
}

/// A file name without its last extension.
pub open spec fn stem(b: Seq<char>) -> Seq<char> {
    match text::rfind_either(b, '.', '.') {
        Some(k) => b.take(k),
        None => b,
    }
}

/// A subtitle name that matches the attached file's name or stem.
pub open spec fn name_hit(name: Seq<char>, b: Seq<char>, st: Seq<char>) -> bool {
    name.len() > 0 && (text::contains(name, b) || text::contains(b, name) || (st.len() > 0 && (text::contains(name, st)
        || text::contains(st, name))))
}

/// A subtitle language that matches the target language.
pub open spec fn lang_hit(lang: Seq<char>, tl: Seq<char>) -> bool {
    lang.len() > 0 && (tl.is_prefix_of(lang) || lang.is_prefix_of(tl))
}

/// The first subtitle (from position `i`) whose lower-case name matches.
pub open spec fn first_name_hit(subs: Seq<(String, String)>, b: Seq<char>, st: Seq<char>, i: int) -> Option<int>
    decreases subs.len() - i,
{
    if i < 0 || i >= subs.len() {
        None
    } else if name_hit(text::lowercase(subs[i].0@), b, st) {
        Some(i)
    } else {
        first_name_hit(subs, b, st, i + 1)
    }
}

/// The first subtitle (from position `i`) whose language matches.
pub open spec fn first_lang_hit(subs: Seq<(String, String)>, tl: Seq<char>, i: int) -> Option<int>
    decreases subs.len() - i,
{
    if i < 0 || i >= subs.len() {
        None
    } else if lang_hit(text::trim(text::lowercase(subs[i].1@)), tl) {
        Some(i)
    } else {
        first_lang_hit(subs, tl, i + 1)
    }
}

/// The subtitle to switch to after attaching `srt_path`, among Kodi's list
/// of `(name, language)`: by file name, else by language, else the last one.
pub open spec fn choose_spec(srt_path: Seq<char>, subs: Seq<(String, String)>, target: Option<Seq<char>>) -> Option<int> {
    if subs.len() == 0 {
        None
    } else {
        let b = base_name(srt_path);
        let by_name = if b.len() > 0 {
            first_name_hit(subs, b, stem(b), 0)
        } else {
            None
        };
        match by_name {
            Some(i) => Some(i),
            None => {
                let by_lang = match target {
                    Some(t) => {
                        let tl = text::trim(text::lowercase(t));
                        if tl.len() > 0 {
                            first_lang_hit(subs, tl, 0)
                        } else {
                            None
                        }
                    },
                    None => None,
                };
                match by_lang {
                    Some(i) => Some(i),
                    None => Some(subs.len() - 1),
                }
            },
        }
    }
}

fn find_name_hit(subs: &Vec<(String, String)>, b: &Vec<char>, st: &Vec<char>) -> (r: Option<usize>)
    ensures
        r matches Some(i) ==> first_name_hit(subs@, b@, st@, 0) == Some(i as int),
        r is None ==> first_name_hit(subs@, b@, st@, 0) is None,
{
    let mut i: usize = 0;
    while i < subs.len()
        invariant
            i <= subs@.len(),
            first_name_hit(subs@, b@, st@, 0) == first_name_hit(subs@, b@, st@, i as int),
        decreases subs@.len() - i,
    {
        let name = text::to_lowercase_vec(&text::chars_of(subs[i].0.as_str()));
        let hit = name.len() > 0 && (text::contains_vec(&name, b) || text::contains_vec(b, &name) || (st.len() > 0
            && (text::contains_vec(&name, st) || text::contains_vec(st, &name))));
        if hit {
            return Some(i);
        }
        i = i + 1;
    }
    None
}

fn find_lang_hit(subs: &Vec<(String, String)>, tl: &Vec<char>) -> (r: Option<usize>)
    ensures
        r matches Some(i) ==> first_lang_hit(subs@, tl@, 0) == Some(i as int),
        r is None ==> first_lang_hit(subs@, tl@, 0) is None,
{
    let mut i: usize = 0;
    while i < subs.len()
        invariant
            i <= subs@.len(),
            first_lang_hit(subs@, tl@, 0) == first_lang_hit(subs@, tl@, i as int),
        decreases subs@.len() - i,
    {
        let lang = text::trim_vec(&text::to_lowercase_vec(&text::chars_of(subs[i].1.as_str())));
        if lang.len() > 0 && (prefix_vec(&lang, tl) || prefix_vec(tl, &lang)) {
            return Some(i);
        }
        i = i + 1;
    }
    None
}

/// Choose the subtitle to enable: filename match, then language, then the
/// last added.
pub fn choose_subtitle(srt_path: &str, subs: &Vec<(String, String)>, target_lang: Option<&str>) -> (r: Option<usize>)
    ensures
        r matches Some(i) ==> choose_spec(srt_path@, subs@, match target_lang {
            Some(t) => Some(t@),
            None => None,
        }) == Some(i as int),
        r is None ==> choose_spec(srt_path@, subs@, match target_lang {
            Some(t) => Some(t@),
            None => None,
        }) is None,
{
    if subs.len() == 0 {
        return None;
    }
    let t = trim_end_char_vec(&text::chars_of(srt_path), '/');
    let tn = t.len();
    let seg = match text::rfind_either_vec(&t, '/', '\\') {
        Some(k) => text::slice_of(&t, k + 1, tn),
        None => text::slice_of(&t, 0, tn),
    };
    assert(seg@ =~= match text::rfind_either(t@, '/', '\\') {
        Some(k) => t@.skip(k + 1),
        None => t@,
    });
    let b = text::to_lowercase_vec(&seg);
    let bn = b.len();
    let st = match text::rfind_either_vec(&b, '.', '.') {
        Some(k) => text::slice_of(&b, 0, k),
        None => text::slice_of(&b, 0, bn),
    };
    assert(st@ =~= stem(b@));
    assert(b@ == base_name(srt_path@));
    if b.len() > 0 {
        match find_name_hit(subs, &b, &st) {
            Some(i) => return Some(i),
            None => {},
        }
    }
    match target_lang {
        Some(tg) => {
            let tl = text::trim_vec(&text::to_lowercase_vec(&text::chars_of(tg)));
            if tl.len() > 0 {
                match find_lang_hit(subs, &tl) {
                    Some(i) => return Some(i),
                    None => {},
                }
            }
        },
        None => {},
    }
    Some(subs.len() - 1)
}


/// The first of Kodi's subtitles `(name, language)` in the target language
/// (either language a prefix of the other, compared trimmed and in lower
/// case), used to switch to an embedded track.
pub fn subtitle_for_lang(subs: &Vec<(String, String)>, target_lang: &str) -> (r: Option<usize>)
    ensures
        ({
            let tl = text::trim(text::lowercase(target_lang@));
            &&& r matches Some(i) ==> tl.len() > 0 && first_lang_hit(subs@, tl, 0) == Some(i as int)
            &&& r is None ==> tl.len() == 0 || first_lang_hit(subs@, tl, 0) is None
        }),
{
    let tl = text::trim_vec(&text::to_lowercase_vec(&text::chars_of(target_lang)));
    if tl.len() == 0 {
        return None;
    }
    find_lang_hit(subs, &tl)
}

} // verus!
