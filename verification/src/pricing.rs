//! The local price table of the chat models (the models endpoint does not
//! report prices), model-id resolution, and the chat-model filter.
use vstd::prelude::*;
use crate::text;
use crate::matching;

verus! {

broadcast use vstd::string::group_string_axioms;

/// The day the table was taken.
pub const PRICING_DATE: &'static str = "2026-04-15";

/// Where the table was taken from.
pub const PRICING_SOURCE: &'static str = "https://openai.com/api/pricing/";

/// USD per one million tokens, in thousandths of a dollar.
#[derive(Debug, Clone, Copy, PartialEq, Eq)]
pub struct ModelPrice {
    pub input: u64,
    pub output: u64,
    /// Cached-input rate, where published.
    pub cached: Option<u64>,
}

/// Base model id and its price, in table order.
pub open spec fn price_table() -> Seq<(Seq<char>, ModelPrice)> {
    seq![
        ("gpt-5.4"@, ModelPrice { input: 2500, output: 15000, cached: Some(250) }),
        ("gpt-5.4-mini"@, ModelPrice { input: 750, output: 4500, cached: Some(75) }),
        ("gpt-5.4-nano"@, ModelPrice { input: 200, output: 1250, cached: Some(20) }),
        ("gpt-5.4-pro"@, ModelPrice { input: 30000, output: 180000, cached: None }),
        ("gpt-5.3-chat"@, ModelPrice { input: 1750, output: 14000, cached: Some(175) }),
        ("gpt-5.2"@, ModelPrice { input: 875, output: 7000, cached: Some(175) }),
        ("gpt-5.2-chat"@, ModelPrice { input: 1750, output: 14000, cached: Some(175) }),
        ("gpt-5.2-pro"@, ModelPrice { input: 10500, output: 84000, cached: None }),
        ("gpt-5.1"@, ModelPrice { input: 625, output: 5000, cached: Some(125) }),
        ("gpt-5.1-chat"@, ModelPrice { input: 625, output: 5000, cached: Some(125) }),
        ("gpt-5"@, ModelPrice { input: 625, output: 5000, cached: Some(125) }),
        ("gpt-5-chat"@, ModelPrice { input: 1250, output: 10000, cached: Some(125) }),
        ("gpt-5-mini"@, ModelPrice { input: 125, output: 1000, cached: Some(25) }),
        ("gpt-5-nano"@, ModelPrice { input: 50, output: 400, cached: Some(5) }),
        ("gpt-4.1"@, ModelPrice { input: 2000, output: 8000, cached: Some(500) }),
        ("gpt-4.1-mini"@, ModelPrice { input: 200, output: 800, cached: Some(100) }),
        ("gpt-4.1-nano"@, ModelPrice { input: 50, output: 200, cached: Some(25) }),
        ("gpt-4o"@, ModelPrice { input: 2500, output: 10000, cached: Some(1250) }),
        ("gpt-4o-mini"@, ModelPrice { input: 150, output: 600, cached: Some(75) }),
        ("o3"@, ModelPrice { input: 2000, output: 8000, cached: Some(500) }),
        ("o3-mini"@, ModelPrice { input: 1100, output: 4400, cached: Some(550) }),
        ("o4-mini"@, ModelPrice { input: 1100, output: 4400, cached: Some(275) }),
        ("o1"@, ModelPrice { input: 15000, output: 60000, cached: Some(7500) }),
        ("o1-mini"@, ModelPrice { input: 550, output: 2200, cached: Some(550) }),
        ("gpt-4-turbo"@, ModelPrice { input: 5000, output: 15000, cached: None }),
        ("gpt-4"@, ModelPrice { input: 30000, output: 60000, cached: None }),
        ("gpt-3.5-turbo"@, ModelPrice { input: 500, output: 1500, cached: None }),
        ("gpt-3.5-turbo-16k"@, ModelPrice { input: 3000, output: 4000, cached: None })
    ]
}

pub open spec fn keyed(t: Seq<(&str, ModelPrice)>) -> Seq<(Seq<char>, ModelPrice)> {
    t.map_values(|e: (&str, ModelPrice)| (e.0@, e.1))
}

fn table() -> (t: Vec<(&'static str, ModelPrice)>)
    ensures
        keyed(t@) == price_table(),
{
    let mut t: Vec<(&'static str, ModelPrice)> = Vec::new();
    t.push(("gpt-5.4", ModelPrice { input: 2500, output: 15000, cached: Some(250) }));
    t.push(("gpt-5.4-mini", ModelPrice { input: 750, output: 4500, cached: Some(75) }));
    t.push(("gpt-5.4-nano", ModelPrice { input: 200, output: 1250, cached: Some(20) }));
    t.push(("gpt-5.4-pro", ModelPrice { input: 30000, output: 180000, cached: None }));
    t.push(("gpt-5.3-chat", ModelPrice { input: 1750, output: 14000, cached: Some(175) }));
    t.push(("gpt-5.2", ModelPrice { input: 875, output: 7000, cached: Some(175) }));
    t.push(("gpt-5.2-chat", ModelPrice { input: 1750, output: 14000, cached: Some(175) }));
    t.push(("gpt-5.2-pro", ModelPrice { input: 10500, output: 84000, cached: None }));
    t.push(("gpt-5.1", ModelPrice { input: 625, output: 5000, cached: Some(125) }));
    t.push(("gpt-5.1-chat", ModelPrice { input: 625, output: 5000, cached: Some(125) }));
    t.push(("gpt-5", ModelPrice { input: 625, output: 5000, cached: Some(125) }));
    t.push(("gpt-5-chat", ModelPrice { input: 1250, output: 10000, cached: Some(125) }));
    t.push(("gpt-5-mini", ModelPrice { input: 125, output: 1000, cached: Some(25) }));
    t.push(("gpt-5-nano", ModelPrice { input: 50, output: 400, cached: Some(5) }));
    t.push(("gpt-4.1", ModelPrice { input: 2000, output: 8000, cached: Some(500) }));
    t.push(("gpt-4.1-mini", ModelPrice { input: 200, output: 800, cached: Some(100) }));
    t.push(("gpt-4.1-nano", ModelPrice { input: 50, output: 200, cached: Some(25) }));
    t.push(("gpt-4o", ModelPrice { input: 2500, output: 10000, cached: Some(1250) }));
    t.push(("gpt-4o-mini", ModelPrice { input: 150, output: 600, cached: Some(75) }));
    t.push(("o3", ModelPrice { input: 2000, output: 8000, cached: Some(500) }));
    t.push(("o3-mini", ModelPrice { input: 1100, output: 4400, cached: Some(550) }));
    t.push(("o4-mini", ModelPrice { input: 1100, output: 4400, cached: Some(275) }));
    t.push(("o1", ModelPrice { input: 15000, output: 60000, cached: Some(7500) }));
    t.push(("o1-mini", ModelPrice { input: 550, output: 2200, cached: Some(550) }));
    t.push(("gpt-4-turbo", ModelPrice { input: 5000, output: 15000, cached: None }));
    t.push(("gpt-4", ModelPrice { input: 30000, output: 60000, cached: None }));
    t.push(("gpt-3.5-turbo", ModelPrice { input: 500, output: 1500, cached: None }));
    t.push(("gpt-3.5-turbo-16k", ModelPrice { input: 3000, output: 4000, cached: None }));
    assert(keyed(t@) =~= price_table());
    t
}

/// The price of the first table row with id `key`.
pub open spec fn lookup_spec(t: Seq<(Seq<char>, ModelPrice)>, key: Seq<char>) -> Option<ModelPrice>
    decreases t.len(),
{
    if t.len() == 0 {
        None
    } else if t[0].0 == key {
        Some(t[0].1)
    } else {
        lookup_spec(t.drop_first(), key)
    }
}

fn lookup(key: &str) -> (r: Option<ModelPrice>)
    ensures
        r == lookup_spec(price_table(), key@),
{
    let t = table();
    let ghost k = keyed(t@);
    let mut i: usize = 0;
    assert(k.skip(0) =~= k);
    while i < t.len()
        invariant
            i <= t@.len(),
            k == keyed(t@),
            k == price_table(),
            lookup_spec(k, key@) == lookup_spec(k.skip(i as int), key@),
        decreases t@.len() - i,
    {
        assert(k.skip(i as int)[0] == k[i as int]);
        assert(k.skip(i as int).drop_first() =~= k.skip(i + 1));
        if text::str_eq(t[i].0, key) {
            return Some(t[i].1);
        }
        i = i + 1;
    }
    None
}

// ---------------------------------------------------------------------------
// Model ids
// ---------------------------------------------------------------------------

/// A date suffix `-YYYY-MM-DD` at the end of an id.
pub const DATE_SUFFIX_PATTERN: &'static str = "-\\d{4}-\\d{2}-\\d{2}$";

/// A fine-tuned id `ft:<base>:...`, capturing the base model.
pub const FINETUNE_PATTERN: &'static str = "^ft:([^:]+):";

/// `id` without its date suffix (unchanged if the pattern does not compile).
pub open spec fn date_stripped(id: Seq<char>) -> Seq<char> {
    match matching::regex_replace_result(DATE_SUFFIX_PATTERN@, id, ""@) {
        Some(r) => r,
        None => id,
    }
}

/// The table key for a model id: the base of a fine-tuned id, without a date
/// suffix.
pub open spec fn base_model_spec(id: Seq<char>) -> Seq<char> {
    let base = match matching::regex_group_result(FINETUNE_PATTERN@, id, 1) {
        Some(Some(g)) => g,
        _ => id,
    };
    date_stripped(base)
}

fn strip_date_suffix(model_id: &str) -> (r: String)
    ensures
        r@ == date_stripped(model_id@),
{
    let replaced = matching::regex_replace(DATE_SUFFIX_PATTERN, model_id, "");
    replaced_or_same(replaced, model_id)
}

/// The id after the date-suffix replacement: the replaced text, or the id
/// itself when the pattern did not compile.
pub fn replaced_or_same(replaced: Option<String>, model_id: &str) -> (r: String)
    ensures
        r@ == match replaced {
            Some(s) => s@,
            None => model_id@,
        },
{
    match replaced {
        Some(s) => s,
        None => text::string_from(model_id),
    }
}

/// The base model named by the fine-tune capture: the captured group, or the
/// id itself when there is none (or the pattern did not compile).
pub fn base_from_capture(capture: Option<Option<String>>, model_id: &str) -> (r: String)
    ensures
        r@ == match capture {
            Some(Some(g)) => g@,
            _ => model_id@,
        },
{
    match capture {
        Some(Some(g)) => g,
        _ => text::string_from(model_id),
    }
}

/// Resolve a model id to the key looked up in the table: fine-tuned ids
/// (`ft:gpt-4o-mini-2024-07-18:org::x` gives `gpt-4o-mini`) and dated ids.
pub fn base_model(model_id: &str) -> (r: String)
    ensures
        r@ == base_model_spec(model_id@),
{
    let capture = matching::regex_group(FINETUNE_PATTERN, model_id, 1);
    let base = base_from_capture(capture, model_id);
    strip_date_suffix(base.as_str())
}

/// The price of a model: by its own id first, then by its base id.
pub open spec fn pricing_spec(id: Seq<char>) -> Option<ModelPrice> {
    if id.len() == 0 {
        None
    } else {
        match lookup_spec(price_table(), id) {
            Some(p) => Some(p),
            None => lookup_spec(price_table(), base_model_spec(id)),
        }
    }
}

/// Pricing for a model id, resolving dated and fine-tuned variants.
pub fn get_pricing(model_id: &str) -> (r: Option<ModelPrice>)
    ensures
        r == pricing_spec(model_id@),
{
    if model_id.is_empty() {
        return None;
    }
    match lookup(model_id) {
        Some(p) => Some(p),
        None => {
            let b = base_model(model_id);
            lookup(b.as_str())
        },
    }
}

// ---------------------------------------------------------------------------
// Price tags
// ---------------------------------------------------------------------------

/// `s` without trailing `'0'`s.
pub open spec fn trim_zeros(s: Seq<char>) -> Seq<char>
    decreases s.len(),
{
    if s.len() > 0 && s.last() == '0' {
        trim_zeros(s.drop_last())
    } else {
        s
    }
}

/// A price in thousandths as a decimal number without trailing zeros
/// (`0.15`, `0.6`, `15`, `0.875`); every table price has at most three
/// significant digits, so this is also its `%.3g` text.
pub open spec fn price_text(t: nat) -> Seq<char> {
    if t % 1000 == 0 {
        text::decimal(t / 1000)
    } else {
        text::decimal(t / 1000) + seq!['.'] + trim_zeros(text::pad_zeros(text::decimal(t % 1000), 3))
    }
}

fn price_chars(t: u64) -> (r: Vec<char>)
    ensures
        r@ == price_text(t as nat),
{
    let mut r = text::fmt_decimal(t / 1000);
    if t % 1000 != 0 {
        r.push('.');
        let mut f = text::fmt_padded(t % 1000, 3);
        while f.len() > 0 && f[f.len() - 1] == '0'
            invariant
                trim_zeros(f@) == trim_zeros(text::pad_zeros(text::decimal((t % 1000) as nat), 3)),
            decreases f@.len(),
        {
            let ghost g = f@;
            f.pop();
            assert(f@ =~= g.drop_last());
        }
        text::extend(&mut r, &f);
    }
    r
}

/// The price tag of a known model.
pub open spec fn price_tag(p: ModelPrice) -> Seq<char> {
    "$"@ + price_text(p.input as nat) + " in / $"@ + price_text(p.output as nat) + " out per 1M tok"@
}

/// Short price tag (`$0.15 in / $0.6 out per 1M tok`), or `None` if the
/// model is not in the table.
pub fn format_pricing(model_id: &str) -> (r: Option<String>)
    ensures
        r matches Some(s) ==> pricing_spec(model_id@) matches Some(p) && s@ == price_tag(p),
        r is None ==> pricing_spec(model_id@) is None,
{
    let p = match get_pricing(model_id) {
        Some(p) => p,
        None => return None,
    };
    let mut out: Vec<char> = text::chars_of("$");
    text::extend(&mut out, &price_chars(p.input));
    text::extend(&mut out, &text::chars_of(" in / $"));
    text::extend(&mut out, &price_chars(p.output));
    text::extend(&mut out, &text::chars_of(" out per 1M tok"));
    Some(text::string_of(&out))
}

// ---------------------------------------------------------------------------
// Chat-model filter
// ---------------------------------------------------------------------------

/// Id fragments of models that are not chat models.
pub open spec fn non_chat_words() -> Seq<Seq<char>> {
    seq![
        "image"@, "audio"@, "realtime"@, "tts"@, "whisper"@, "transcribe"@, "embedding"@,
        "moderation"@, "search-preview"@, "dall-e"@, "babbage"@, "davinci"@, "codex"@,
    ]
}

fn non_chat_list() -> (v: Vec<&'static str>)
    ensures
        v@.map_values(|s: &str| s@) == non_chat_words(),
{
    let mut v: Vec<&'static str> = Vec::new();
    v.push("image");
    v.push("audio");
    v.push("realtime");
    v.push("tts");
    v.push("whisper");
    v.push("transcribe");
    v.push("embedding");
    v.push("moderation");
    v.push("search-preview");
    v.push("dall-e");
    v.push("babbage");
    v.push("davinci");
    v.push("codex");
    assert(v@.map_values(|s: &str| s@) =~= non_chat_words());
    v
}

/// A chat model: any fine-tuned model, or an id whose lower-case form holds
/// none of the non-chat fragments.
pub open spec fn chat_model_spec(id: Seq<char>) -> bool {
    if id.len() == 0 {
        false
    } else if id.len() >= 3 && id.take(3) == "ft:"@ {
        true
    } else {
        forall|i: int|
            0 <= i < non_chat_words().len() ==> !text::contains(text::lowercase(id), #[trigger] non_chat_words()[i])
    }
}

/// Filter helper: exclude obviously non-chat models (image, audio, ...).
pub fn is_text_completion_model(model_id: &str) -> (r: bool)
    ensures
        r == chat_model_spec(model_id@),
{
    if model_id.is_empty() {
        return false;
    }
    let v = text::chars_of(model_id);
    let ft = text::chars_of("ft:");
    proof {
        reveal_strlit("ft:");
    }
    if v.len() >= 3 && text::matches_at(&v, &ft, 0) {
        assert(v@.subrange(0, 3) =~= v@.take(3));
        return true;
    }
    proof {
        if v@.len() >= 3 && v@.take(3) == "ft:"@ {
            assert(v@.subrange(0, 3) =~= v@.take(3));
        }
    }
    let low = text::to_lowercase_vec(&v);
    let bad = non_chat_list();
    let ghost w = non_chat_words();
    let mut i: usize = 0;
    while i < bad.len()
        invariant
            i <= bad@.len(),
            bad@.map_values(|s: &str| s@) == w,
            w == non_chat_words(),
            low@ == text::lowercase(model_id@),
            model_id@.len() > 0,
            !(model_id@.len() >= 3 && model_id@.take(3) == "ft:"@),
            forall|j: int| 0 <= j < i ==> !text::contains(low@, #[trigger] w[j]),
        decreases bad@.len() - i,
    {
        assert(w[i as int] == bad@[i as int]@);
        if text::contains_vec(&low, &text::chars_of(bad[i])) {
            return false;
        }
        i = i + 1;
    }
    true
}

/// Model id with its price tag and whether it is a chat model.
#[derive(Debug)]
pub struct ModelInfo {
    pub id: String,
    pub price: Option<String>,
    pub is_chat: bool,
}

/// The price tag and chat flag of each model id, in order.
pub fn models_info(ids: Vec<String>) -> (r: Vec<ModelInfo>)
    ensures
        r@.len() == ids@.len(),
        forall|i: int|
            0 <= i < ids@.len() ==> {
                let m = #[trigger] r@[i];
                &&& m.id@ == ids@[i]@
                &&& m.is_chat == chat_model_spec(ids@[i]@)
                &&& (m.price matches Some(s) ==> pricing_spec(ids@[i]@) matches Some(p) && s@ == price_tag(p))
                &&& (m.price is None ==> pricing_spec(ids@[i]@) is None)
            },
{
    let mut out: Vec<ModelInfo> = Vec::new();
    let mut i: usize = 0;
    while i < ids.len()
        invariant
            i <= ids@.len(),
            out@.len() == i,
            forall|j: int|
                0 <= j < i ==> {
                    let m = #[trigger] out@[j];
                    &&& m.id@ == ids@[j]@
                    &&& m.is_chat == chat_model_spec(ids@[j]@)
                    &&& (m.price matches Some(s) ==> pricing_spec(ids@[j]@) matches Some(p) && s@
                        == price_tag(p))
                    &&& (m.price is None ==> pricing_spec(ids@[j]@) is None)
                },
        decreases ids@.len() - i,
    {
        let id = ids[i].clone();
        let price = format_pricing(id.as_str());
        let is_chat = is_text_completion_model(id.as_str());
        out.push(ModelInfo { id, price, is_chat });
        i = i + 1;
    }
    out
}

} // verus!
