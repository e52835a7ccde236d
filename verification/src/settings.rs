//! Application settings and their defaults (the persisted JSON form lives in
//! the application around this library).
use vstd::prelude::*;
use crate::text;

verus! {

broadcast use vstd::string::group_string_axioms;

pub fn default_api_base() -> (r: String)
    ensures
        r@ == "https://api.openai.com/v1"@,
{
    text::string_from("https://api.openai.com/v1")
}

pub fn default_model() -> (r: String)
    ensures
        r@ == "gpt-4o-mini"@,
{
    text::string_from("gpt-4o-mini")
}

pub fn default_workers() -> (r: u32)
    ensures
        r == 5,
{
    5
}

pub fn default_window() -> (r: u32)
    ensures
        r == 25,
{
    25
}

pub fn default_overlap() -> (r: u32)
    ensures
        r == 10,
{
    10
}

pub fn default_target_language() -> (r: String)
    ensures
        r@ == "ru"@,
{
    text::string_from("ru")
}

pub fn default_overwrite_original() -> (r: bool)
    ensures
        r,
{
    true
}

pub fn default_source_lang() -> (r: String)
    ensures
        r@ == "eng"@,
{
    text::string_from("eng")
}

pub fn default_source_title() -> (r: String)
    ensures
        r@ == "Full"@,
{
    text::string_from("Full")
}

pub fn default_kodi_port() -> (r: u32)
    ensures
        r == 8080,
{
    8080
}

pub fn default_kodi_user() -> (r: String)
    ensures
        r@ == "kodi"@,
{
    text::string_from("kodi")
}

pub fn default_live_poll_interval() -> (r: u32)
    ensures
        r == 30,
{
    30
}

pub fn default_live_stable_threshold() -> (r: u32)
    ensures
        r == 30,
{
    30
}

pub fn default_kodi_follow_buffer_min() -> (r: u32)
    ensures
        r == 10,
{
    10
}

pub fn default_true() -> (r: bool)
    ensures
        r,
{
    true
}

pub fn default_theme() -> (r: String)
    ensures
        r@ == "system"@,
{
    text::string_from("system")
}

/// The IEEE-754 single-precision bit pattern of the default sampling
/// temperature, 0.2.
pub open spec fn default_temperature_bits_spec() -> u32 {
    0x3e4c_cccd
}

pub fn default_temperature_bits() -> (r: u32)
    ensures
        r == default_temperature_bits_spec(),
{
    0x3e4c_cccd
}

/// User settings. Floating-point settings are carried as their IEEE-754 bit
/// patterns: nothing here computes with them.
#[derive(Debug, Clone)]
pub struct AppSettings {
    pub api_key: String,
    pub api_base: String,
    pub model: String,
    pub workers: u32,
    pub window: u32,
    pub overlap: u32,
    /// Sampling temperature of the first translation attempt (`f32` bits).
    pub temperature_bits: u32,
    pub target_language: String,
    pub last_dir: String,
    pub fulllog: bool,
    pub extra_prompt: String,
    pub overwrite_original: bool,
    pub main_prompt_template: String,
    pub system_role: String,
    pub default_source_lang: String,
    pub default_source_title: String,
    pub cached_tag_lang: String,
    pub cached_iso3: String,
    pub cached_source_lang_input: String,
    /// JSON blob caching the resolved target-language metadata.
    pub cached_lang_meta: String,
    pub cached_models: Vec<String>,
    pub use_custom_model: bool,
    pub kodi_host: String,
    pub kodi_port: u32,
    pub kodi_user: String,
    pub kodi_password: String,
    pub kodi_source_path: String,
    pub local_parent_path: String,
    pub live_poll_interval: u32,
    pub live_stable_threshold: u32,
    pub kodi_follow_buffer_min: u32,
    pub auto_check_updates: bool,
    /// Time of the last update check (`f64` bits of seconds since the epoch).
    pub last_update_check_bits: u64,
    pub skip_version: String,
    pub show_kodi: bool,
    /// UI theme: "system", "light" or "dark".
    pub theme: String,
}

/// The settings of a fresh install.
pub open spec fn is_default_settings(s: AppSettings) -> bool {
    &&& s.api_key@ == Seq::<char>::empty()
    &&& s.api_base@ == "https://api.openai.com/v1"@
    &&& s.model@ == "gpt-4o-mini"@
    &&& s.workers == 5
    &&& s.window == 25
    &&& s.overlap == 10
    &&& s.temperature_bits == default_temperature_bits_spec()
    &&& s.target_language@ == "ru"@
    &&& s.last_dir@ == Seq::<char>::empty()
    &&& !s.fulllog
    &&& s.extra_prompt@ == Seq::<char>::empty()
    &&& s.overwrite_original
    &&& s.main_prompt_template@ == Seq::<char>::empty()
    &&& s.system_role@ == Seq::<char>::empty()
    &&& s.default_source_lang@ == "eng"@
    &&& s.default_source_title@ == "Full"@
    &&& s.cached_tag_lang@ == Seq::<char>::empty()
    &&& s.cached_iso3@ == Seq::<char>::empty()
    &&& s.cached_source_lang_input@ == Seq::<char>::empty()
    &&& s.cached_lang_meta@ == Seq::<char>::empty()
    &&& s.cached_models@.len() == 0
    &&& !s.use_custom_model
    &&& s.kodi_host@ == Seq::<char>::empty()
    &&& s.kodi_port == 8080
    &&& s.kodi_user@ == "kodi"@
    &&& s.kodi_password@ == Seq::<char>::empty()
    &&& s.kodi_source_path@ == Seq::<char>::empty()
    &&& s.local_parent_path@ == Seq::<char>::empty()
    &&& s.live_poll_interval == 30
    &&& s.live_stable_threshold == 30
    &&& s.kodi_follow_buffer_min == 10
    &&& s.auto_check_updates
    &&& s.last_update_check_bits == 0
    &&& s.skip_version@ == Seq::<char>::empty()
    &&& !s.show_kodi
    &&& s.theme@ == "system"@
}

impl Default for AppSettings {
    fn default() -> (r: AppSettings)
        ensures
            is_default_settings(r),
    {
        AppSettings {
            api_key: String::new(),
            api_base: default_api_base(),
            model: default_model(),
            workers: default_workers(),
            window: default_window(),
            overlap: default_overlap(),
            temperature_bits: default_temperature_bits(),
            target_language: default_target_language(),
            last_dir: String::new(),
            fulllog: false,
            extra_prompt: String::new(),
            overwrite_original: default_overwrite_original(),
            main_prompt_template: String::new(),
            system_role: String::new(),
            default_source_lang: default_source_lang(),
            default_source_title: default_source_title(),
            cached_tag_lang: String::new(),
            cached_iso3: String::new(),
            cached_source_lang_input: String::new(),
            cached_lang_meta: String::new(),
            cached_models: Vec::new(),
            use_custom_model: false,
            kodi_host: String::new(),
            kodi_port: default_kodi_port(),
            kodi_user: default_kodi_user(),
            kodi_password: String::new(),
            kodi_source_path: String::new(),
            local_parent_path: String::new(),
            live_poll_interval: default_live_poll_interval(),
            live_stable_threshold: default_live_stable_threshold(),
            kodi_follow_buffer_min: default_kodi_follow_buffer_min(),
            auto_check_updates: default_true(),
            last_update_check_bits: 0,
            skip_version: String::new(),
            show_kodi: false,
            theme: default_theme(),
        }
    }
}

impl AppSettings {
    /// The settings read from a file, adjusted for upgraders: a file that
    /// predates the `show_kodi` key keeps the Kodi tab visible.
    pub fn migrated(self, had_show_kodi: bool) -> (r: AppSettings)
        ensures
            r == (AppSettings { show_kodi: self.show_kodi || !had_show_kodi, ..self }),
    {
        let mut s = self;
        if !had_show_kodi {
            s.show_kodi = true;
        }
        s
    }
}

} // verus!
