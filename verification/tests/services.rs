use subtitle_translator::json::{Json, JsonNumber};
use subtitle_translator::services::{cache_matches, lang_meta_of, reply_content};
use subtitle_translator::services::{
    chat_reply, check_api_key, cue_needs_retranslate, is_known_default_system_role, is_known_default_template,
    iso3_request, lang_meta_from_cache, lang_meta_to_cache, parse_lang_meta, score_gt, script_score_exact,
    window_script_ok, LangMeta, TranslationService, DEFAULT_SYSTEM_ROLE, DEFAULT_TEMPLATE, ISO3_SYSTEM,
};
use subtitle_translator::settings::AppSettings;
use subtitle_translator::srt::Subtitle;

const THAI: &[(u32, u32)] = &[(0x0E01, 0x0E5B)];

fn score(text: &str, ranges: &[(u32, u32)]) -> subtitle_translator::services::Score {
    let v: Vec<char> = text.chars().collect();
    script_score_exact(&v, ranges)
}

#[test]
fn build_prompt_numbers_cues() {
    let svc = TranslationService::new(AppSettings::default());
    let group = vec![
        Subtitle { index: 1, start_ms: 0, end_ms: 1000, content: "Hello!".into() },
        Subtitle { index: 42, start_ms: 2000, end_ms: 3000, content: "How are you?".into() },
    ];
    let prompt = svc.build_prompt(&group, "ru");
    assert!(prompt.contains("Translate into ru. Rules:"));
    assert!(prompt.contains("1:\nHello!"));
    assert!(prompt.contains("42:\nHow are you?"));
}

#[test]
fn build_prompt_injects_extra() {
    let mut s = AppSettings::default();
    s.extra_prompt = "keep it formal".into();
    let svc = TranslationService::new(s);
    let group = vec![Subtitle { index: 1, start_ms: 0, end_ms: 1, content: "Hi".into() }];
    let prompt = svc.build_prompt(&group, "ru");
    assert!(prompt.contains("IMPORTANT: keep it formal"));
}

#[test]
fn build_prompt_uses_custom_template() {
    let mut s = AppSettings::default();
    s.main_prompt_template = "[{header}]{extra}<{src_block}>".into();
    let svc = TranslationService::new(s);
    let group = vec![Subtitle { index: 3, start_ms: 0, end_ms: 1, content: "a\r\nb".into() }];
    assert_eq!(svc.build_prompt(&group, "de"), "[Translate into de. Rules:]<3:\na\nb>");
}

#[test]
fn script_ok_accepts_thai() {
    assert!(window_script_ok("บ้านหลังนี้มีปัญหากับกระจก", THAI));
}

#[test]
fn script_ok_rejects_whole_english_window() {
    assert!(!window_script_ok("Really? Exactly. I even dozed off for a second. For two seconds.", THAI));
}

#[test]
fn script_ok_rejects_whole_chinese_window() {
    assert!(!window_script_ok("她总是感到焦虑，总是说，想搬出这个房子", THAI));
}

#[test]
fn script_ok_rejects_single_stray_han() {
    assert!(!window_script_ok("ก่อนที่คุณจะพยายามทำให้เธอ 鼻 แตก", THAI));
}

#[test]
fn script_ok_tolerates_latin_proper_noun() {
    assert!(window_script_ok("สวัสดีครับ ผมชื่อ John และนี่คือบ้านของเรานะครับ", THAI));
}

#[test]
fn script_ok_skips_symbols_and_numbers() {
    assert!(window_script_ok("♪ ♪ 123 - 456 ♪", THAI));
}

#[test]
fn script_ok_skips_unknown_language() {
    assert!(window_script_ok("anything at all goes here", &[]));
}

#[test]
fn script_score_ranks_cleaner_output_higher() {
    let clean = score("บ้านหลังนี้มีปัญหากับกระจกบานนี้", THAI);
    let one_han = score("บ้านหลังนี้มีปัญหากับกระจก 鼻", THAI);
    let english = score("This entire window is still in English text", THAI);
    assert!(score_gt(&clean, &one_han), "clean should beat one-han");
    assert!(score_gt(&one_han, &english), "one-han should beat english");
    let unknown = score("anything", &[]);
    assert_eq!(unknown.num, unknown.den as i128);
}

#[test]
fn cue_needs_retranslate_flags_wrong_language_lines() {
    assert!(cue_needs_retranslate("还有什么?", THAI));
    assert!(cue_needs_retranslate("What else?", THAI));
    assert!(cue_needs_retranslate("I even dozed off for a second.", THAI));
    assert!(!cue_needs_retranslate("อะไรอีก?", THAI));
    assert!(!cue_needs_retranslate("ผมชื่อ John", THAI));
    assert!(!cue_needs_retranslate("123 - ♪", THAI));
    assert!(!cue_needs_retranslate("anything", &[]));
    assert!(!cue_needs_retranslate("Krieger-45.", THAI));
    assert!(!cue_needs_retranslate("John", THAI));
    assert!(!cue_needs_retranslate("- Devora - Doktor", THAI));
}

#[test]
fn parse_lang_meta_reads_json() {
    let m = parse_lang_meta(r#"{"name": "Thai", "ranges": [[3585, 3675]]}"#);
    assert_eq!(m.name, "Thai");
    assert_eq!(m.ranges, vec![(3585, 3675)]);
}

#[test]
fn parse_lang_meta_tolerates_fences_and_hex() {
    let m = parse_lang_meta("```json\n{\"name\":\"Thai\",\"ranges\":[[\"0x0E01\",\"0x0E5B\"]]}\n```");
    assert_eq!(m.name, "Thai");
    assert_eq!(m.ranges, vec![(0x0E01, 0x0E5B)]);
}

#[test]
fn parse_lang_meta_empty_on_garbage() {
    let m = parse_lang_meta("I'm not sure what language that is.");
    assert!(m.name.is_empty());
    assert!(m.ranges.is_empty());
}

#[test]
fn lang_meta_cache_roundtrip() {
    let meta = LangMeta { name: "Thai".into(), ranges: vec![(3585, 3675)] };
    let blob = lang_meta_to_cache("th", &meta);
    assert!(lang_meta_from_cache(&blob, "ru").is_none());
    let back = lang_meta_from_cache(&blob, "th").expect("cache hit");
    assert_eq!(back.name, "Thai");
    assert_eq!(back.ranges, vec![(3585, 3675)]);
}

#[test]
fn lang_meta_cache_blob_is_compact_json() {
    let meta = LangMeta { name: "Thai \"x\"".into(), ranges: vec![(1, 2), (30, 40)] };
    assert_eq!(
        lang_meta_to_cache("th", &meta),
        r#"{"input":"th","name":"Thai \"x\"","ranges":[[1,2],[30,40]]}"#
    );
}

#[test]
fn parse_lang_meta_codepoint_forms() {
    let m = parse_lang_meta(
        r#"{"name": "  X ", "ranges": [["U+0041", "u+005A"], ["65", "90"], [10, 5], [1], ["0E01", "0E5B"], [-1, 3]]}"#,
    );
    assert_eq!(m.name, "X");
    assert_eq!(m.ranges, vec![(41, 0x5A), (65, 90), (0x0E01, 0x0E5B)]);
}

#[test]
fn default_prompt_texts_are_known() {
    assert!(is_known_default_template(DEFAULT_TEMPLATE));
    assert!(!is_known_default_template("custom"));
    assert!(is_known_default_system_role(DEFAULT_SYSTEM_ROLE));
    assert!(!is_known_default_system_role(""));
}

#[test]
fn system_role_falls_back_to_default() {
    let svc = TranslationService::new(AppSettings::default());
    assert_eq!(svc.system_role(), DEFAULT_SYSTEM_ROLE);
    let mut s = AppSettings::default();
    s.system_role = "be brief".into();
    assert_eq!(TranslationService::new(s).system_role(), "be brief");
}

#[test]
fn chat_reply_reads_content_and_errors() {
    let ok = chat_reply(200, r#"{"choices":[{"message":{"content":"  Привет \n"}}]}"#);
    assert_eq!(ok, Ok("Привет".to_string()));
    assert_eq!(chat_reply(200, "not json"), Err("Unexpected API response format".to_string()));
    assert_eq!(chat_reply(200, r#"{"choices":[]}"#), Err("Unexpected API response format".to_string()));
    let long = "x".repeat(400);
    let err = chat_reply(500, &long).unwrap_err();
    assert_eq!(err, format!("API error 500: {}", "x".repeat(300)));
}

#[test]
fn api_key_is_required() {
    let s = AppSettings::default();
    assert_eq!(check_api_key(&s), Err("API key is not set in settings".to_string()));
    let mut s2 = AppSettings::default();
    s2.api_key = "k".into();
    assert!(check_api_key(&s2).is_ok());
}

#[test]
fn iso3_request_quotes_the_input() {
    let (system, user) = iso3_request("русский \"x\"");
    assert_eq!(system, ISO3_SYSTEM);
    assert!(user.starts_with("Language field: \"русский \\\"x\\\"\". Return only ISO 639-2 code. Examples:"));
}

#[test]
fn lang_meta_cache_blob_escapes_control_characters() {
    let meta = LangMeta { name: "a\\b\tc\u{1}\u{1f}é".into(), ranges: vec![] };
    assert_eq!(
        lang_meta_to_cache("x\ny", &meta),
        "{\"input\":\"x\\ny\",\"name\":\"a\\\\b\\tc\\u0001\\u001fé\",\"ranges\":[]}"
    );
}

#[test]
fn chat_reply_follows_the_json_pointer() {
    assert_eq!(chat_reply(200, r#"{"choices":{"0":{"message":{"content":" hi "}}}}"#), Ok("hi".to_string()));
    assert_eq!(
        chat_reply(200, r#"{"choices":{"1":{"message":{"content":"x"}}}}"#),
        Err("Unexpected API response format".to_string())
    );
    assert_eq!(chat_reply(200, r#"{"choices":[]}"#), Err("Unexpected API response format".to_string()));
}

#[test]
fn parsed_json_readers() {
    let n = |x: u64| Json::Number(JsonNumber::PosInt(x));
    let o = |m: Vec<(&str, Json)>| Json::Object(m.into_iter().map(|(k, v)| (k.to_string(), v)).collect());
    let meta = lang_meta_of(&o(vec![
        ("name", Json::Str("  Thai ".into())),
        (
            "ranges",
            Json::Array(vec![
                Json::Array(vec![n(3585), n(3675)]),
                Json::Array(vec![Json::Str("0x0E01".into()), Json::Str("U+0E5B".into())]),
                Json::Array(vec![n(10), n(5)]),
                Json::Str("bad".into()),
            ]),
        ),
    ]));
    assert_eq!(meta.name, "Thai");
    assert_eq!(meta.ranges, vec![(3585, 3675), (0x0E01, 0x0E5B)]);
    let empty = lang_meta_of(&Json::Null);
    assert!(empty.name.is_empty() && empty.ranges.is_empty());
    assert!(cache_matches(&o(vec![("input", Json::Str("th".into()))]), "th"));
    assert!(!cache_matches(&o(vec![("input", Json::Str("ru".into()))]), "th"));
    assert!(!cache_matches(&o(vec![("input", n(1))]), "th"));
    let reply = o(vec![(
        "choices",
        Json::Array(vec![o(vec![("message", o(vec![("content", Json::Str("  hi \n".into()))]))])]),
    )]);
    assert_eq!(reply_content(&reply), Ok("hi".to_string()));
    assert_eq!(reply_content(&o(vec![("choices", Json::Array(vec![]))])), Err("Unexpected API response format".to_string()));
}
