use subtitle_translator::pricing::{base_from_capture, replaced_or_same};
use subtitle_translator::pricing::{base_model, format_pricing, get_pricing, is_text_completion_model, models_info};

fn usd(thousandths: u64) -> f64 {
    thousandths as f64 / 1000.0
}

#[test]
fn exact_lookup() {
    let p = get_pricing("gpt-4o-mini").unwrap();
    assert_eq!(usd(p.input), 0.15);
    assert_eq!(usd(p.output), 0.60);
}

#[test]
fn dated_variant_resolves() {
    let p = get_pricing("gpt-4o-mini-2024-07-18").unwrap();
    assert_eq!(usd(p.input), 0.15);
}

#[test]
fn finetune_prefix_resolves() {
    let p = get_pricing("ft:gpt-4o-mini-2024-07-18:org::abc").unwrap();
    assert_eq!(usd(p.output), 0.60);
}

#[test]
fn unknown_is_none() {
    assert!(get_pricing("nonexistent-model").is_none());
    assert!(get_pricing("").is_none());
}

#[test]
fn chat_filter() {
    assert!(is_text_completion_model("gpt-4o-mini"));
    assert!(is_text_completion_model("ft:gpt-4o:org::x"));
    assert!(!is_text_completion_model("dall-e-3"));
    assert!(!is_text_completion_model("whisper-1"));
    assert!(!is_text_completion_model("text-embedding-3-small"));
}

#[test]
fn format_uses_3_significant_digits() {
    let tag = format_pricing("gpt-4o-mini").unwrap();
    assert_eq!(tag, "$0.15 in / $0.6 out per 1M tok");
}

#[test]
fn base_model_strips_prefix_and_date() {
    assert_eq!(base_model("ft:gpt-4o-mini-2024-07-18:org::abc"), "gpt-4o-mini");
    assert_eq!(base_model("gpt-4o-2024-08-06"), "gpt-4o");
    assert_eq!(base_model("o3-mini"), "o3-mini");
    assert_eq!(base_model("gpt-4-2024-1-01"), "gpt-4-2024-1-01");
}

#[test]
fn price_tags_trim_zeros() {
    assert_eq!(format_pricing("gpt-5.2").unwrap(), "$0.875 in / $7 out per 1M tok");
    assert_eq!(format_pricing("gpt-5.4-pro").unwrap(), "$30 in / $180 out per 1M tok");
    assert_eq!(format_pricing("gpt-5-nano").unwrap(), "$0.05 in / $0.4 out per 1M tok");
    assert!(format_pricing("unknown").is_none());
}

#[test]
fn chat_filter_ignores_case() {
    assert!(!is_text_completion_model("GPT-4o-Realtime-Preview"));
    assert!(!is_text_completion_model(""));
    assert!(is_text_completion_model("o1"));
}

#[test]
fn models_info_joins_price_and_filter() {
    let infos = models_info(vec!["gpt-4o".to_string(), "tts-1".to_string()]);
    assert_eq!(infos.len(), 2);
    assert_eq!(infos[0].id, "gpt-4o");
    assert_eq!(infos[0].price.as_deref(), Some("$2.5 in / $10 out per 1M tok"));
    assert!(infos[0].is_chat);
    assert_eq!(infos[1].price, None);
    assert!(!infos[1].is_chat);
}

#[test]
fn base_from_regex_results() {
    assert_eq!(base_from_capture(Some(Some("gpt-4o".to_string())), "ft:gpt-4o:org::x"), "gpt-4o");
    assert_eq!(base_from_capture(Some(None), "gpt-4o"), "gpt-4o");
    assert_eq!(base_from_capture(None, "gpt-4o"), "gpt-4o");
    assert_eq!(replaced_or_same(Some("gpt-4o".to_string()), "gpt-4o-2024-08-06"), "gpt-4o");
    assert_eq!(replaced_or_same(None, "gpt-4o-2024-08-06"), "gpt-4o-2024-08-06");
}
