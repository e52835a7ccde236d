use subtitle_translator::json::{Json, JsonNumber};
use subtitle_translator::kodi::{int_member, subtitle_for_lang};
use subtitle_translator::services::{api_error, model_ids};

fn model(id: &str) -> Json {
    Json::Object(vec![("id".to_string(), Json::Str(id.to_string())), ("object".to_string(), Json::Str("model".to_string()))])
}

#[test]
fn model_ids_are_sorted() {
    let data = Json::Object(vec![(
        "data".to_string(),
        Json::Array(vec![model("gpt-4o"), model("dall-e-3"), model("gpt-4o-mini"), model("Babbage")]),
    )]);
    assert_eq!(model_ids(&data), vec!["Babbage", "dall-e-3", "gpt-4o", "gpt-4o-mini"]);
}

#[test]
fn model_ids_skip_entries_without_string_id() {
    let data = Json::Object(vec![(
        "data".to_string(),
        Json::Array(vec![
            model("b"),
            Json::Object(vec![("id".to_string(), Json::Number(JsonNumber::PosInt(7)))]),
            Json::Null,
            model("a"),
            model("b"),
        ]),
    )]);
    assert_eq!(model_ids(&data), vec!["a", "b", "b"]);
}

#[test]
fn model_ids_empty_without_data_array() {
    assert!(model_ids(&Json::Object(vec![])).is_empty());
    assert!(model_ids(&Json::Object(vec![("data".to_string(), Json::Str("x".to_string()))])).is_empty());
    assert!(model_ids(&Json::Null).is_empty());
}

#[test]
fn model_ids_order_by_code_point() {
    let data = Json::Object(vec![(
        "data".to_string(),
        Json::Array(vec![model("é"), model("z"), model("Z"), model("")]),
    )]);
    assert_eq!(model_ids(&data), vec!["", "Z", "z", "é"]);
}

#[test]
fn api_error_only_for_non_200() {
    assert_eq!(api_error(200, "whatever"), None);
    assert_eq!(api_error(401, "bad key").as_deref(), Some("API error 401: bad key"));
    let long = "x".repeat(400);
    assert_eq!(api_error(500, &long), Some(format!("API error 500: {}", "x".repeat(300))));
}

#[test]
fn subtitle_for_lang_matches_prefixes() {
    let subs = vec![
        ("English".to_string(), "eng".to_string()),
        ("Russian".to_string(), " RUS ".to_string()),
        ("Other".to_string(), "ru".to_string()),
    ];
    assert_eq!(subtitle_for_lang(&subs, "ru"), Some(1));
    assert_eq!(subtitle_for_lang(&subs, "English"), Some(0));
    assert_eq!(subtitle_for_lang(&subs, "fr"), None);
    assert_eq!(subtitle_for_lang(&subs, "  "), None);
    assert_eq!(subtitle_for_lang(&vec![], "ru"), None);
}

#[test]
fn int_member_reads_whole_numbers() {
    let t = Json::Object(vec![
        ("hours".to_string(), Json::Number(JsonNumber::PosInt(2))),
        ("minutes".to_string(), Json::Number(JsonNumber::NegInt(-3))),
        ("seconds".to_string(), Json::Number(JsonNumber::Other)),
        ("big".to_string(), Json::Number(JsonNumber::PosInt(u64::MAX))),
        ("name".to_string(), Json::Str("x".to_string())),
    ]);
    assert_eq!(int_member(&t, "hours"), Some(2));
    assert_eq!(int_member(&t, "minutes"), Some(-3));
    assert_eq!(int_member(&t, "seconds"), None);
    assert_eq!(int_member(&t, "big"), None);
    assert_eq!(int_member(&t, "name"), None);
    assert_eq!(int_member(&t, "missing"), None);
}
