use subtitle_translator::kodi::{probe_shape, rpc_result};
use subtitle_translator::json::{Json, JsonNumber};
use subtitle_translator::kodi::{
    auth_header, choose_subtitle, host_from_location, kodi_probe_ok, kodi_time_to_sec, map_kodi_to_local,
    map_local_to_kodi, ping_ok, rpc_outcome, seek_target, ssdp_location, subnet_prefix, version_text,
    video_player_id,
};

#[test]
fn map_local_to_kodi_happy_path() {
    let out = map_local_to_kodi("/Volumes/m/dir/x.mkv", "/Volumes/m", "smb://nas/movies").unwrap();
    assert_eq!(out, "smb://nas/movies/dir/x.mkv");
}

#[test]
fn map_local_to_kodi_trailing_slash_parent() {
    let out = map_local_to_kodi("/Volumes/m/dir/x.mkv", "/Volumes/m", "smb://nas/movies/").unwrap();
    assert_eq!(out, "smb://nas/movies/dir/x.mkv");
}

#[test]
fn map_local_to_kodi_nested() {
    let out = map_local_to_kodi("/Volumes/m/a/b/c/x.mkv", "/Volumes/m", "smb://nas/movies").unwrap();
    assert_eq!(out, "smb://nas/movies/a/b/c/x.mkv");
}

#[test]
fn map_local_to_kodi_outside_parent_errors() {
    assert!(map_local_to_kodi("/other/x.mkv", "/Volumes/m", "smb://nas/movies").is_err());
}

#[test]
fn map_local_to_kodi_empty_parent_errors() {
    assert!(map_local_to_kodi("/Volumes/m/x.mkv", "", "smb://nas/movies").is_err());
    assert!(map_local_to_kodi("/Volumes/m/x.mkv", "/Volumes/m", "").is_err());
}

#[test]
fn map_local_to_kodi_windows_separator() {
    let out = map_local_to_kodi("C:\\media\\dir\\x.mkv", "C:\\media", "smb://nas/movies").unwrap();
    assert_eq!(out, "smb://nas/movies/dir/x.mkv");
}

#[test]
fn map_kodi_to_local_roundtrip() {
    let out = map_kodi_to_local("smb://nas/movies/dir/x.mkv", "smb://nas/movies", "/Volumes/m").unwrap();
    assert_eq!(out, "/Volumes/m/dir/x.mkv");
}

#[test]
fn host_from_location_parses() {
    assert_eq!(host_from_location("http://192.168.1.5:8080/desc.xml").as_deref(), Some("192.168.1.5"));
}

#[test]
fn map_errors_say_why() {
    assert_eq!(
        map_local_to_kodi("/x", "", "smb://a").unwrap_err(),
        "Local parent folder is not configured. Set it on the Kodi tab."
    );
    assert_eq!(
        map_local_to_kodi("/other/x.mkv", "/Volumes/m/", "smb://a").unwrap_err(),
        "File is outside the configured local parent folder."
    );
    assert_eq!(
        map_kodi_to_local("smb://b/x.mkv", "smb://a", "/m").unwrap_err(),
        "Kodi file \"smb://b/x.mkv\" is outside Kodi source \"smb://a\"."
    );
    assert_eq!(map_kodi_to_local("smb://a/", "smb://a", "/m/").unwrap(), "/m/");
    assert_eq!(map_local_to_kodi("/m", "/m//", "smb://a").unwrap(), "smb://a/");
}

#[test]
fn mapping_there_and_back() {
    let k = map_local_to_kodi("/data/films/a b/x.mkv", "/data/films", "nfs://srv/f").unwrap();
    assert_eq!(k, "nfs://srv/f/a b/x.mkv");
    assert_eq!(map_kodi_to_local(&k, "nfs://srv/f", "/data/films").unwrap(), "/data/films/a b/x.mkv");
    let k = map_local_to_kodi("/data/films/x.mkv", "/data/films//", "nfs://srv/f/").unwrap();
    assert_eq!(map_kodi_to_local(&k, "nfs://srv/f/", "/data/films//").unwrap(), "/data/films/x.mkv");
}

#[test]
fn host_from_location_edge_cases() {
    assert_eq!(host_from_location("no scheme here"), None);
    assert_eq!(host_from_location("http://:80/x"), None);
    assert_eq!(host_from_location("http://kodi.local/x").as_deref(), Some("kodi.local"));
}

#[test]
fn ssdp_location_header() {
    let reply = "HTTP/1.1 200 OK\r\nCACHE-CONTROL: max-age=1800\r\nLocation:  http://10.0.0.7:1234/dd.xml  \r\nST: upnp:rootdevice\r\n\r\n";
    assert_eq!(ssdp_location(reply).as_deref(), Some("http://10.0.0.7:1234/dd.xml"));
    assert_eq!(ssdp_location("HTTP/1.1 200 OK\r\n\r\n"), None);
}

#[test]
fn subnet_prefix_of_ipv4() {
    assert_eq!(subnet_prefix("192.168.1.23").as_deref(), Some("192.168.1."));
    assert_eq!(subnet_prefix("::1"), None);
}

#[test]
fn auth_header_encodes_utf8() {
    assert_eq!(auth_header("", ""), None);
    assert_eq!(auth_header("kodi", "").as_deref(), Some("Basic a29kaTo="));
    assert_eq!(auth_header("ü", "p").as_deref(), Some("Basic w7w6cA=="));
}

#[test]
fn choose_subtitle_by_name_language_or_last() {
    let subs = vec![
        ("English".to_string(), "eng".to_string()),
        ("movie.ru.translated".to_string(), "".to_string()),
        ("Русский".to_string(), "rus".to_string()),
    ];
    assert_eq!(choose_subtitle("/m/Movie.ru.translated.srt", &subs, Some("ru")), Some(1));
    assert_eq!(choose_subtitle("/m/other.srt", &subs, Some("  RU ")), Some(2));
    assert_eq!(choose_subtitle("/m/other.srt", &subs, None), Some(2));
    assert_eq!(choose_subtitle("/m/other.srt", &subs, Some("de")), Some(2));
    assert_eq!(choose_subtitle("/m/other.srt", &subs, Some("en")), Some(0));
    assert_eq!(choose_subtitle("/m/x.srt", &Vec::new(), Some("ru")), None);
}

#[test]
fn seek_steps_back_half_a_second_when_paused() {
    assert_eq!(seek_target(1, 0, 1, 0, 0), None);
    assert_eq!(seek_target(0, 1, 0, 0, 200), Some((0, 59, 59, 700)));
    assert_eq!(seek_target(0, 0, 0, 0, 300), Some((0, 0, 0, 0)));
    assert_eq!(kodi_time_to_sec(1, 2, 3), 3723);
}

fn obj(members: Vec<(&str, Json)>) -> Json {
    Json::Object(members.into_iter().map(|(k, v)| (k.to_string(), v)).collect())
}

fn num(n: u64) -> Json {
    Json::Number(JsonNumber::PosInt(n))
}

#[test]
fn rpc_outcome_reads_replies() {
    assert_eq!(
        rpc_outcome(401, "").unwrap_err(),
        "Kodi: 401 Unauthorized \u{2014} check user/password."
    );
    assert_eq!(rpc_outcome(500, "boom").unwrap_err(), "Kodi HTTP 500: boom");
    assert_eq!(rpc_outcome(200, "<html>").unwrap_err(), "Kodi returned non-JSON response.");
    assert_eq!(
        rpc_outcome(200, r#"{"error":{"code":-32601,"message":"Method not found."}}"#).unwrap_err(),
        "Kodi RPC error -32601: Method not found."
    );
    match rpc_outcome(200, r#"{"id":1,"jsonrpc":"2.0","result":"pong"}"#) {
        Ok(Json::Str(s)) => assert_eq!(s, "pong"),
        _ => panic!("expected pong"),
    }
    match rpc_outcome(200, r#"{"id":1}"#) {
        Ok(Json::Null) => {},
        _ => panic!("expected null"),
    }
}

#[test]
fn ping_and_version_and_player() {
    assert!(ping_ok(&Json::Str("pong".into())));
    assert!(!ping_ok(&Json::Null));
    let v = obj(vec![("version", obj(vec![("major", num(21)), ("minor", num(1))])), ("name", Json::Str("Kodi".into()))]);
    assert_eq!(version_text(&v), "21.1");
    let only_major = obj(vec![("version", obj(vec![("major", num(20))]))]);
    assert_eq!(version_text(&only_major), "20");
    let named = obj(vec![("name", Json::Str("Kodi".into()))]);
    assert_eq!(version_text(&named), "Kodi");
    let players = Json::Array(vec![
        obj(vec![("type", Json::Str("audio".into())), ("playerid", num(0))]),
        obj(vec![("type", Json::Str("video".into())), ("playerid", num(1))]),
    ]);
    assert_eq!(video_player_id(&players), Some(1));
    assert_eq!(video_player_id(&Json::Array(vec![])), None);
}

#[test]
fn probe_recognises_kodi() {
    assert!(kodi_probe_ok(401, ""));
    assert!(kodi_probe_ok(200, r#"{"jsonrpc":"2.0","result":"pong","id":1}"#) == false);
    assert!(kodi_probe_ok(200, r#"{"jsonrpc":"2.0","result":"pong","id":1,"x":"JSONRPC"}"#));
    assert!(!kodi_probe_ok(200, "<html>kodi</html>"));
    assert!(!kodi_probe_ok(404, "kodi"));
}

#[test]
fn parsed_reply_readers() {
    match rpc_result(obj(vec![("result", Json::Str("pong".into()))])) {
        Ok(Json::Str(s)) => assert_eq!(s, "pong"),
        other => panic!("unexpected {:?}", other),
    }
    match rpc_result(obj(vec![("id", num(1))])) {
        Ok(Json::Null) => {},
        other => panic!("unexpected {:?}", other),
    }
    match rpc_result(obj(vec![("error", obj(vec![("code", Json::Number(JsonNumber::NegInt(-32601))), ("message", Json::Str("Method not found.".into()))]))])) {
        Err(e) => assert_eq!(e, "Kodi RPC error -32601: Method not found."),
        other => panic!("unexpected {:?}", other),
    }
    assert!(probe_shape(&obj(vec![("jsonrpc", Json::Str("2.0".into()))])));
    assert!(probe_shape(&obj(vec![("error", Json::Null)])));
    assert!(!probe_shape(&obj(vec![("other", num(1))])));
    assert!(!probe_shape(&Json::Array(vec![])));
}
