use reantenna::model::{Note, User};
use reantenna::codec::encode_notes;
use reantenna::fetch::{api_url, bearer_header, choose_antenna_id, process_response, FetchRequest};

fn note(id: &str, host: Option<&str>, text: &str) -> Note {
    Note::new(
        User::new(String::from(id), host.map(String::from)),
        String::from(text),
    )
}

#[test]
fn empty_cache_is_empty_array() {
    assert_eq!(encode_notes(&Vec::new()), "[]");
}

#[test]
fn cache_exact_shape() {
    let notes = vec![note("u1", None, "hello")];
    let expected = "[\n  {\n    \"user\": {\n      \"id\": \"u1\",\n      \"host\": null\n    },\n    \"text\": \"hello\"\n  }\n]";
    assert_eq!(encode_notes(&notes), expected);
}

#[test]
fn cache_round_trips_two_notes() {
    let notes = vec![
        note("u1", None, "first note"),
        note("u2", Some("example.social"), "second note"),
    ];
    let text = encode_notes(&notes);
    let parsed: serde_json::Value = serde_json::from_str(&text).unwrap();
    let arr = parsed.as_array().unwrap();
    assert_eq!(arr.len(), 2);
    assert_eq!(arr[0]["user"]["id"].as_str(), Some("u1"));
    assert!(arr[0]["user"]["host"].is_null());
    assert_eq!(arr[0]["text"].as_str(), Some("first note"));
    assert_eq!(arr[1]["user"]["id"].as_str(), Some("u2"));
    assert_eq!(arr[1]["user"]["host"].as_str(), Some("example.social"));
    assert_eq!(arr[1]["text"].as_str(), Some("second note"));
}

#[test]
fn cache_escapes_make_valid_json() {
    let tricky = "a \"quoted\" line\\with\nbreaks\tand\u{8}bell\u{1f}end";
    let notes = vec![note("u\"id", Some("h\\ost"), tricky)];
    let text = encode_notes(&notes);
    let parsed: serde_json::Value = serde_json::from_str(&text).unwrap();
    let arr = parsed.as_array().unwrap();
    assert_eq!(arr[0]["user"]["id"].as_str(), Some("u\"id"));
    assert_eq!(arr[0]["user"]["host"].as_str(), Some("h\\ost"));
    assert_eq!(arr[0]["text"].as_str(), Some(tricky));
}

#[test]
fn refetch_replaces_cache() {
    let first = vec![note("a", None, "old one"), note("b", None, "old two")];
    let second = vec![note("c", None, "new one")];
    let cache1 = encode_notes(&first);
    let cache2 = encode_notes(&second);
    assert!(cache1.contains("old one"));
    let parsed: serde_json::Value = serde_json::from_str(&cache2).unwrap();
    assert_eq!(parsed.as_array().unwrap().len(), 1);
    assert!(!cache2.contains("old one"));
    assert!(!cache2.contains("old two"));
    assert!(cache2.contains("new one"));
}

#[test]
fn request_body_exact() {
    let req = FetchRequest::new(String::from("ant1"), 10);
    assert_eq!(
        req.body(),
        "{\"antennaId\":\"ant1\",\"limit\":10,\"sinceDate\":0,\"untilDate\":0}"
    );
}

#[test]
fn request_body_limit_edges() {
    let zero = FetchRequest::new(String::from("x"), 0);
    assert_eq!(
        zero.body(),
        "{\"antennaId\":\"x\",\"limit\":0,\"sinceDate\":0,\"untilDate\":0}"
    );
    let big = FetchRequest::new(String::from("x"), 4294967295);
    assert_eq!(
        big.body(),
        "{\"antennaId\":\"x\",\"limit\":4294967295,\"sinceDate\":0,\"untilDate\":0}"
    );
}

#[test]
fn request_body_escapes_id() {
    let req = FetchRequest::new(String::from("a\"b"), 1);
    assert_eq!(
        req.body(),
        "{\"antennaId\":\"a\\\"b\",\"limit\":1,\"sinceDate\":0,\"untilDate\":0}"
    );
}

#[test]
fn bearer_header_exact() {
    assert_eq!(bearer_header("tok123"), "Bearer tok123");
}

#[test]
fn api_url_fixed() {
    assert_eq!(api_url(), "https://misskey.io/api/antennas/notes");
}

#[test]
fn antenna_id_override_wins() {
    let chosen = choose_antenna_id(Some(String::from("cli-id")), String::from("cfg-id"));
    assert_eq!(chosen, "cli-id");
    let fallback = choose_antenna_id(None, String::from("cfg-id"));
    assert_eq!(fallback, "cfg-id");
}

#[test]
fn catch_output_show_flag() {
    let notes = vec![note("a", None, "x"), note("b", None, "y")];
    let with_show = process_response(&notes, true);
    assert_eq!(with_show.cache_text, encode_notes(&notes));
    assert_eq!(with_show.shown.as_ref().map(|b| b.len()), Some(2));
    let without_show = process_response(&notes, false);
    assert_eq!(without_show.cache_text, encode_notes(&notes));
    assert!(without_show.shown.is_none());
}
