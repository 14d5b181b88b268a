use reantenna::model::{Note, User};
use reantenna::codec::encode_notes;
use reantenna::parse::parse_notes;

fn note(id: &str, host: Option<&str>, text: &str) -> Note {
    Note::new(
        User::new(String::from(id), host.map(String::from)),
        String::from(text),
    )
}

fn assert_same(parsed: &[Note], original: &[Note]) {
    assert_eq!(parsed.len(), original.len());
    for (p, o) in parsed.iter().zip(original.iter()) {
        assert_eq!(p.user.id, o.user.id);
        assert_eq!(p.user.host, o.user.host);
        assert_eq!(p.text, o.text);
    }
}

#[test]
fn round_trip_two_notes() {
    let notes = vec![
        note("u1", None, "first note"),
        note("u2", Some("example.social"), "second note"),
    ];
    let parsed = parse_notes(&encode_notes(&notes)).unwrap();
    assert_same(&parsed, &notes);
}

#[test]
fn round_trip_empty() {
    let parsed = parse_notes(&encode_notes(&Vec::new())).unwrap();
    assert_eq!(parsed.len(), 0);
}

#[test]
fn round_trip_tricky_strings() {
    let notes = vec![
        note("u\"1\\", Some("h\nost"), "line one\nline two\t\"quoted\"\\"),
        note("u2", None, "control\u{1}chars\u{1f}here\u{8}\u{c}"),
        note("u3", Some("unicode.example"), "non-ascii text stays itself"),
    ];
    let parsed = parse_notes(&encode_notes(&notes)).unwrap();
    assert_same(&parsed, &notes);
}

#[test]
fn parse_rejects_malformed() {
    assert!(parse_notes("").is_none());
    assert!(parse_notes("[").is_none());
    assert!(parse_notes("[]x").is_none());
    assert!(parse_notes("{}").is_none());
    assert!(parse_notes("[\n]").is_none());
    assert!(parse_notes("[\n  {\n    \"user\": {\n      \"id\": \"u1\"").is_none());
}

#[test]
fn parse_rejects_trailing_garbage() {
    let notes = vec![note("u1", None, "hello")];
    let mut text = encode_notes(&notes);
    text.push_str("\n");
    assert!(parse_notes(&text).is_none());
}

#[test]
fn parse_accepts_exact_text() {
    let text = "[\n  {\n    \"user\": {\n      \"id\": \"ab\",\n      \"host\": \"h.example\"\n    },\n    \"text\": \"t\\nx\"\n  }\n]";
    let parsed = parse_notes(text).unwrap();
    assert_eq!(parsed.len(), 1);
    assert_eq!(parsed[0].user.id, "ab");
    assert_eq!(parsed[0].user.host.as_deref(), Some("h.example"));
    assert_eq!(parsed[0].text, "t\nx");
}
