use reantenna::model::{Note, User};
use reantenna::render::{render_block, render_notes, render_notes_styled};

fn note(id: &str, host: Option<&str>, text: &str) -> Note {
    Note::new(
        User::new(String::from(id), host.map(String::from)),
        String::from(text),
    )
}

#[test]
fn null_host_prints_default_label() {
    let out = render_notes(&vec![note("u1", None, "hello")]);
    assert_eq!(out, "u1@misskey.io\nhello\n----\n");
}

#[test]
fn explicit_host_prints_verbatim() {
    let out = render_notes(&vec![note("u1", Some("example.social"), "hi")]);
    assert_eq!(out, "u1@example.social\nhi\n----\n");
}

#[test]
fn blocks_in_file_order() {
    let notes = vec![
        note("a", None, "first"),
        note("b", Some("remote.example"), "second"),
        note("c", None, "third"),
    ];
    let out = render_notes(&notes);
    assert_eq!(
        out,
        "a@misskey.io\nfirst\n----\nb@remote.example\nsecond\n----\nc@misskey.io\nthird\n----\n"
    );
    assert_eq!(out.matches("----\n").count(), 3);
}

#[test]
fn empty_input_prints_nothing() {
    let out = render_notes(&Vec::new());
    assert_eq!(out, "");
}

#[test]
fn block_shows_given_id_text() {
    let b = render_block("shown", &Some(String::from("h.example")), "body");
    assert_eq!(b, "shown@h.example\nbody\n----\n");
}

#[test]
fn styled_output_one_block_per_note() {
    let notes = vec![note("a", None, "x"), note("b", None, "y")];
    let blocks = render_notes_styled(&notes);
    assert_eq!(blocks.len(), 2);
    for b in &blocks {
        assert!(b.ends_with("\n----\n"));
    }
    assert!(blocks[0].contains("@misskey.io"));
    assert!(blocks[0].contains("x\n"));
    assert!(blocks[1].contains("y\n"));
}
