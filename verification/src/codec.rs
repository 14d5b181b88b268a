//! JSON encoding of the cache file and of string and integer pieces of
//! the wire request. The exact shape of every encoded text is stated in
//! the contracts, so callers know the bytes they hand on.

use vstd::prelude::*;
use crate::model::{Note, NoteView};
use crate::model::views_of;

verus! {

/// Relies on `String::push`: appends the one character to the string.
#[verifier::external_body]
pub(crate) fn push_char(s: &mut String, c: char)
    ensures
        final(s)@ == old(s)@.push(c),
{
    s.push(c);
}

/// The hexadecimal digit character for `d`.
pub open spec fn hex_digit(d: int) -> char {
    if d == 0 { '0' }
    else if d == 1 { '1' }
    else if d == 2 { '2' }
    else if d == 3 { '3' }
    else if d == 4 { '4' }
    else if d == 5 { '5' }
    else if d == 6 { '6' }
    else if d == 7 { '7' }
    else if d == 8 { '8' }
    else if d == 9 { '9' }
    else if d == 10 { 'a' }
    else if d == 11 { 'b' }
    else if d == 12 { 'c' }
    else if d == 13 { 'd' }
    else if d == 14 { 'e' }
    else { 'f' }
}

/// How one character appears inside a JSON string literal: the short
/// escapes, `\u00XX` for the other control characters, and the
/// character itself for everything else.
pub open spec fn esc_char(c: char) -> Seq<char> {
    if c == '"' { seq!['\\', '"'] }
    else if c == '\\' { seq!['\\', '\\'] }
    else if c == '\n' { seq!['\\', 'n'] }
    else if c == '\r' { seq!['\\', 'r'] }
    else if c == '\t' { seq!['\\', 't'] }
    else if c == '\u{8}' { seq!['\\', 'b'] }
    else if c == '\u{c}' { seq!['\\', 'f'] }
    else if (c as u32) < 0x20 {
        seq!['\\', 'u', '0', '0', hex_digit((c as u32) as int / 16), hex_digit((c as u32) as int % 16)]
    }
    else { seq![c] }
}

/// A whole string's characters, each as it appears in a JSON literal.
pub open spec fn esc(s: Seq<char>) -> Seq<char>
    decreases s.len(),
{
    if s.len() == 0 {
        Seq::empty()
    } else {
        esc_char(s[0]) + esc(s.skip(1))
    }
}

/// A JSON string literal: the escaped characters between quotes.
pub open spec fn enc_str(s: Seq<char>) -> Seq<char> {
    seq!['"'] + esc(s) + seq!['"']
}

/// The decimal numeral of a non-negative integer.
pub open spec fn dec_spec(n: int) -> Seq<char>
    recommends
        n >= 0,
    decreases n,
{
    if n < 10 {
        seq![hex_digit(n)]
    } else {
        dec_spec(n / 10).push(hex_digit(n % 10))
    }
}

/// Escaping a string one character longer appends that character's
/// escape to the escaping of the prefix.
pub proof fn lemma_esc_push(s: Seq<char>, c: char)
    ensures
        esc(s.push(c)) == esc(s) + esc_char(c),
    decreases s.len(),
{
    if s.len() == 0 {
        assert(s.push(c)[0] == c);
        assert(s.push(c).skip(1) =~= Seq::<char>::empty());
        assert(esc(Seq::<char>::empty()) == Seq::<char>::empty());
        assert(esc(s.push(c)) == esc_char(c) + Seq::<char>::empty());
        assert(esc(s) == Seq::<char>::empty());
        assert(esc_char(c) + Seq::<char>::empty() =~= Seq::<char>::empty() + esc_char(c));
    } else {
        assert(s.push(c)[0] == s[0]);
        assert(s.push(c).skip(1) =~= s.skip(1).push(c));
        lemma_esc_push(s.skip(1), c);
        assert(esc(s.push(c)) =~= esc(s) + esc_char(c));
    }
}

fn hex_digit_exec(d: u32) -> (r: char)
    requires
        d < 16,
    ensures
        r == hex_digit(d as int),
{
    if d == 0 { '0' }
    else if d == 1 { '1' }
    else if d == 2 { '2' }
    else if d == 3 { '3' }
    else if d == 4 { '4' }
    else if d == 5 { '5' }
    else if d == 6 { '6' }
    else if d == 7 { '7' }
    else if d == 8 { '8' }
    else if d == 9 { '9' }
    else if d == 10 { 'a' }
    else if d == 11 { 'b' }
    else if d == 12 { 'c' }
    else if d == 13 { 'd' }
    else if d == 14 { 'e' }
    else { 'f' }
}

fn push_esc_char(out: &mut String, c: char)
    ensures
        final(out)@ == old(out)@ + esc_char(c),
{
    if c == '"' {
        push_char(out, '\\');
        push_char(out, '"');
    } else if c == '\\' {
        push_char(out, '\\');
        push_char(out, '\\');
    } else if c == '\n' {
        push_char(out, '\\');
        push_char(out, 'n');
    } else if c == '\r' {
        push_char(out, '\\');
        push_char(out, 'r');
    } else if c == '\t' {
        push_char(out, '\\');
        push_char(out, 't');
    } else if c == '\u{8}' {
        push_char(out, '\\');
        push_char(out, 'b');
    } else if c == '\u{c}' {
        push_char(out, '\\');
        push_char(out, 'f');
    } else if (c as u32) < 0x20 {
        push_char(out, '\\');
        push_char(out, 'u');
        push_char(out, '0');
        push_char(out, '0');
        push_char(out, hex_digit_exec((c as u32) / 16));
        push_char(out, hex_digit_exec((c as u32) % 16));
        proof {
            assert(final(out)@ =~= old(out)@ + esc_char(c));
        }
    } else {
        push_char(out, c);
        proof {
            assert(final(out)@ =~= old(out)@ + esc_char(c));
        }
    }
    proof {
        assert(final(out)@ =~= old(out)@ + esc_char(c));
    }
}

/// Appends the escaped characters of `s`.
fn append_escaped(out: &mut String, s: &str)
    ensures
        final(out)@ == old(out)@ + esc(s@),
{
    let n = s.unicode_len();
    let mut i: usize = 0;
    proof {
        assert(s@.take(0) =~= Seq::<char>::empty());
    }
    while i < n
        invariant
            0 <= i <= n,
            n == s@.len(),
            out@ == old(out)@ + esc(s@.take(i as int)),
        decreases n - i,
    {
        push_esc_char(out, s.get_char(i));
        proof {
            assert(s@.take(i + 1) =~= s@.take(i as int).push(s@[i as int]));
            lemma_esc_push(s@.take(i as int), s@[i as int]);
            assert(out@ =~= old(out)@ + esc(s@.take(i + 1)));
        }
        i = i + 1;
    }
    proof {
        assert(s@.take(n as int) =~= s@);
    }
}

/// Appends the JSON string literal for `s`.
pub fn append_json_str(out: &mut String, s: &str)
    ensures
        final(out)@ == old(out)@ + enc_str(s@),
{
    push_char(out, '"');
    append_escaped(out, s);
    push_char(out, '"');
    proof {
        assert(final(out)@ =~= old(out)@ + enc_str(s@));
    }
}

/// Appends the decimal numeral of `n`.
pub fn append_u32(out: &mut String, n: u32)
    ensures
        final(out)@ == old(out)@ + dec_spec(n as int),
    decreases n,
{
    if n < 10 {
        push_char(out, hex_digit_exec(n));
        proof {
            assert(final(out)@ =~= old(out)@ + dec_spec(n as int));
        }
    } else {
        append_u32(out, n / 10);
        push_char(out, hex_digit_exec(n % 10));
        proof {
            assert(final(out)@ =~= old(out)@ + dec_spec(n as int));
        }
    }
}

/// The cache form of an author's host: the JSON string, or `null` for
/// the home server.
pub open spec fn enc_host(h: Option<Seq<char>>) -> Seq<char> {
    match h {
        None => "null"@,
        Some(s) => enc_str(s),
    }
}

/// The cache form of one note: a pretty-printed JSON object, indented as
/// an element of the top-level array.
pub open spec fn enc_note(v: NoteView) -> Seq<char> {
    "  {\n    \"user\": {\n      \"id\": "@ + enc_str(v.user.id)
        + ",\n      \"host\": "@ + enc_host(v.user.host)
        + "\n    },\n    \"text\": "@ + enc_str(v.text)
        + "\n  }"@
}

/// The elements of the cache array, separated by `,\n`.
pub open spec fn enc_elems(ns: Seq<NoteView>) -> Seq<char>
    decreases ns.len(),
{
    if ns.len() == 0 {
        Seq::empty()
    } else if ns.len() == 1 {
        enc_note(ns[0])
    } else {
        enc_note(ns[0]) + ",\n"@ + enc_elems(ns.skip(1))
    }
}

/// The whole cache file: a pretty-printed JSON array of the notes, in
/// their order. It is a function of the notes alone: writing it replaces
/// whatever stood in the cache before.
pub open spec fn enc_notes(ns: Seq<NoteView>) -> Seq<char> {
    if ns.len() == 0 {
        "[]"@
    } else {
        "[\n"@ + enc_elems(ns) + "\n]"@
    }
}

/// Encoding one more note appends it after a separator (or stands alone
/// in a one-note sequence): elements come out one per note, in order.
pub proof fn lemma_enc_elems_push(ns: Seq<NoteView>, v: NoteView)
    ensures
        ns.len() == 0 ==> enc_elems(ns.push(v)) == enc_note(v),
        ns.len() > 0 ==> enc_elems(ns.push(v)) == enc_elems(ns) + ",\n"@ + enc_note(v),
    decreases ns.len(),
{
    if ns.len() == 0 {
        assert(ns.push(v)[0] == v);
    } else if ns.len() == 1 {
        assert(ns.push(v)[0] == ns[0]);
        assert(ns.push(v).skip(1) =~= ns.skip(1).push(v));
        assert(ns.skip(1).len() == 0);
        lemma_enc_elems_push(ns.skip(1), v);
        assert(enc_elems(ns.push(v)) =~= enc_elems(ns) + ",\n"@ + enc_note(v));
    } else {
        assert(ns.push(v)[0] == ns[0]);
        assert(ns.push(v).skip(1) =~= ns.skip(1).push(v));
        lemma_enc_elems_push(ns.skip(1), v);
        assert(enc_elems(ns.push(v)) =~= enc_elems(ns) + ",\n"@ + enc_note(v));
    }
}

/// Appends the cache form of one note.
fn append_note(out: &mut String, note: &Note)
    ensures
        final(out)@ == old(out)@ + enc_note(note@),
{
    out.append("  {\n    \"user\": {\n      \"id\": ");
    append_json_str(out, note.user.id.as_str());
    out.append(",\n      \"host\": ");
    match &note.user.host {
        Some(h) => append_json_str(out, h.as_str()),
        None => out.append("null"),
    }
    out.append("\n    },\n    \"text\": ");
    append_json_str(out, note.text.as_str());
    out.append("\n  }");
    proof {
        assert(final(out)@ =~= old(out)@ + enc_note(note@));
    }
}

/// Builds the full cache text for the notes: the pretty-printed JSON
/// array that `enc_notes` describes, a function of the notes alone.
pub fn encode_notes(notes: &Vec<Note>) -> (r: String)
    ensures
        r@ == enc_notes(views_of(notes@)),
{
    let mut out = String::new();
    if notes.len() == 0 {
        out.append("[]");
        return out;
    }
    out.append("[\n");
    let mut i: usize = 0;
    while i < notes.len()
        invariant
            0 <= i <= notes@.len(),
            notes@.len() > 0,
            i == 0 ==> out@ == "[\n"@,
            i > 0 ==> out@ == "[\n"@ + enc_elems(views_of(notes@).take(i as int)),
        decreases notes@.len() - i,
    {
        if i > 0 {
            out.append(",\n");
        }
        append_note(&mut out, &notes[i]);
        proof {
            let vs = views_of(notes@);
            assert(vs.take(i + 1) =~= vs.take(i as int).push(vs[i as int]));
            lemma_enc_elems_push(vs.take(i as int), vs[i as int]);
            if i == 0 {
                assert(enc_elems(vs.take(1)) == enc_note(vs[0]));
            }
            assert(out@ =~= "[\n"@ + enc_elems(vs.take(i + 1)));
        }
        i = i + 1;
    }
    out.append("\n]");
    proof {
        let vs = views_of(notes@);
        assert(vs.take(notes@.len() as int) =~= vs);
        assert(out@ =~= enc_notes(vs));
    }
    out
}

} // verus!
