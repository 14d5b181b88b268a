//! Decoding of the cache file format, and the proof that it inverts the
//! encoding: a cache file always reads back as exactly the notes that
//! were written, in their order.

use vstd::prelude::*;
use crate::codec::{hex_digit, esc_char, esc, enc_str, enc_host, enc_note, enc_elems, enc_notes};
use crate::model::{UserView, NoteView};

verus! {

/// Strips a fixed literal off the front of the input, or fails.
pub open spec fn peel(lit: Seq<char>, s: Seq<char>) -> Option<Seq<char>> {
    if lit.len() <= s.len() && s.take(lit.len() as int) == lit {
        Some(s.skip(lit.len() as int))
    } else {
        None
    }
}

/// The character a two-character escape stands for.
pub open spec fn unesc_short(e: char) -> Option<char> {
    if e == '"' { Some('"') }
    else if e == '\\' { Some('\\') }
    else if e == 'n' { Some('\n') }
    else if e == 'r' { Some('\r') }
    else if e == 't' { Some('\t') }
    else if e == 'b' { Some('\u{8}') }
    else if e == 'f' { Some('\u{c}') }
    else { None }
}

/// The value of a hexadecimal digit character.
pub open spec fn hex_val(c: char) -> Option<int> {
    if c == '0' { Some(0) }
    else if c == '1' { Some(1) }
    else if c == '2' { Some(2) }
    else if c == '3' { Some(3) }
    else if c == '4' { Some(4) }
    else if c == '5' { Some(5) }
    else if c == '6' { Some(6) }
    else if c == '7' { Some(7) }
    else if c == '8' { Some(8) }
    else if c == '9' { Some(9) }
    else if c == 'a' { Some(10) }
    else if c == 'b' { Some(11) }
    else if c == 'c' { Some(12) }
    else if c == 'd' { Some(13) }
    else if c == 'e' { Some(14) }
    else if c == 'f' { Some(15) }
    else { None }
}

/// Reads the body of a JSON string literal up to its closing quote,
/// undoing the escapes; yields the string and the remaining input.
pub open spec fn dec_strbody(s: Seq<char>) -> Option<(Seq<char>, Seq<char>)>
    decreases s.len(),
{
    if s.len() == 0 {
        None
    } else if s[0] == '"' {
        Some((Seq::empty(), s.skip(1)))
    } else if s[0] == '\\' {
        if s.len() < 2 {
            None
        } else if s[1] == 'u' {
            if s.len() < 6 {
                None
            } else if s[2] == '0' && s[3] == '0' && hex_val(s[4]) is Some && hex_val(s[5]) is Some {
                match dec_strbody(s.skip(6)) {
                    Some(p) => Some((
                        seq![(((16 * hex_val(s[4]).unwrap() + hex_val(s[5]).unwrap()) as u32) as char)] + p.0,
                        p.1,
                    )),
                    None => None,
                }
            } else {
                None
            }
        } else {
            match unesc_short(s[1]) {
                Some(c) => match dec_strbody(s.skip(2)) {
                    Some(p) => Some((seq![c] + p.0, p.1)),
                    None => None,
                },
                None => None,
            }
        }
    } else {
        match dec_strbody(s.skip(1)) {
            Some(p) => Some((seq![s[0]] + p.0, p.1)),
            None => None,
        }
    }
}

/// Reads a whole JSON string literal, quotes included.
pub open spec fn dec_str(s: Seq<char>) -> Option<(Seq<char>, Seq<char>)> {
    match peel(seq!['"'], s) {
        Some(r) => dec_strbody(r),
        None => None,
    }
}

/// Reads a host field: `null` for the home server, or a string.
pub open spec fn dec_host(s: Seq<char>) -> Option<(Option<Seq<char>>, Seq<char>)> {
    match peel("null"@, s) {
        Some(r) => Some((None, r)),
        None => match dec_str(s) {
            Some(p) => Some((Some(p.0), p.1)),
            None => None,
        },
    }
}

/// Reads one note object of the cache array.
pub open spec fn dec_note(s: Seq<char>) -> Option<(NoteView, Seq<char>)> {
    match peel("  {\n    \"user\": {\n      \"id\": "@, s) {
        Some(s1) => match dec_str(s1) {
            Some((id, s2)) => match peel(",\n      \"host\": "@, s2) {
                Some(s3) => match dec_host(s3) {
                    Some((host, s4)) => match peel("\n    },\n    \"text\": "@, s4) {
                        Some(s5) => match dec_str(s5) {
                            Some((text, s6)) => match peel("\n  }"@, s6) {
                                Some(s7) => Some((
                                    NoteView { user: UserView { id, host }, text },
                                    s7,
                                )),
                                None => None,
                            },
                            None => None,
                        },
                        None => None,
                    },
                    None => None,
                },
                None => None,
            },
            None => None,
        },
        None => None,
    }
}

/// Reads the elements of the cache array while a separator follows;
/// `fuel` bounds the number of elements and only ever needs to be as
/// large as their count.
pub open spec fn dec_elems(s: Seq<char>, fuel: nat) -> Option<(Seq<NoteView>, Seq<char>)>
    decreases fuel,
{
    if fuel == 0 {
        None
    } else {
        match dec_note(s) {
            Some((v, r)) => match peel(",\n"@, r) {
                Some(r2) => match dec_elems(r2, (fuel - 1) as nat) {
                    Some((vs, r3)) => Some((seq![v] + vs, r3)),
                    None => None,
                },
                None => Some((seq![v], r)),
            },
            None => None,
        }
    }
}

/// Reads a whole cache file: the empty array, or a bracketed list of
/// note objects followed by nothing else.
pub open spec fn dec_notes(s: Seq<char>) -> Option<Seq<NoteView>> {
    if s == "[]"@ {
        Some(Seq::empty())
    } else {
        match peel("[\n"@, s) {
            Some(r) => match dec_elems(r, r.len() as nat) {
                Some((vs, r2)) => if r2 == "\n]"@ {
                    Some(vs)
                } else {
                    None
                },
                None => None,
            },
            None => None,
        }
    }
}

/// Peeling a literal off itself-plus-rest yields exactly the rest.
proof fn lemma_peel(lit: Seq<char>, rest: Seq<char>)
    ensures
        peel(lit, lit + rest) == Some(rest),
{
    assert((lit + rest).take(lit.len() as int) =~= lit);
    assert((lit + rest).skip(lit.len() as int) =~= rest);
}

/// Reading an escaped string body recovers the original characters and
/// leaves the input after the closing quote untouched.
proof fn lemma_dec_strbody(t: Seq<char>, rest: Seq<char>)
    ensures
        dec_strbody(esc(t) + seq!['"'] + rest) == Some((t, rest)),
    decreases t.len(),
{
    let s = esc(t) + seq!['"'] + rest;
    if t.len() == 0 {
        assert(esc(t) == Seq::<char>::empty());
        assert(s =~= seq!['"'] + rest);
        assert(s[0] == '"');
        assert(s.skip(1) =~= rest);
        assert(dec_strbody(s) == Some((Seq::<char>::empty(), rest)));
    } else {
        let c = t[0];
        let t2 = t.skip(1);
        let tail = esc(t2) + seq!['"'] + rest;
        assert(esc(t) == esc_char(c) + esc(t2));
        assert(s =~= esc_char(c) + tail);
        lemma_dec_strbody(t2, rest);
        if c == '"' || c == '\\' || c == '\n' || c == '\r' || c == '\t' || c == '\u{8}' || c
            == '\u{c}' {
            assert(esc_char(c).len() == 2);
            assert(s[0] == esc_char(c)[0] && s[1] == esc_char(c)[1]);
            assert(s[0] == '\\');
            assert(s[1] != 'u');
            assert(unesc_short(s[1]) == Some(c));
            assert(s.skip(2) =~= tail);
            assert(dec_strbody(s) == Some((seq![c] + t2, rest)));
            assert(seq![c] + t2 =~= t);
        } else if (c as u32) < 0x20 {
            let hi = (c as u32) as int / 16;
            let lo = (c as u32) as int % 16;
            assert(esc_char(c) == seq!['\\', 'u', '0', '0', hex_digit(hi), hex_digit(lo)]);
            assert(s.len() >= 6);
            assert(s[0] == '\\' && s[1] == 'u' && s[2] == '0' && s[3] == '0');
            assert(s[4] == hex_digit(hi) && s[5] == hex_digit(lo));
            assert(0 <= hi < 2 && 0 <= lo < 16);
            assert(hex_val(hex_digit(hi)) == Some(hi));
            assert(hex_val(hex_digit(lo)) == Some(lo));
            assert(16 * hi + lo == (c as u32) as int);
            vstd::utf8::char_u32_cast(c, c as u32);
            assert((((16 * hi + lo) as u32) as char) == c);
            assert(s.skip(6) =~= tail);
            assert(dec_strbody(s) == Some((seq![c] + t2, rest)));
            assert(seq![c] + t2 =~= t);
        } else {
            assert(esc_char(c) == seq![c]);
            assert(s[0] == c);
            assert(s[0] != '"' && s[0] != '\\');
            assert(s.skip(1) =~= tail);
            assert(dec_strbody(s) == Some((seq![c] + t2, rest)));
            assert(seq![c] + t2 =~= t);
        }
    }
}

/// Reading a string literal recovers the original string.
proof fn lemma_dec_str(t: Seq<char>, rest: Seq<char>)
    ensures
        dec_str(enc_str(t) + rest) == Some((t, rest)),
{
    let s = enc_str(t) + rest;
    assert(s =~= seq!['"'] + (esc(t) + seq!['"'] + rest));
    lemma_peel(seq!['"'], esc(t) + seq!['"'] + rest);
    lemma_dec_strbody(t, rest);
}

/// Reading a host field recovers the original host.
proof fn lemma_dec_host(h: Option<Seq<char>>, rest: Seq<char>)
    ensures
        dec_host(enc_host(h) + rest) == Some((h, rest)),
{
    reveal_strlit("null");
    match h {
        None => {
            assert(enc_host(h) == "null"@);
            lemma_peel("null"@, rest);
        },
        Some(hs) => {
            let s = enc_host(h) + rest;
            assert(s[0] == '"');
            assert("null"@[0] == 'n');
            if peel("null"@, s) is Some {
                assert(s.take(4)[0] == s[0]);
                assert(false);
            }
            lemma_dec_str(hs, rest);
        },
    }
}

/// Reading one note object recovers the original note.
proof fn lemma_dec_note(v: NoteView, rest: Seq<char>)
    ensures
        dec_note(enc_note(v) + rest) == Some((v, rest)),
{
    let l1 = "  {\n    \"user\": {\n      \"id\": "@;
    let l2 = ",\n      \"host\": "@;
    let l3 = "\n    },\n    \"text\": "@;
    let l4 = "\n  }"@;
    let r6 = l4 + rest;
    let r5 = enc_str(v.text) + r6;
    let r4 = l3 + r5;
    let r3 = enc_host(v.user.host) + r4;
    let r2 = l2 + r3;
    let r1 = enc_str(v.user.id) + r2;
    let s = enc_note(v) + rest;
    assert(s =~= l1 + r1);
    lemma_peel(l1, r1);
    lemma_dec_str(v.user.id, r2);
    lemma_peel(l2, r3);
    lemma_dec_host(v.user.host, r4);
    lemma_peel(l3, r5);
    lemma_dec_str(v.text, r6);
    lemma_peel(l4, rest);
}

/// Every encoded note is at least one character long.
proof fn lemma_enc_note_len(v: NoteView)
    ensures
        enc_note(v).len() >= 1,
{
    reveal_strlit("  {\n    \"user\": {\n      \"id\": ");
}

/// An encoded element list is at least as long as the number of notes.
proof fn lemma_enc_elems_len(ns: Seq<NoteView>)
    ensures
        enc_elems(ns).len() >= ns.len(),
    decreases ns.len(),
{
    reveal_strlit(",\n");
    if ns.len() == 0 {
    } else if ns.len() == 1 {
        lemma_enc_note_len(ns[0]);
    } else {
        lemma_enc_note_len(ns[0]);
        lemma_enc_elems_len(ns.skip(1));
    }
}

/// Reading an element list recovers the original notes, stopping where
/// the closing of the array begins.
proof fn lemma_dec_elems(ns: Seq<NoteView>, rest: Seq<char>, fuel: nat)
    requires
        ns.len() >= 1,
        fuel >= ns.len(),
        rest.len() >= 1,
        rest[0] == '\n',
    ensures
        dec_elems(enc_elems(ns) + rest, fuel) == Some((ns, rest)),
    decreases ns.len(),
{
    reveal_strlit(",\n");
    let s = enc_elems(ns) + rest;
    if ns.len() == 1 {
        assert(enc_elems(ns) == enc_note(ns[0]));
        lemma_dec_note(ns[0], rest);
        assert(dec_note(s) == Some((ns[0], rest)));
        if peel(",\n"@, rest) is Some {
            assert(rest.take(2)[0] == rest[0]);
            assert(false);
        }
        assert(dec_elems(s, fuel) == Some((seq![ns[0]], rest)));
        assert(seq![ns[0]] =~= ns);
    } else {
        let ns2 = ns.skip(1);
        let r1 = ",\n"@ + (enc_elems(ns2) + rest);
        assert(enc_elems(ns) == enc_note(ns[0]) + ",\n"@ + enc_elems(ns2));
        assert(s =~= enc_note(ns[0]) + r1);
        lemma_dec_note(ns[0], r1);
        lemma_peel(",\n"@, enc_elems(ns2) + rest);
        lemma_dec_elems(ns2, rest, (fuel - 1) as nat);
        assert(dec_elems(s, fuel) == Some((seq![ns[0]] + ns2, rest)));
        assert(seq![ns[0]] + ns2 =~= ns);
    }
}

/// The cache text written for a sequence of notes always reads back as
/// exactly that sequence, in its order: decoding inverts encoding.
pub proof fn lemma_cache_round_trip(ns: Seq<NoteView>)
    ensures
        dec_notes(enc_notes(ns)) == Some(ns),
{
    reveal_strlit("[]");
    reveal_strlit("[\n");
    reveal_strlit("\n]");
    if ns.len() == 0 {
        assert(enc_notes(ns) == "[]"@);
        assert(dec_notes(enc_notes(ns)) == Some(Seq::<NoteView>::empty()));
        assert(Seq::<NoteView>::empty() =~= ns);
    } else {
        let s = enc_notes(ns);
        let r = enc_elems(ns) + "\n]"@;
        assert(s =~= "[\n"@ + r);
        lemma_enc_elems_len(ns);
        assert(s.len() >= 4);
        if s == "[]"@ {
            assert(false);
        }
        lemma_peel("[\n"@, r);
        assert("\n]"@[0] == '\n');
        lemma_dec_elems(ns, "\n]"@, r.len() as nat);
        assert(dec_notes(s) == Some(ns));
    }
}

/// Two different note sequences never encode to the same cache text:
/// what a cache file holds determines the notes in it uniquely.
pub proof fn lemma_enc_notes_injective(a: Seq<NoteView>, b: Seq<NoteView>)
    requires
        enc_notes(a) == enc_notes(b),
    ensures
        a == b,
{
    lemma_cache_round_trip(a);
    lemma_cache_round_trip(b);
}

} // verus!
