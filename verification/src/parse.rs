//! The executable reader of the cache file: a strict parser for the
//! format `encode_notes` writes, proved to return exactly what the
//! specification decoder describes. Together with the round-trip lemma,
//! whatever `encode_notes` wrote parses back to the same notes.

use vstd::prelude::*;
use crate::decode::{peel, unesc_short, hex_val, dec_strbody, dec_str, dec_host, dec_note,
    dec_elems, dec_notes};
use crate::model::{Note, User};
use crate::model::views_of;
use crate::render::host_view;
use crate::codec::push_char;

verus! {

/// Compares the characters of `lit` against `s` at position `i`,
/// yielding the position after the match exactly when `peel` succeeds.
fn exec_peel(s: &str, i: usize, lit: &str) -> (r: Option<usize>)
    requires
        i <= s@.len(),
    ensures
        r matches Some(j) ==> i <= j <= s@.len()
            && peel(lit@, s@.skip(i as int)) == Some(s@.skip(j as int)),
        r is None ==> peel(lit@, s@.skip(i as int)) is None,
{
    let n = s.unicode_len();
    let m = lit.unicode_len();
    if n - i < m {
        return None;
    }
    let mut k: usize = 0;
    while k < m
        invariant
            0 <= k <= m,
            i + m <= n,
            n == s@.len(),
            m == lit@.len(),
            forall|q: int| 0 <= q < k ==> s@[i + q] == lit@[q],
        decreases m - k,
    {
        if s.get_char(i + k) != lit.get_char(k) {
            proof {
                assert(s@.skip(i as int).take(m as int)[k as int] == s@[i + k]);
            }
            return None;
        }
        k = k + 1;
    }
    proof {
        assert(s@.skip(i as int).take(m as int) =~= lit@);
        assert(s@.skip(i as int).skip(m as int) =~= s@.skip(i + m));
    }
    Some(i + m)
}

fn exec_unesc_short(e: char) -> (r: Option<char>)
    ensures
        r == unesc_short(e),
{
    if e == '"' { Some('"') }
    else if e == '\\' { Some('\\') }
    else if e == 'n' { Some('\n') }
    else if e == 'r' { Some('\r') }
    else if e == 't' { Some('\t') }
    else if e == 'b' { Some('\u{8}') }
    else if e == 'f' { Some('\u{c}') }
    else { None }
}

fn exec_hex_val(c: char) -> (r: Option<u32>)
    ensures
        r matches Some(v) ==> hex_val(c) == Some(v as int) && v < 16,
        r is None ==> hex_val(c) is None,
{
    if c == '0' { Some(0) }
    else if c == '1' { Some(1) }
    else if c == '2' { Some(2) }
    else if c == '3' { Some(3) }
    else if c == '4' { Some(4) }
    else if c == '5' { Some(5) }
    else if c == '6' { Some(6) }
    else if c == '7' { Some(7) }
    else if c == '8' { Some(8) }
    else if c == '9' { Some(9) }
    else if c == 'a' { Some(10) }
    else if c == 'b' { Some(11) }
    else if c == 'c' { Some(12) }
    else if c == 'd' { Some(13) }
    else if c == 'e' { Some(14) }
    else if c == 'f' { Some(15) }
    else { None }
}

/// Reads a string body from position `i` up to its closing quote,
/// undoing the escapes, exactly as the specification decoder does.
fn exec_strbody(s: &str, i: usize) -> (r: Option<(String, usize)>)
    requires
        i <= s@.len(),
    ensures
        r matches Some(p) ==> p.1 <= s@.len()
            && dec_strbody(s@.skip(i as int)) == Some((p.0@, s@.skip(p.1 as int))),
        r is None ==> dec_strbody(s@.skip(i as int)) is None,
{
    let n = s.unicode_len();
    let mut acc = String::new();
    let mut k: usize = i;
    loop
        invariant
            i <= k <= n,
            n == s@.len(),
            (match dec_strbody(s@.skip(k as int)) {
                Some(p) => dec_strbody(s@.skip(i as int)) == Some((acc@ + p.0, p.1)),
                None => dec_strbody(s@.skip(i as int)) is None,
            }),
        decreases n - k,
    {
        if k >= n {
            return None;
        }
        let c = s.get_char(k);
        proof {
            assert(s@.skip(k as int)[0] == s@[k as int]);
        }
        if c == '"' {
            proof {
                assert(s@.skip(k as int).skip(1) =~= s@.skip(k + 1));
                assert(acc@ + Seq::<char>::empty() =~= acc@);
            }
            return Some((acc, k + 1));
        } else if c == '\\' {
            if n - k < 2 {
                return None;
            }
            let e = s.get_char(k + 1);
            proof {
                assert(s@.skip(k as int)[1] == s@[k + 1]);
            }
            if e == 'u' {
                if n - k < 6 {
                    return None;
                }
                proof {
                    assert(s@.skip(k as int)[2] == s@[k + 2]);
                    assert(s@.skip(k as int)[3] == s@[k + 3]);
                    assert(s@.skip(k as int)[4] == s@[k + 4]);
                    assert(s@.skip(k as int)[5] == s@[k + 5]);
                }
                if s.get_char(k + 2) != '0' || s.get_char(k + 3) != '0' {
                    return None;
                }
                let h4 = exec_hex_val(s.get_char(k + 4));
                let h5 = exec_hex_val(s.get_char(k + 5));
                match (h4, h5) {
                    (Some(hi), Some(lo)) => {
                        let code: u32 = 16 * hi + lo;
                        let ch: char = (code as u8) as char;
                        let ghost pre = acc@;
                        push_char(&mut acc, ch);
                        proof {
                            assert(s@.skip(k as int).skip(6) =~= s@.skip(k + 6));
                            assert(ch as u32 == code);
                            assert(forall|p0: Seq<char>| pre + (seq![ch] + p0)
                                =~= (pre.push(ch)) + p0);
                        }
                        k = k + 6;
                    },
                    _ => {
                        return None;
                    },
                }
            } else {
                match exec_unesc_short(e) {
                    Some(c2) => {
                        let ghost pre = acc@;
                        push_char(&mut acc, c2);
                        proof {
                            assert(s@.skip(k as int).skip(2) =~= s@.skip(k + 2));
                            assert(forall|p0: Seq<char>| pre + (seq![c2] + p0)
                                =~= (pre.push(c2)) + p0);
                        }
                        k = k + 2;
                    },
                    None => {
                        return None;
                    },
                }
            }
        } else {
            let ghost pre = acc@;
            push_char(&mut acc, c);
            proof {
                assert(s@.skip(k as int).skip(1) =~= s@.skip(k + 1));
                assert(forall|p0: Seq<char>| pre + (seq![c] + p0) =~= (pre.push(c)) + p0);
            }
            k = k + 1;
        }
    }
}

/// Reads a whole string literal from position `i`, quotes included.
fn exec_str(s: &str, i: usize) -> (r: Option<(String, usize)>)
    requires
        i <= s@.len(),
    ensures
        r matches Some(p) ==> p.1 <= s@.len()
            && dec_str(s@.skip(i as int)) == Some((p.0@, s@.skip(p.1 as int))),
        r is None ==> dec_str(s@.skip(i as int)) is None,
{
    let n = s.unicode_len();
    if i >= n {
        return None;
    }
    let c = s.get_char(i);
    proof {
        assert(s@.skip(i as int)[0] == s@[i as int]);
        assert(s@.skip(i as int).take(1) =~= seq![s@[i as int]]);
    }
    if c != '"' {
        proof {
            if peel(seq!['"'], s@.skip(i as int)) is Some {
                assert(s@.skip(i as int).take(1)[0] == '"');
            }
        }
        return None;
    }
    proof {
        assert(s@.skip(i as int).skip(1) =~= s@.skip(i + 1));
    }
    exec_strbody(s, i + 1)
}

/// Reads a host field from position `i`: `null` or a string.
fn exec_host(s: &str, i: usize) -> (r: Option<(Option<String>, usize)>)
    requires
        i <= s@.len(),
    ensures
        r matches Some(p) ==> p.1 <= s@.len()
            && dec_host(s@.skip(i as int)) == Some((host_view(p.0), s@.skip(p.1 as int))),
        r is None ==> dec_host(s@.skip(i as int)) is None,
{
    match exec_peel(s, i, "null") {
        Some(j) => Some((None, j)),
        None => match exec_str(s, i) {
            Some((t, j)) => Some((Some(t), j)),
            None => None,
        },
    }
}

/// Reads one note object from position `i`.
fn exec_note(s: &str, i: usize) -> (r: Option<(Note, usize)>)
    requires
        i <= s@.len(),
    ensures
        r matches Some(p) ==> p.1 <= s@.len()
            && dec_note(s@.skip(i as int)) == Some((p.0@, s@.skip(p.1 as int))),
        r is None ==> dec_note(s@.skip(i as int)) is None,
{
    let i1 = match exec_peel(s, i, "  {\n    \"user\": {\n      \"id\": ") {
        Some(j) => j,
        None => {
            return None;
        },
    };
    let (id, i2) = match exec_str(s, i1) {
        Some(p) => p,
        None => {
            return None;
        },
    };
    let i3 = match exec_peel(s, i2, ",\n      \"host\": ") {
        Some(j) => j,
        None => {
            return None;
        },
    };
    let (host, i4) = match exec_host(s, i3) {
        Some(p) => p,
        None => {
            return None;
        },
    };
    let i5 = match exec_peel(s, i4, "\n    },\n    \"text\": ") {
        Some(j) => j,
        None => {
            return None;
        },
    };
    let (text, i6) = match exec_str(s, i5) {
        Some(p) => p,
        None => {
            return None;
        },
    };
    let i7 = match exec_peel(s, i6, "\n  }") {
        Some(j) => j,
        None => {
            return None;
        },
    };
    Some((Note::new(User::new(id, host), text), i7))
}

/// Reads the array elements from position `i` while a separator follows.
fn exec_elems(s: &str, i: usize, fuel: usize) -> (r: Option<(Vec<Note>, usize)>)
    requires
        i <= s@.len(),
    ensures
        r matches Some(p) ==> p.1 <= s@.len()
            && dec_elems(s@.skip(i as int), fuel as nat)
                == Some((views_of(p.0@), s@.skip(p.1 as int))),
        r is None ==> dec_elems(s@.skip(i as int), fuel as nat) is None,
    decreases fuel,
{
    if fuel == 0 {
        return None;
    }
    let (v, j) = match exec_note(s, i) {
        Some(p) => p,
        None => {
            return None;
        },
    };
    match exec_peel(s, j, ",\n") {
        Some(j2) => match exec_elems(s, j2, fuel - 1) {
            Some((mut ns, j3)) => {
                let ghost tail = ns@;
                let ghost v_view = v@;
                ns.insert(0, v);
                proof {
                    assert(ns@ =~= seq![v].add(tail));
                    assert(views_of(ns@) =~= seq![v_view] + views_of(tail));
                }
                Some((ns, j3))
            },
            None => None,
        },
        None => {
            let mut ns: Vec<Note> = Vec::new();
            let ghost v_view = v@;
            ns.push(v);
            proof {
                assert(views_of(ns@) =~= seq![v_view]);
            }
            Some((ns, j))
        },
    }
}

/// Reads a whole cache file: succeeds with the notes exactly when the
/// specification decoder does, and yields the same notes.
pub fn parse_notes(s: &str) -> (r: Option<Vec<Note>>)
    ensures
        r matches Some(notes) ==> dec_notes(s@) == Some(views_of(notes@)),
        r is None ==> dec_notes(s@) is None,
{
    let n = s.unicode_len();
    proof {
        assert(s@.skip(0) =~= s@);
        reveal_strlit("[]");
        reveal_strlit("[\n");
        reveal_strlit("\n]");
    }
    match exec_peel(s, 0, "[]") {
        Some(j) => {
            proof {
                assert(s@.skip(0).skip(2) =~= s@.skip(2));
                assert(s@.skip(2) == s@.skip(j as int));
                assert(s@.skip(2).len() == s@.len() - 2);
                assert(s@.skip(j as int).len() == s@.len() - j);
            }
            if j == n {
                proof {
                    assert(s@.len() == 2);
                    assert(s@.take(2) == "[]"@);
                    assert(s@ =~= s@.take(2));
                    assert(views_of(Seq::<Note>::empty()) =~= Seq::<crate::model::NoteView>::empty());
                }
                let empty: Vec<Note> = Vec::new();
                return Some(empty);
            }
            // the input starts with `[]` but goes on: it is neither the
            // empty array nor a bracketed list
            proof {
                assert(j != n);
                assert(s@.len() != 2);
                assert(s@ != "[]"@);
                assert(s@.take(2) == "[]"@);
                assert(s@.take(2)[1] == s@[1]);
                assert(s@[1] == ']');
                if peel("[\n"@, s@) is Some {
                    assert(s@.take(2) == "[\n"@);
                    assert(s@[1] == '\n');
                    assert(false);
                }
            }
            return None;
        },
        None => {},
    }
    proof {
        if s@ == "[]"@ {
            assert(s@.len() == 2);
            assert(s@.skip(0).take(2) =~= s@);
            assert(peel("[]"@, s@.skip(0)) is Some);
            assert(false);
        }
    }
    let i1 = match exec_peel(s, 0, "[\n") {
        Some(j) => j,
        None => {
            return None;
        },
    };
    let (notes, j) = match exec_elems(s, i1, n - i1) {
        Some(p) => p,
        None => {
            proof {
                assert(s@.skip(i1 as int).len() == n - i1);
            }
            return None;
        },
    };
    proof {
        assert(s@.skip(i1 as int).len() == n - i1);
    }
    match exec_peel(s, j, "\n]") {
        Some(j2) => {
            proof {
                assert(s@.skip(j as int).skip(2) == s@.skip(j2 as int));
                assert(s@.skip(j2 as int).len() == s@.len() - j2);
                assert(s@.skip(j as int).skip(2).len() == s@.skip(j as int).len() - 2);
            }
            if j2 == n {
                proof {
                    assert(s@.skip(j as int).len() == 2);
                    assert(s@.skip(j as int).take(2) == "\n]"@);
                    assert(s@.skip(j as int) =~= s@.skip(j as int).take(2));
                }
                Some(notes)
            } else {
                proof {
                    assert(s@.skip(j as int).len() > 2);
                }
                None
            }
        },
        None => {
            proof {
                if s@.skip(j as int) == "\n]"@ {
                    assert("\n]"@.take(2) =~= "\n]"@);
                    assert(peel("\n]"@, s@.skip(j as int)) is Some);
                    assert(false);
                }
            }
            None
        },
    }
}

} // verus!
