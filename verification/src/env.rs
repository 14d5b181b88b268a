//! Parsing of the secret file: a single line of the form `TOKEN=<value>`.

use vstd::prelude::*;
use crate::codec::push_char;

verus! {

/// The error returned when the secret file's contents are not of the
/// expected `TOKEN=<value>` form.
#[derive(Debug, Clone, Copy, PartialEq, Eq, Structural)]
pub enum EnvError {
    InvalidFormat,
}

impl EnvError {
    /// A human-readable description of the error.
    pub fn message(&self) -> (r: String)
        ensures
            r@ == "Invalid .env format: expected 'TOKEN=...'"@,
    {
        String::from_str("Invalid .env format: expected 'TOKEN=...'")
    }
}

/// The characters stripped from either end of the secret line: the
/// Unicode White_Space set, as `str::trim` strips it.
pub open spec fn is_ws(c: char) -> bool {
    c == '\t' || c == '\n' || c == '\u{b}' || c == '\u{c}' || c == '\r' || c == ' '
        || c == '\u{85}' || c == '\u{a0}' || c == '\u{1680}'
        || (0x2000 <= c as u32 && c as u32 <= 0x200a)
        || c == '\u{2028}' || c == '\u{2029}' || c == '\u{202f}' || c == '\u{205f}'
        || c == '\u{3000}'
}

/// The input with leading whitespace removed.
pub open spec fn trim_front(s: Seq<char>) -> Seq<char>
    decreases s.len(),
{
    if s.len() > 0 && is_ws(s[0]) {
        trim_front(s.skip(1))
    } else {
        s
    }
}

/// The input with trailing whitespace removed.
pub open spec fn trim_back(s: Seq<char>) -> Seq<char>
    decreases s.len(),
{
    if s.len() > 0 && is_ws(s[s.len() - 1]) {
        trim_back(s.take(s.len() - 1))
    } else {
        s
    }
}

/// The input with whitespace removed from both ends.
pub open spec fn trim(s: Seq<char>) -> Seq<char> {
    trim_back(trim_front(s))
}

/// Whether the trimmed secret line is well formed: the `TOKEN=` prefix
/// followed by a non-empty value.
pub open spec fn valid_env_line(s: Seq<char>) -> bool {
    trim(s).len() > 6 && trim(s).take(6) == "TOKEN="@
}

/// The token carried by a well-formed secret line.
pub open spec fn env_token(s: Seq<char>) -> Seq<char> {
    trim(s).skip(6)
}

proof fn lemma_trim_front_step(s: Seq<char>, i: int)
    requires
        0 <= i < s.len(),
        is_ws(s[i]),
        forall|j: int| 0 <= j < i ==> is_ws(s[j]),
    ensures
        trim_front(s.skip(i)) == trim_front(s.skip(i + 1)),
{
    assert(s.skip(i)[0] == s[i]);
    assert(s.skip(i).skip(1) =~= s.skip(i + 1));
}

proof fn lemma_trim_front_stop(s: Seq<char>, i: int)
    requires
        0 <= i <= s.len(),
        i < s.len() ==> !is_ws(s[i]),
    ensures
        trim_front(s.skip(i)) == s.skip(i),
{
    if s.skip(i).len() > 0 {
        assert(s.skip(i)[0] == s[i]);
    }
}

proof fn lemma_trim_back_step(s: Seq<char>, b: int)
    requires
        0 < b <= s.len(),
        is_ws(s[b - 1]),
        forall|j: int| b <= j < s.len() ==> is_ws(s[j]),
    ensures
        trim_back(s.take(b)) == trim_back(s.take(b - 1)),
{
    assert(s.take(b)[b - 1] == s[b - 1]);
    assert(s.take(b).take(b - 1) =~= s.take(b - 1));
}

proof fn lemma_trim_back_stop(s: Seq<char>, b: int)
    requires
        0 <= b <= s.len(),
        b > 0 ==> !is_ws(s[b - 1]),
    ensures
        trim_back(s.take(b)) == s.take(b),
{
    if s.take(b).len() > 0 {
        assert(s.take(b)[b - 1] == s[b - 1]);
    }
}

/// Removes the whitespace from both ends of `s`, as `trim` describes.
pub fn trim_str(s: &str) -> (r: String)
    ensures
        r@ == trim(s@),
{
    let n = s.unicode_len();
    proof {
        assert(s@.skip(0) =~= s@);
    }
    let mut a: usize = 0;
    while a < n && is_ws_exec(s.get_char(a))
        invariant
            0 <= a <= n,
            n == s@.len(),
            forall|j: int| 0 <= j < a ==> is_ws(s@[j]),
            trim_front(s@) == trim_front(s@.skip(a as int)),
        decreases n - a,
    {
        proof {
            lemma_trim_front_step(s@, a as int);
        }
        a = a + 1;
    }
    proof {
        lemma_trim_front_stop(s@, a as int);
    }
    // trim_front(s@) == s@.skip(a)
    proof {
        assert(s@.skip(a as int).take(n - a) =~= s@.skip(a as int));
    }
    let mut b: usize = n;
    while b > a && is_ws_exec(s.get_char(b - 1))
        invariant
            a <= b <= n,
            n == s@.len(),
            trim_front(s@) == s@.skip(a as int),
            forall|j: int| 0 <= j < a ==> is_ws(s@[j]),
            forall|j: int| b <= j < n ==> is_ws(s@[j]),
            trim_back(s@.skip(a as int)) == trim_back(s@.skip(a as int).take(b - a)),
        decreases b,
    {
        proof {
            let t = s@.skip(a as int);
            assert(t[b - a - 1] == s@[b - 1]);
            lemma_trim_back_step(t, b - a);
        }
        b = b - 1;
    }
    proof {
        let t = s@.skip(a as int);
        if b > a {
            assert(t[b - a - 1] == s@[b - 1]);
        }
        lemma_trim_back_stop(t, b - a);
    }
    let mut out = String::new();
    let mut i: usize = a;
    while i < b
        invariant
            a <= i <= b <= n,
            n == s@.len(),
            out@ == s@.skip(a as int).take(b - a).take(i - a),
        decreases b - i,
    {
        push_char(&mut out, s.get_char(i));
        proof {
            let t = s@.skip(a as int).take(b - a);
            assert(t.take(i + 1 - a) =~= t.take(i - a).push(s@[i as int]));
        }
        i = i + 1;
    }
    proof {
        let t = s@.skip(a as int).take(b - a);
        assert(t.take(b - a) =~= t);
    }
    out
}

/// Whether `c` is one of the trimmed whitespace characters.
pub fn is_ws_exec(c: char) -> (r: bool)
    ensures
        r == is_ws(c),
{
    c == '\t' || c == '\n' || c == '\u{b}' || c == '\u{c}' || c == '\r' || c == ' '
        || c == '\u{85}' || c == '\u{a0}' || c == '\u{1680}'
        || (0x2000 <= c as u32 && c as u32 <= 0x200a)
        || c == '\u{2028}' || c == '\u{2029}' || c == '\u{202f}' || c == '\u{205f}'
        || c == '\u{3000}'
}

/// Extracts the bearer token from the contents of the secret file.
///
/// Succeeds exactly when the trimmed contents start with `TOKEN=` and a
/// non-empty value follows; the value is returned unchanged.
pub fn parse_env_token(contents: &str) -> (r: Result<String, EnvError>)
    ensures
        valid_env_line(contents@) <==> r is Ok,
        r matches Ok(t) ==> t@ == env_token(contents@),
        !valid_env_line(contents@) ==> r == Result::<String, EnvError>::Err(EnvError::InvalidFormat),
{
    let line = trim_str(contents);
    proof {
        reveal_strlit("TOKEN=");
    }
    let n = line.as_str().unicode_len();
    if n <= 6 {
        proof {
            if valid_env_line(contents@) {
                assert(trim(contents@).len() > 6);
            }
        }
        return Err(EnvError::InvalidFormat);
    }
    let p = "TOKEN=";
    let mut i: usize = 0;
    while i < 6
        invariant
            0 <= i <= 6,
            n == line@.len() > 6,
            line@ == trim(contents@),
            p@ == "TOKEN="@,
            p@.len() == 6,
            forall|j: int| 0 <= j < i ==> line@[j] == p@[j],
        decreases 6 - i,
    {
        if line.as_str().get_char(i) != p.get_char(i) {
            proof {
                assert(trim(contents@).take(6)[i as int] != "TOKEN="@[i as int]);
            }
            return Err(EnvError::InvalidFormat);
        }
        i = i + 1;
    }
    proof {
        assert(trim(contents@).take(6) =~= "TOKEN="@);
    }
    let mut token = String::new();
    let mut k: usize = 6;
    while k < n
        invariant
            6 <= k <= n,
            n == line@.len(),
            token@ == line@.skip(6).take(k - 6),
        decreases n - k,
    {
        push_char(&mut token, line.as_str().get_char(k));
        proof {
            let t = line@.skip(6);
            assert(t.take(k + 1 - 6) =~= t.take(k - 6).push(line@[k as int]));
        }
        k = k + 1;
    }
    proof {
        assert(line@.skip(6).take(n - 6) =~= line@.skip(6));
    }
    Ok(token)
}

} // verus!
