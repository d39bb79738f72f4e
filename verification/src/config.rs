//! Parsing of configuration values as they arrive from the environment:
//! booleans, unsigned numbers, and the download speed limit with its
//! `mb/s` / `kb/s` suffixes. Reading the environment itself happens
//! outside the library; these functions decide what a value means.

use vstd::prelude::*;

verus! {

/// An ASCII decimal digit.
pub open spec fn is_ascii_digit(c: char) -> bool {
    '0' <= c && c <= '9'
}

/// The numeric value of a digit.
pub open spec fn digit_val(c: char) -> int {
    c as int - '0' as int
}

/// The number the digit string denotes.
pub open spec fn digits_val(s: Seq<char>) -> int
    decreases s.len(),
{
    if s.len() == 0 {
        0
    } else {
        digits_val(s.drop_last()) * 10 + digit_val(s.last())
    }
}

pub open spec fn all_digits(s: Seq<char>) -> bool {
    forall|i: int| 0 <= i < s.len() ==> is_ascii_digit(#[trigger] s[i])
}

/// The digits of a number string, a single leading `+` allowed.
pub open spec fn u64_body(s: Seq<char>) -> Seq<char> {
    if s.len() > 0 && s.first() == '+' {
        s.drop_first()
    } else {
        s
    }
}

/// What `u64` accepts: at least one digit after an optional `+`, within
/// range.
pub open spec fn valid_u64_str(s: Seq<char>) -> bool {
    &&& u64_body(s).len() >= 1
    &&& all_digits(u64_body(s))
    &&& digits_val(u64_body(s)) <= u64::MAX
}

proof fn lemma_digits_val_nonneg(s: Seq<char>)
    requires
        all_digits(s),
    ensures
        digits_val(s) >= 0,
    decreases s.len(),
{
    if s.len() > 0 {
        assert forall|i: int|
            0 <= i < s.drop_last().len() implies is_ascii_digit(#[trigger] s.drop_last()[i]) by {
            assert(s.drop_last()[i] == s[i]);
        }
        lemma_digits_val_nonneg(s.drop_last());
        let v = digits_val(s.drop_last());
        assert(v * 10 >= 0) by (nonlinear_arith)
            requires
                v >= 0,
        ;
    }
}

/// Extending a digit string never shrinks its value.
proof fn lemma_digits_val_prefix_le(s: Seq<char>, i: int)
    requires
        0 <= i <= s.len(),
        all_digits(s),
    ensures
        digits_val(s.take(i)) <= digits_val(s),
    decreases s.len() - i,
{
    if i < s.len() {
        assert(s.take(i + 1).drop_last() =~= s.take(i));
        assert(s.take(i + 1).last() == s[i]);
        assert forall|j: int|
            0 <= j < s.take(i).len() implies is_ascii_digit(#[trigger] s.take(i)[j]) by {
            assert(s.take(i)[j] == s[j]);
        }
        lemma_digits_val_nonneg(s.take(i));
        let v = digits_val(s.take(i));
        assert(v * 10 >= v) by (nonlinear_arith)
            requires
                v >= 0,
        ;
        assert(digits_val(s.take(i + 1)) >= digits_val(s.take(i)));
        lemma_digits_val_prefix_le(s, i + 1);
    } else {
        assert(s.take(i) =~= s);
    }
}

/// Parses an unsigned number the way `u64` does: an optional leading `+`,
/// then decimal digits, within range — or nothing.
pub fn parse_u64(s: &str) -> (r: Option<u64>)
    ensures
        (r is Some) <==> valid_u64_str(s@),
        r matches Some(v) ==> v == digits_val(u64_body(s@)),
{
    let n = s.unicode_len();
    let start: usize = if n > 0 && s.get_char(0) == '+' {
        1
    } else {
        0
    };
    let ghost body = u64_body(s@);
    proof {
        assert(body =~= s@.subrange(start as int, n as int));
    }
    if start == n {
        return None;
    }
    let mut val: u64 = 0;
    let mut i: usize = start;
    proof {
        assert(body.take(0) =~= Seq::empty());
    }
    while i < n
        invariant
            n == s@.len(),
            start <= i <= n,
            start < n,
            body == u64_body(s@),
            body =~= s@.subrange(start as int, n as int),
            all_digits(body.take(i - start)),
            val == digits_val(body.take(i - start)),
        decreases n - i,
    {
        let c = s.get_char(i);
        let cv = c as u32;
        proof {
            assert(body.take(i - start + 1).drop_last() =~= body.take(i - start));
            assert(body.take(i - start + 1).last() == s@[i as int]);
        }
        if cv < 48 || cv > 57 {
            proof {
                assert(!is_ascii_digit(s@[i as int]));
                assert(body[i - start] == s@[i as int]);
            }
            return None;
        }
        let d: u64 = (cv - 48) as u64;
        proof {
            assert(is_ascii_digit(s@[i as int]));
            assert(digit_val(s@[i as int]) == d);
        }
        let next = match val.checked_mul(10) {
            Some(v10) => v10.checked_add(d),
            None => None,
        };
        match next {
            Some(v) => {
                val = v;
            },
            None => {
                proof {
                    assert(digits_val(body.take(i - start + 1)) > u64::MAX);
                    if valid_u64_str(s@) {
                        lemma_digits_val_prefix_le(body, i - start + 1);
                    }
                }
                return None;
            },
        }
        i += 1;
    }
    proof {
        assert(body.take(n - start) =~= body);
    }
    Some(val)
}

/// Parses a boolean the way `bool` does: exactly `"true"` or `"false"`.
pub fn parse_bool(s: &str) -> (r: Option<bool>)
    ensures
        (r == Some(true)) <==> s@ == "true"@,
        (r == Some(false)) <==> s@ == "false"@,
        (r is None) <==> (s@ != "true"@ && s@ != "false"@),
{
    proof {
        reveal_strlit("true");
        reveal_strlit("false");
        assert("true"@.len() == 4);
        assert("false"@.len() == 5);
        assert("true"@ != "false"@);
    }
    let owned = String::from_str(s);
    if owned == String::from_str("true") {
        Some(true)
    } else if owned == String::from_str("false") {
        Some(false)
    } else {
        None
    }
}

/// ASCII whitespace, as far as trimming here is concerned.
pub open spec fn is_ws(c: char) -> bool {
    c == ' ' || c == '\t' || c == '\n' || c == '\r'
}

pub open spec fn trim_start_spec(s: Seq<char>) -> Seq<char>
    decreases s.len(),
{
    if s.len() > 0 && is_ws(s.first()) {
        trim_start_spec(s.drop_first())
    } else {
        s
    }
}

pub open spec fn trim_end_spec(s: Seq<char>) -> Seq<char>
    decreases s.len(),
{
    if s.len() > 0 && is_ws(s.last()) {
        trim_end_spec(s.drop_last())
    } else {
        s
    }
}

/// The string with ASCII whitespace removed from both ends.
pub open spec fn trim_spec(s: Seq<char>) -> Seq<char> {
    trim_end_spec(trim_start_spec(s))
}

proof fn lemma_trim_start_at(s: Seq<char>, a: int)
    requires
        0 <= a <= s.len(),
        forall|j: int| 0 <= j < a ==> is_ws(#[trigger] s[j]),
        a < s.len() ==> !is_ws(s[a]),
    ensures
        trim_start_spec(s) == s.subrange(a, s.len() as int),
    decreases a,
{
    if a == 0 {
        if s.len() > 0 {
            assert(!is_ws(s.first()));
        }
        assert(trim_start_spec(s) =~= s.subrange(0, s.len() as int));
    } else {
        assert(is_ws(s.first()));
        let d = s.drop_first();
        assert forall|j: int| 0 <= j < a - 1 implies is_ws(#[trigger] d[j]) by {
            assert(d[j] == s[j + 1]);
        }
        if a - 1 < d.len() {
            assert(d[a - 1] == s[a]);
        }
        lemma_trim_start_at(d, a - 1);
        assert(d.subrange(a - 1, d.len() as int) =~= s.subrange(a, s.len() as int));
    }
}

proof fn lemma_trim_end_at(s: Seq<char>, b: int)
    requires
        0 <= b <= s.len(),
        forall|j: int| b <= j < s.len() ==> is_ws(#[trigger] s[j]),
        b > 0 ==> !is_ws(s[b - 1]),
    ensures
        trim_end_spec(s) == s.subrange(0, b),
    decreases s.len() - b,
{
    if b == s.len() {
        if s.len() > 0 {
            assert(!is_ws(s.last()));
        }
        assert(trim_end_spec(s) =~= s.subrange(0, b));
    } else {
        assert(is_ws(s.last()));
        let d = s.drop_last();
        assert forall|j: int| b <= j < d.len() implies is_ws(#[trigger] d[j]) by {
            assert(d[j] == s[j]);
        }
        if b > 0 {
            assert(d[b - 1] == s[b - 1]);
        }
        lemma_trim_end_at(d, b);
        assert(d.subrange(0, b) =~= s.subrange(0, b));
    }
}

/// Whether the character at `i` is ASCII whitespace.
fn ws_at(s: &str, i: usize) -> (r: bool)
    requires
        i < s@.len(),
    ensures
        r == is_ws(s@[i as int]),
{
    let c = s.get_char(i);
    c == ' ' || c == '\t' || c == '\n' || c == '\r'
}

/// Trims ASCII whitespace from both ends.
pub fn trim_ascii<'a>(s: &'a str) -> (r: &'a str)
    ensures
        r@ == trim_spec(s@),
{
    let n = s.unicode_len();
    let mut a: usize = 0;
    while a < n && ws_at(s, a)
        invariant
            n == s@.len(),
            a <= n,
            forall|j: int| 0 <= j < a ==> is_ws(#[trigger] s@[j]),
        decreases n - a,
    {
        a += 1;
    }
    proof {
        lemma_trim_start_at(s@, a as int);
    }
    let mut b: usize = n;
    while b > a && ws_at(s, b - 1)
        invariant
            n == s@.len(),
            a <= b <= n,
            a < n ==> !is_ws(s@[a as int]),
            forall|j: int| b <= j < n ==> is_ws(#[trigger] s@[j]),
        decreases b,
    {
        b -= 1;
    }
    let r = s.substring_char(a, b);
    proof {
        let t = trim_start_spec(s@);
        assert(t == s@.subrange(a as int, n as int));
        assert forall|j: int| b - a <= j < t.len() implies is_ws(#[trigger] t[j]) by {
            assert(t[j] == s@[j + a]);
        }
        if b > a {
            assert(t[b - a - 1] == s@[b as int - 1]);
        }
        lemma_trim_end_at(t, b - a);
        assert(t.subrange(0, b - a) =~= s@.subrange(a as int, b as int));
    }
    r
}

/// The ASCII-lowered counterpart of a character.
pub open spec fn lower_char(c: char) -> char {
    if 'A' <= c && c <= 'Z' {
        (((c as u8) + 32) as u8) as char
    } else {
        c
    }
}

/// The string lowered character by character, ASCII letters only.
pub open spec fn lower_spec(s: Seq<char>) -> Seq<char> {
    s.map_values(|c: char| lower_char(c))
}

/// Relies on `String::push`: appends exactly the given character.
#[verifier::external_body]
fn push_char(s: &mut String, c: char)
    ensures
        final(s)@ == old(s)@.push(c),
{
    s.push(c);
}

/// Lowers ASCII letters; other characters pass through unchanged.
pub fn ascii_lower(s: &str) -> (r: String)
    ensures
        r@ == lower_spec(s@),
{
    let n = s.unicode_len();
    let mut out = String::new();
    let mut i: usize = 0;
    while i < n
        invariant
            n == s@.len(),
            i <= n,
            out@.len() == i,
            forall|j: int| 0 <= j < i ==> out@[j] == lower_char(#[trigger] s@[j]),
        decreases n - i,
    {
        let c = s.get_char(i);
        let lowered: char = if c >= 'A' && c <= 'Z' {
            (((c as u8) + 32) as u8) as char
        } else {
            c
        };
        push_char(&mut out, lowered);
        i += 1;
    }
    proof {
        assert(out@ =~= lower_spec(s@));
    }
    out
}

/// Whether `s` ends with `suf`.
pub open spec fn ends_with_spec(s: Seq<char>, suf: Seq<char>) -> bool {
    s.len() >= suf.len() && s.subrange(s.len() - suf.len(), s.len() as int) == suf
}

fn ends_with(s: &str, suf: &str) -> (r: bool)
    ensures
        r == ends_with_spec(s@, suf@),
{
    let n = s.unicode_len();
    let m = suf.unicode_len();
    if n < m {
        return false;
    }
    let mut i: usize = 0;
    while i < m
        invariant
            n == s@.len(),
            m == suf@.len(),
            m <= n,
            i <= m,
            forall|j: int| 0 <= j < i ==> s@[n - m + j] == suf@[j],
        decreases m - i,
    {
        if s.get_char(n - m + i) != suf.get_char(i) {
            proof {
                assert(s@.subrange(n - m, n as int)[i as int] != suf@[i as int]);
            }
            return false;
        }
        i += 1;
    }
    proof {
        assert(s@.subrange(n - m, n as int) =~= suf@);
    }
    true
}

/// The string with every copy of `suf` peeled off its end, as repeated
/// suffix trimming leaves it.
pub open spec fn strip_all_suffix(s: Seq<char>, suf: Seq<char>) -> Seq<char>
    decreases s.len(),
{
    if suf.len() > 0 && ends_with_spec(s, suf) {
        strip_all_suffix(s.subrange(0, s.len() - suf.len()), suf)
    } else {
        s
    }
}

fn strip_all_suffix_exec<'a>(s: &'a str, suf: &str) -> (r: &'a str)
    requires
        suf@.len() > 0,
    ensures
        r@ == strip_all_suffix(s@, suf@),
{
    let m = suf.unicode_len();
    let mut cur: &str = s;
    while ends_with(cur, suf)
        invariant
            m == suf@.len(),
            m > 0,
            strip_all_suffix(cur@, suf@) == strip_all_suffix(s@, suf@),
        decreases cur@.len(),
    {
        let n = cur.unicode_len();
        cur = cur.substring_char(0, n - m);
    }
    cur
}

/// What the download speed limit string means, in bytes per second: a
/// plain number, or one suffixed `mb/s`/`mbs` or `kb/s`/`kbs` (after
/// trimming and ASCII-lowering), scaled accordingly; nothing when the
/// number is malformed or the scaling leaves `u64`.
pub open spec fn speed_limit_spec(v: Seq<char>) -> Option<u64> {
    let t = lower_spec(trim_spec(v));
    if ends_with_spec(t, "mb/s"@) || ends_with_spec(t, "mbs"@) {
        let u = trim_spec(strip_all_suffix(strip_all_suffix(t, "mb/s"@), "mbs"@));
        if valid_u64_str(u) && digits_val(u64_body(u)) * 1048576 <= u64::MAX {
            Some((digits_val(u64_body(u)) * 1048576) as u64)
        } else {
            None
        }
    } else if ends_with_spec(t, "kb/s"@) || ends_with_spec(t, "kbs"@) {
        let u = trim_spec(strip_all_suffix(strip_all_suffix(t, "kb/s"@), "kbs"@));
        if valid_u64_str(u) && digits_val(u64_body(u)) * 1024 <= u64::MAX {
            Some((digits_val(u64_body(u)) * 1024) as u64)
        } else {
            None
        }
    } else {
        if valid_u64_str(t) {
            Some(digits_val(u64_body(t)) as u64)
        } else {
            None
        }
    }
}

/// Parses the download speed limit: `"10mb/s"`, `"512 kb/s"` or a plain
/// byte count, case-insensitively.
pub fn parse_speed_limit(v: &str) -> (r: Option<u64>)
    ensures
        r == speed_limit_spec(v@),
{
    proof {
        reveal_strlit("mb/s");
        reveal_strlit("mbs");
        reveal_strlit("kb/s");
        reveal_strlit("kbs");
    }
    let trimmed = trim_ascii(v);
    let t = ascii_lower(trimmed);
    let ts = t.as_str();
    if ends_with(ts, "mb/s") || ends_with(ts, "mbs") {
        let stripped = strip_all_suffix_exec(strip_all_suffix_exec(ts, "mb/s"), "mbs");
        let u = trim_ascii(stripped);
        match parse_u64(u) {
            Some(mb) => mb.checked_mul(1048576),
            None => None,
        }
    } else if ends_with(ts, "kb/s") || ends_with(ts, "kbs") {
        let stripped = strip_all_suffix_exec(strip_all_suffix_exec(ts, "kb/s"), "kbs");
        let u = trim_ascii(stripped);
        match parse_u64(u) {
            Some(kb) => kb.checked_mul(1024),
            None => None,
        }
    } else {
        parse_u64(ts)
    }
}

} // verus!
