//! Parsing a 32-byte transport key from its hexadecimal text form:
//! surrounding whitespace is trimmed, an optional `0x` prefix is stripped,
//! and exactly 64 hex digits are accepted.

use vstd::prelude::*;
use vstd::string::StrSliceExecFns;

verus! {

/// Whitespace the parser trims.
pub open spec fn is_space_char(c: char) -> bool {
    c == ' ' || c == '\t' || c == '\n' || c == '\r'
}

/// A hexadecimal digit.
pub open spec fn is_hex_digit(c: char) -> bool {
    (48 <= c as u32 <= 57) || (97 <= c as u32 <= 102) || (65 <= c as u32 <= 70)
}

/// The value of a hexadecimal digit.
pub open spec fn hex_val(c: char) -> int {
    if 48 <= c as u32 <= 57 {
        c as u32 - 48
    } else if 97 <= c as u32 <= 102 {
        c as u32 - 87
    } else {
        c as u32 - 55
    }
}

/// `a` is the end of the leading whitespace.
pub open spec fn is_lead(s: Seq<char>, a: int) -> bool {
    &&& 0 <= a <= s.len()
    &&& forall|m: int| 0 <= m < a ==> is_space_char(#[trigger] s[m])
    &&& a < s.len() ==> !is_space_char(s[a])
}

/// `b` is the start of the trailing whitespace.
pub open spec fn is_tail(s: Seq<char>, b: int) -> bool {
    &&& 0 <= b <= s.len()
    &&& forall|m: int| b <= m < s.len() ==> is_space_char(#[trigger] s[m])
    &&& b > 0 ==> !is_space_char(s[b - 1])
}

/// The end of the leading whitespace.
pub open spec fn lead_ws(s: Seq<char>) -> int {
    choose|a: int| #[trigger] is_lead(s, a)
}

/// The start of the trailing whitespace.
pub open spec fn tail_ws(s: Seq<char>) -> int {
    choose|b: int| #[trigger] is_tail(s, b)
}

/// The text with surrounding whitespace removed.
pub open spec fn trimmed(s: Seq<char>) -> Seq<char> {
    if lead_ws(s) <= tail_ws(s) {
        s.subrange(lead_ws(s), tail_ws(s))
    } else {
        Seq::empty()
    }
}

/// The text with an optional `0x` prefix removed.
pub open spec fn strip0x(t: Seq<char>) -> Seq<char> {
    if t.len() >= 2 && t[0] == '0' && t[1] == 'x' {
        t.subrange(2, t.len() as int)
    } else {
        t
    }
}

/// The effective digit text of a key string.
pub open spec fn key_digits(s: Seq<char>) -> Seq<char> {
    strip0x(trimmed(s))
}

/// Whether the string is a well-formed 64-digit hexadecimal key.
pub open spec fn hex_key_ok(s: Seq<char>) -> bool {
    &&& key_digits(s).len() == 64
    &&& forall|i: int| 0 <= i < 64 ==> is_hex_digit(#[trigger] key_digits(s)[i])
}

/// The `i`-th key byte of a well-formed key string.
pub open spec fn key_byte(s: Seq<char>, i: int) -> int {
    16 * hex_val(key_digits(s)[2 * i]) + hex_val(key_digits(s)[2 * i + 1])
}

/// A witness of `is_lead` is `lead_ws`.
proof fn lemma_lead_is(s: Seq<char>, a: int)
    requires
        is_lead(s, a),
    ensures
        lead_ws(s) == a,
{
    let w = lead_ws(s);
    assert(is_lead(s, w));
    if w < a {
        assert(is_space_char(s[w]));
    } else if w > a {
        assert(is_space_char(s[a]));
    }
}

/// A witness of `is_tail` is `tail_ws`.
proof fn lemma_tail_is(s: Seq<char>, b: int)
    requires
        is_tail(s, b),
    ensures
        tail_ws(s) == b,
{
    let w = tail_ws(s);
    assert(is_tail(s, w));
    if w < b {
        assert(is_space_char(s[b - 1]));
    } else if w > b {
        assert(is_space_char(s[w - 1]));
    }
}

/// Whether a character is trimmed whitespace.
fn is_space_exec(c: char) -> (r: bool)
    ensures
        r == is_space_char(c),
{
    c == ' ' || c == '\t' || c == '\n' || c == '\r'
}

/// The value of a hex digit, or nothing.
fn hex_val_exec(c: char) -> (r: Option<u8>)
    ensures
        r matches Some(v) ==> is_hex_digit(c) && v == hex_val(c) && v <= 15,
        r is None ==> !is_hex_digit(c),
{
    let u = c as u32;
    if 48 <= u && u <= 57 {
        Some((u - 48) as u8)
    } else if 97 <= u && u <= 102 {
        Some((u - 87) as u8)
    } else if 65 <= u && u <= 70 {
        Some((u - 55) as u8)
    } else {
        None
    }
}

/// Parses a 32-byte key from 64 hexadecimal digits, with surrounding
/// whitespace and an optional `0x` prefix tolerated. Returns the bytes
/// exactly when the effective text is 64 hex digits, and an error message
/// otherwise.
pub fn parse_hex_key(s: &str) -> (r: Result<Vec<u8>, String>)
    ensures
        hex_key_ok(s@) ==> r is Ok,
        !hex_key_ok(s@) ==> r is Err,
        r matches Ok(v) ==> v@.len() == 32 && forall|i: int|
            0 <= i < 32 ==> #[trigger] v@[i] == key_byte(s@, i),
{
    let n: usize = s.unicode_len();
    // Leading whitespace.
    let mut a: usize = 0;
    while a < n && is_space_exec(s.get_char(a))
        invariant
            n == s@.len(),
            0 <= a <= n,
            forall|m: int| 0 <= m < a ==> is_space_char(#[trigger] s@[m]),
        decreases n - a,
    {
        a = a + 1;
    }
    proof {
        lemma_lead_is(s@, a as int);
    }
    // Trailing whitespace.
    let mut b: usize = n;
    while b > 0 && is_space_exec(s.get_char(b - 1))
        invariant
            n == s@.len(),
            0 <= b <= n,
            forall|m: int| b <= m < n ==> is_space_char(#[trigger] s@[m]),
        decreases b,
    {
        b = b - 1;
    }
    proof {
        lemma_tail_is(s@, b as int);
    }
    if a > b {
        proof {
            assert(key_digits(s@).len() == 0);
        }
        return Err("the hex key must hold 64 digits".to_owned());
    }
    let ghost t = s@.subrange(a as int, b as int);
    // Optional 0x prefix.
    let start: usize = if b - a >= 2 && s.get_char(a) == '0' && s.get_char(a + 1) == 'x' {
        a + 2
    } else {
        a
    };
    proof {
        assert(trimmed(s@) == t);
        if start > a {
            assert(t.len() >= 2 && t[0] == '0' && t[1] == 'x');
            assert(key_digits(s@) =~= s@.subrange(start as int, b as int));
        } else {
            if t.len() >= 2 && t[0] == '0' && t[1] == 'x' {
                assert(s@[a as int] == '0' && s@[a + 1 as int] == 'x');
            }
            assert(key_digits(s@) =~= s@.subrange(start as int, b as int));
        }
    }
    let count = b - start;
    if count != 64 {
        return Err("the hex key must hold 64 digits".to_owned());
    }
    let mut out: Vec<u8> = Vec::new();
    let mut i: usize = 0;
    while i < 32
        invariant
            n == s@.len(),
            0 <= i <= 32,
            start + 64 == b <= n,
            key_digits(s@) =~= s@.subrange(start as int, b as int),
            out@.len() == i,
            forall|m: int| 0 <= m < i ==> #[trigger] out@[m] == key_byte(s@, m),
            forall|m: int|
                0 <= m < 2 * i ==> is_hex_digit(#[trigger] key_digits(s@)[m]),
        decreases 32 - i,
    {
        let c1 = s.get_char(start + 2 * i);
        let c2 = s.get_char(start + 2 * i + 1);
        proof {
            assert(key_digits(s@)[2 * i as int] == s@[start + 2 * i as int]);
            assert(key_digits(s@)[2 * i + 1 as int] == s@[start + 2 * i + 1 as int]);
        }
        let h1 = hex_val_exec(c1);
        let h2 = hex_val_exec(c2);
        if h1.is_none() || h2.is_none() {
            proof {
                if h1.is_none() {
                    assert(!is_hex_digit(key_digits(s@)[2 * i as int]));
                } else {
                    assert(!is_hex_digit(key_digits(s@)[2 * i + 1 as int]));
                }
            }
            return Err("the hex key holds a character that is no hex digit".to_owned());
        }
        let v1 = h1.unwrap();
        let v2 = h2.unwrap();
        out.push(16 * v1 + v2);
        i = i + 1;
    }
    Ok(out)
}

} // verus!
