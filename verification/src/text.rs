//! Small verified helpers on characters and strings, and the trusted
//! declarations for the few `std` string operations that vstd leaves
//! unspecified.

use vstd::prelude::*;
use vstd::string::*;

verus! {

/// Relies on `String::push`: appends exactly the given character.
#[verifier::external_body]
pub(crate) fn push_char(s: &mut String, c: char)
    ensures
        final(s)@ == old(s)@.push(c),
{
    s.push(c);
}

/// Compares two string slices character by character.
pub fn str_eq(a: &str, b: &str) -> (r: bool)
    ensures
        r == (a@ == b@),
{
    let alen = a.unicode_len();
    let blen = b.unicode_len();
    if alen != blen {
        return false;
    }
    let mut i: usize = 0;
    while i < alen
        invariant
            0 <= i <= alen,
            alen == a@.len(),
            blen == b@.len(),
            alen == blen,
            forall|j: int| 0 <= j < i ==> a@[j] == b@[j],
        decreases alen - i,
    {
        if a.get_char(i) != b.get_char(i) {
            return false;
        }
        i = i + 1;
    }
    proof {
        assert(a@ =~= b@);
    }
    true
}

// ---------------------------------------------------------------------------
// Trusted character classes and lossy decoding
// ---------------------------------------------------------------------------
/// Whether `char::is_alphanumeric` holds of the character.
pub uninterp spec fn unicode_alphanumeric(c: char) -> bool;

/// Relies on `char::is_alphanumeric`: the answer depends on the character
/// alone; ASCII letters and digits are alphanumeric, while the underscore,
/// the space and the tab are not.
#[verifier::external_body]
pub(crate) fn char_is_alphanumeric(c: char) -> (r: bool)
    ensures
        r == unicode_alphanumeric(c),
        ('a' <= c && c <= 'z') || ('A' <= c && c <= 'Z') || ('0' <= c && c <= '9') ==> r,
        c == '_' || c == ' ' || c == '\t' ==> !r,
{
    c.is_alphanumeric()
}

/// Whether `char::is_whitespace` holds of the character.
pub uninterp spec fn unicode_whitespace(c: char) -> bool;

/// Relies on `char::is_whitespace`: the answer depends on the character
/// alone; space, tab, line feed and carriage return are whitespace, while
/// ASCII letters and digits are not.
#[verifier::external_body]
pub(crate) fn char_is_whitespace(c: char) -> (r: bool)
    ensures
        r == unicode_whitespace(c),
        c == ' ' || c == '\t' || c == '\n' || c == '\r' ==> r,
        ('a' <= c && c <= 'z') || ('A' <= c && c <= 'Z') || ('0' <= c && c <= '9') ==> !r,
{
    c.is_whitespace()
}

/// What lossy UTF-8 decoding makes of a byte sequence.
pub uninterp spec fn lossy_decode(bytes: Seq<u8>) -> Seq<char>;

/// Relies on `String::from_utf8_lossy`: the characters depend on the bytes
/// alone, valid UTF-8 decodes exactly, and no bytes give no characters.
#[verifier::external_body]
pub(crate) fn utf8_lossy(bytes: &Vec<u8>) -> (s: String)
    ensures
        s@ == lossy_decode(bytes@),
        vstd::utf8::valid_utf8(bytes@) ==> s@ == vstd::utf8::decode_utf8(bytes@),
        bytes@.len() == 0 ==> s@.len() == 0,
{
    String::from_utf8_lossy(bytes.as_slice()).into_owned()
}

// ---------------------------------------------------------------------------
// Joining, trimming, line splitting
// ---------------------------------------------------------------------------
/// The words joined by single spaces.
pub open spec fn join_spaces(ws: Seq<Seq<char>>) -> Seq<char>
    decreases ws.len(),
{
    if ws.len() == 0 {
        Seq::empty()
    } else if ws.len() == 1 {
        ws[0]
    } else {
        join_spaces(ws.drop_last()) + seq![' '] + ws.last()
    }
}

/// Joins the strings with single spaces between them.
pub fn join_with_spaces(ws: &Vec<String>) -> (r: String)
    ensures
        r@ == join_spaces(ws.deep_view()),
{
    let n = ws.len();
    let mut r = String::new();
    let ghost wsv = ws.deep_view();
    let mut i: usize = 0;
    while i < n
        invariant
            0 <= i <= n,
            n == ws@.len(),
            wsv == ws.deep_view(),
            wsv.len() == n,
            r@ == join_spaces(wsv.take(i as int)),
        decreases n - i,
    {
        if i > 0 {
            push_char(&mut r, ' ');
        }
        r.append(ws[i].as_str());
        proof {
            let t = wsv.take(i as int + 1);
            assert(t.drop_last() =~= wsv.take(i as int));
            assert(t.last() == wsv[i as int]);
            if i == 0 {
                assert(join_spaces(t) == wsv[0]);
            }
        }
        i = i + 1;
    }
    proof {
        assert(wsv.take(n as int) =~= wsv);
    }
    r
}

/// The number of leading characters of `s` satisfying Unicode whitespace.
pub open spec fn ws_prefix_len(s: Seq<char>) -> nat
    decreases s.len(),
{
    if s.len() > 0 && unicode_whitespace(s[0]) {
        1 + ws_prefix_len(s.drop_first())
    } else {
        0
    }
}

proof fn lemma_ws_prefix_is(s: Seq<char>, e: int)
    requires
        0 <= e <= s.len(),
        forall|k: int| 0 <= k < e ==> unicode_whitespace(#[trigger] s[k]),
        e == s.len() || !unicode_whitespace(s[e]),
    ensures
        ws_prefix_len(s) == e,
    decreases s.len(),
{
    if e > 0 {
        let t = s.drop_first();
        assert(forall|k: int| 0 <= k < e - 1 ==> unicode_whitespace(#[trigger] t[k]));
        lemma_ws_prefix_is(t, e - 1);
    }
}

/// The line with leading and trailing Unicode whitespace removed.
pub open spec fn trim_spec(s: Seq<char>) -> Seq<char> {
    let a = ws_prefix_len(s) as int;
    if a == s.len() {
        Seq::empty()
    } else {
        let b = ws_prefix_len(s.subrange(a, s.len() as int).reverse()) as int;
        s.subrange(a, s.len() - b)
    }
}

/// Removes leading and trailing whitespace.
pub fn trim(s: &str) -> (r: String)
    ensures
        r@ == trim_spec(s@),
{
    let n = s.unicode_len();
    let mut a: usize = 0;
    while a < n && char_is_whitespace(s.get_char(a))
        invariant
            0 <= a <= n,
            n == s@.len(),
            forall|k: int| 0 <= k < a ==> unicode_whitespace(#[trigger] s@[k]),
        decreases n - a,
    {
        a = a + 1;
    }
    proof {
        lemma_ws_prefix_is(s@, a as int);
    }
    if a == n {
        return String::new();
    }
    let mut b: usize = n;
    while b > a && char_is_whitespace(s.get_char(b - 1))
        invariant
            a <= b <= n,
            n == s@.len(),
            a < n,
            !unicode_whitespace(s@[a as int]),
            forall|k: int| b <= k < n ==> unicode_whitespace(#[trigger] s@[k]),
        decreases b,
    {
        b = b - 1;
    }
    let r = s.substring_char(a, b);
    proof {
        let tail = s@.subrange(a as int, n as int).reverse();
        assert(tail.len() == n - a);
        assert forall|k: int| 0 <= k < n - b implies unicode_whitespace(#[trigger] tail[k]) by {
            assert(tail[k] == s@[n - 1 - k]);
        }
        assert(tail[n - b as int] == s@[b - 1]);
        lemma_ws_prefix_is(tail, n - b as int);
    }
    String::from_str(r)
}

// ---------------------------------------------------------------------------
// Decimal numbers
// ---------------------------------------------------------------------------
/// The decimal digit character for a value below ten.
pub open spec fn digit_char(d: int) -> char {
    (48 + d) as u8 as char
}

/// The decimal rendering of a natural number, no leading zeros.
pub open spec fn dec_str(n: nat) -> Seq<char>
    decreases n,
{
    if n < 10 {
        seq![digit_char(n as int)]
    } else {
        dec_str(n / 10).push(digit_char((n % 10) as int))
    }
}

/// Renders a number in decimal.
pub fn usize_to_string(n: usize) -> (s: String)
    ensures
        s@ == dec_str(n as nat),
    decreases n,
{
    if n < 10 {
        let d = (48 + n) as u8;
        let mut s = String::new();
        push_char(&mut s, d as char);
        return s;
    }
    let mut s = usize_to_string(n / 10);
    let d = (48 + (n % 10)) as u8;
    push_char(&mut s, d as char);
    s
}

/// Whether the character is an ASCII digit.
pub open spec fn is_digit(c: char) -> bool {
    '0' <= c && c <= '9'
}

/// The value of a sequence of decimal digits.
pub open spec fn digits_val(s: Seq<char>) -> int
    decreases s.len(),
{
    if s.len() == 0 {
        0
    } else {
        digits_val(s.drop_last()) * 10 + (s.last() as u32 - 48)
    }
}

/// Whether every character is an ASCII digit.
pub open spec fn all_digits(s: Seq<char>) -> bool {
    forall|i: int| 0 <= i < s.len() ==> is_digit(#[trigger] s[i])
}

/// How a string reads as a signed 32-bit integer: an optional sign, then
/// one or more decimal digits, the value within range.
pub open spec fn parse_i32_spec(s: Seq<char>) -> Option<int> {
    let ds = if s.len() > 0 && (s[0] == '-' || s[0] == '+') {
        s.drop_first()
    } else {
        s
    };
    let neg = s.len() > 0 && s[0] == '-';
    if ds.len() == 0 || !all_digits(ds) {
        None
    } else {
        let v = if neg {
            -digits_val(ds)
        } else {
            digits_val(ds)
        };
        if i32::MIN <= v <= i32::MAX {
            Some(v)
        } else {
            None
        }
    }
}

proof fn lemma_digits_val_bounds(s: Seq<char>)
    requires
        forall|i: int| 0 <= i < s.len() ==> is_digit(#[trigger] s[i]),
    ensures
        digits_val(s) >= 0,
        s.len() > 0 ==> digits_val(s) >= digits_val(s.drop_last()),
    decreases s.len(),
{
    if s.len() > 0 {
        assert(forall|i: int|
            0 <= i < s.drop_last().len() ==> is_digit(#[trigger] s.drop_last()[i]));
        lemma_digits_val_bounds(s.drop_last());
    }
}

/// Reads a signed 32-bit integer, as `str::parse::<i32>` does: an optional
/// sign, then decimal digits; anything else, or a value out of range, is
/// rejected.
pub fn parse_i32(s: &str) -> (r: Option<i32>)
    ensures
        match r {
            Some(v) => parse_i32_spec(s@) == Some(v as int),
            None => parse_i32_spec(s@) is None,
        },
{
    let n = s.unicode_len();
    let mut start: usize = 0;
    let mut neg = false;
    if n > 0 {
        let c0 = s.get_char(0);
        if c0 == '-' {
            neg = true;
            start = 1;
        } else if c0 == '+' {
            start = 1;
        }
    }
    let ghost ds = if start == 1 {
        s@.drop_first()
    } else {
        s@
    };
    if start >= n {
        return None;
    }
    let bound: i64 = 0x8000_0000i64;
    let mut acc: i64 = 0;
    let mut i: usize = start;
    while i < n
        invariant
            start <= i <= n,
            n == s@.len(),
            start == 0 || start == 1,
            start < n,
            bound == 0x8000_0000i64,
            (start == 1) == (s@.len() > 0 && (s@[0] == '-' || s@[0] == '+')),
            neg == (s@.len() > 0 && s@[0] == '-'),
            ds == (if start == 1 {
                s@.drop_first()
            } else {
                s@
            }),
            ds.len() == n - start,
            forall|k: int| 0 <= k < ds.len() ==> ds[k] == s@[k + start],
            forall|k: int| 0 <= k < i - start ==> is_digit(#[trigger] ds[k]),
            0 <= acc <= bound + 1,
            acc <= bound ==> acc == digits_val(ds.take(i - start)),
            acc == bound + 1 ==> digits_val(ds.take(i - start)) > bound,
        decreases n - i,
    {
        let c = s.get_char(i);
        if !(c >= '0' && c <= '9') {
            proof {
                let sv = s@;
                let dss = if sv.len() > 0 && (sv[0] == '-' || sv[0] == '+') {
                    sv.drop_first()
                } else {
                    sv
                };
                assert(dss == ds);
                assert(0 <= i - start < ds.len());
                assert(!is_digit(ds[i - start]));
                assert(!all_digits(ds));
                assert(parse_i32_spec(sv) is None);
            }
            return None;
        }
        let d = (c as u32 - 48) as i64;
        let ghost pre = ds.take(i - start);
        let ghost cur = ds.take(i + 1 - start);
        proof {
            assert(cur.drop_last() =~= pre);
            assert(cur.last() == ds[i - start]);
            assert(forall|k: int| 0 <= k < pre.len() ==> is_digit(#[trigger] pre[k]));
            lemma_digits_val_bounds(pre);
            assert(digits_val(cur) == digits_val(pre) * 10 + (ds[i - start] as u32 - 48));
        }
        if acc <= bound {
            acc = acc * 10 + d;
            if acc > bound {
                acc = bound + 1;
            }
        } else {
            proof {
                assert(digits_val(cur) >= digits_val(pre) * 10);
            }
        }
        i = i + 1;
    }
    proof {
        assert(ds.take(n - start) =~= ds);
    }
    if acc == bound + 1 {
        // the digits exceed 2^31, out of range for either sign
        return None;
    }
    if neg {
        let v: i64 = -acc;
        return Some(v as i32);
    }
    if acc == bound {
        // 2^31 itself is out of range for a positive value
        return None;
    }
    Some(acc as i32)
}

/// How a string reads as an unsigned machine integer: an optional `+`, then
/// one or more decimal digits, the value within range.
pub open spec fn parse_usize_spec(s: Seq<char>) -> Option<int> {
    let ds = if s.len() > 0 && s[0] == '+' {
        s.drop_first()
    } else {
        s
    };
    if ds.len() == 0 || !all_digits(ds) {
        None
    } else if digits_val(ds) <= usize::MAX {
        Some(digits_val(ds))
    } else {
        None
    }
}

/// Reads an unsigned machine integer, as `str::parse::<usize>` does.
pub fn parse_usize(s: &str) -> (r: Option<usize>)
    ensures
        match r {
            Some(v) => parse_usize_spec(s@) == Some(v as int),
            None => parse_usize_spec(s@) is None,
        },
{
    let n = s.unicode_len();
    let mut start: usize = 0;
    if n > 0 && s.get_char(0) == '+' {
        start = 1;
    }
    let ghost ds = if start == 1 {
        s@.drop_first()
    } else {
        s@
    };
    if start >= n {
        return None;
    }
    let mut acc: usize = 0;
    let mut big = false;
    let mut i: usize = start;
    while i < n
        invariant
            start <= i <= n,
            n == s@.len(),
            start == 0 || start == 1,
            start < n,
            (start == 1) == (s@.len() > 0 && s@[0] == '+'),
            ds == (if start == 1 {
                s@.drop_first()
            } else {
                s@
            }),
            ds.len() == n - start,
            forall|k: int| 0 <= k < ds.len() ==> ds[k] == s@[k + start],
            forall|k: int| 0 <= k < i - start ==> is_digit(#[trigger] ds[k]),
            !big ==> acc == digits_val(ds.take(i - start)),
            big ==> digits_val(ds.take(i - start)) > usize::MAX,
        decreases n - i,
    {
        let c = s.get_char(i);
        if !(c >= '0' && c <= '9') {
            proof {
                assert(!is_digit(ds[i - start]));
                assert(!all_digits(ds));
            }
            return None;
        }
        let d = (c as u32 - 48) as usize;
        let ghost pre = ds.take(i - start);
        let ghost cur = ds.take(i + 1 - start);
        proof {
            assert(cur.drop_last() =~= pre);
            assert(cur.last() == ds[i - start]);
            assert(forall|k: int| 0 <= k < pre.len() ==> is_digit(#[trigger] pre[k]));
            lemma_digits_val_bounds(pre);
            assert(digits_val(cur) == digits_val(pre) * 10 + (ds[i - start] as u32 - 48));
        }
        if !big {
            match acc.checked_mul(10) {
                Some(t) => {
                    match t.checked_add(d) {
                        Some(t2) => {
                            acc = t2;
                        },
                        None => {
                            big = true;
                        },
                    }
                },
                None => {
                    big = true;
                },
            }
        } else {
            proof {
                assert(digits_val(cur) >= digits_val(pre) * 10);
            }
        }
        i = i + 1;
    }
    proof {
        assert(ds.take(n - start) =~= ds);
    }
    if big {
        return None;
    }
    Some(acc)
}

} // verus!
