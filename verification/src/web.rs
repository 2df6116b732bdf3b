//! URLs, HTTP names and Base64, by way of `reqwest` and `base64`.
use vstd::prelude::*;

use base64::Engine;

use crate::text::ascii_lower;
use crate::text::in_range;

verus! {

/// What `reqwest::Url::parse` makes of a text: the text of the URL and its scheme, or the
/// message of its error.
pub uninterp spec fn url_parsed(text: Seq<char>) -> Result<(Seq<char>, Seq<char>), Seq<char>>;

/// The reason phrase that goes with a status code.
pub uninterp spec fn status_reason(code: u16) -> Option<Seq<char>>;

/// The character that stands for six bits in Base64, by the standard alphabet.
pub open spec fn base64_digit(bits: int) -> char {
    "ABCDEFGHIJKLMNOPQRSTUVWXYZabcdefghijklmnopqrstuvwxyz0123456789+/"@[bits]
}

/// Bytes in Base64: each three bytes give four characters of six bits each, and what is left
/// at the end is padded.
pub open spec fn base64_text(bytes: Seq<u8>) -> Seq<char>
    decreases bytes.len(),
{
    if bytes.len() == 0 {
        Seq::empty()
    } else {
        let a = bytes[0] as int;
        let b = if bytes.len() > 1 {
            bytes[1] as int
        } else {
            0
        };
        let c = if bytes.len() > 2 {
            bytes[2] as int
        } else {
            0
        };
        let first = seq![base64_digit(a / 4), base64_digit(a % 4 * 16 + b / 16)];
        if bytes.len() == 1 {
            first + seq!['=', '=']
        } else if bytes.len() == 2 {
            first + seq![base64_digit(b % 16 * 4), '=']
        } else {
            first + seq![base64_digit(b % 16 * 4 + c / 64), base64_digit(c % 64)] + base64_text(
                bytes.skip(3),
            )
        }
    }
}

/// The character may stand in a method or in the name of a header.
pub open spec fn is_token_char(c: char) -> bool {
    in_range(c, 'a', 'z') || in_range(c, 'A', 'Z') || in_range(c, '0', '9') || c == '!' || c == '#'
        || c == '$' || c == '%' || c == '&' || c == '\'' || c == '*' || c == '+' || c == '-' || c
        == '.' || c == '^' || c == '_' || c == '`' || c == '|' || c == '~'
}

/// The text is an HTTP token: not empty, and of token characters only.
pub open spec fn is_token(s: Seq<char>) -> bool {
    s.len() > 0 && forall|i: int| 0 <= i < s.len() ==> is_token_char(#[trigger] s[i])
}

/// The character may stand in the value of a header: no control character but the tab.
pub open spec fn is_value_char(c: char) -> bool {
    (c as int >= 32 && c as int != 127) || c == '\t'
}

/// The text may be the value of a header.
pub open spec fn is_header_value(s: Seq<char>) -> bool {
    forall|i: int| 0 <= i < s.len() ==> is_value_char(#[trigger] s[i])
}

/// `reqwest::Url::parse`, with the text of the URL and `Url::scheme` where it succeeds, and
/// the text of the error where it does not.
#[verifier::external_body]
pub(crate) fn parse_url(text: &str) -> (r: Result<(String, String), String>)
    ensures
        (match r {
            Ok((u, s)) => Ok((u@, s@)),
            Err(e) => Err(e@),
        }) == url_parsed(text@),
{
    match reqwest::Url::parse(text) {
        Ok(u) => Ok((u.as_str().to_string(), u.scheme().to_string())),
        Err(e) => Err(e.to_string()),
    }
}

/// `reqwest::Method::from_bytes`: a token is taken as it is, anything else is refused with
/// the one message that the error has.
#[verifier::external_body]
pub(crate) fn check_method(text: &str) -> (r: Result<String, String>)
    ensures
        match r {
            Ok(m) => is_token(text@) && m@ == text@,
            Err(e) => !is_token(text@) && e@ == "invalid HTTP method"@,
        },
{
    match reqwest::Method::from_bytes(text.as_bytes()) {
        Ok(m) => Ok(m.as_str().to_string()),
        Err(e) => Err(e.to_string()),
    }
}

/// `reqwest::header::HeaderName::from_bytes`: a token of at most 65535 characters is taken,
/// in lower case; anything else is refused with the one message that the error has.
#[verifier::external_body]
pub(crate) fn check_header_name(text: &str) -> (r: Result<String, String>)
    ensures
        match r {
            Ok(n) => is_token(text@) && text@.len() <= 65535 && n@ == ascii_lower(text@),
            Err(e) => !(is_token(text@) && text@.len() <= 65535) && e@
                == "invalid HTTP header name"@,
        },
{
    match reqwest::header::HeaderName::from_bytes(text.as_bytes()) {
        Ok(n) => Ok(n.as_str().to_string()),
        Err(e) => Err(e.to_string()),
    }
}

/// `reqwest::header::HeaderValue::from_str`: a text without control characters other than the
/// tab is taken, anything else is refused with the one message that the error has.
#[verifier::external_body]
pub(crate) fn check_header_value(text: &str) -> (r: Result<(), String>)
    ensures
        match r {
            Ok(_) => is_header_value(text@),
            Err(e) => !is_header_value(text@) && e@ == "failed to parse header value"@,
        },
{
    match reqwest::header::HeaderValue::from_str(text) {
        Ok(_) => Ok(()),
        Err(e) => Err(e.to_string()),
    }
}

/// `reqwest::StatusCode::canonical_reason`, of a code that `StatusCode::from_u16` takes.
#[verifier::external_body]
pub(crate) fn reason_of(code: u16) -> (r: Option<String>)
    requires
        100 <= code < 1000,
    ensures
        (match r {
            Some(s) => Some(s@),
            None => None,
        }) == status_reason(code),
{
    match reqwest::StatusCode::from_u16(code) {
        Ok(c) => match c.canonical_reason() {
            Some(s) => Some(s.to_string()),
            None => None,
        },
        Err(_) => None,
    }
}

/// `base64::engine::general_purpose::STANDARD.encode`: the standard alphabet, with padding.
#[verifier::external_body]
pub(crate) fn encode_base64(bytes: &[u8]) -> (r: String)
    ensures
        r@ == base64_text(bytes@),
{
    base64::engine::general_purpose::STANDARD.encode(bytes)
}

/// Three bytes are written as the four digits that hold their 24 bits; what is left at the end is
/// filled up with zeros, and with `=` to four signs.
pub proof fn law_base64(a: u8, b: u8, c: u8, rest: Seq<u8>)
    ensures
        ({
            let digits =
                "ABCDEFGHIJKLMNOPQRSTUVWXYZabcdefghijklmnopqrstuvwxyz0123456789+/"@;
            let bits = a * 65536 + b * 256 + c;
            &&& base64_text(seq![a, b, c] + rest) == seq![
                digits[bits / 262144],
                digits[bits / 4096 % 64],
                digits[bits / 64 % 64],
                digits[bits % 64],
            ] + base64_text(rest)
            &&& base64_text(seq![a, b]) == seq![
                digits[(a * 65536 + b * 256) / 262144],
                digits[(a * 65536 + b * 256) / 4096 % 64],
                digits[(a * 65536 + b * 256) / 64 % 64],
                '=',
            ]
            &&& base64_text(seq![a]) == seq![
                digits[a * 65536 / 262144],
                digits[a * 65536 / 4096 % 64],
                '=',
                '=',
            ]
            &&& base64_text(Seq::empty()) == Seq::<char>::empty()
        }),
{
    let s = seq![a, b, c] + rest;
    assert(s.skip(3) =~= rest);
    assert(s[0] == a && s[1] == b && s[2] == c);
    lemma_digits(a as int, b as int, c as int);
    lemma_digits(a as int, b as int, 0);
    lemma_digits(a as int, 0, 0);
    let x = a as int;
    let y = b as int;
    let z = c as int;
    assert(base64_text(s) =~= seq![
        base64_digit(x / 4),
        base64_digit(x % 4 * 16 + y / 16),
        base64_digit(y % 16 * 4 + z / 64),
        base64_digit(z % 64),
    ] + base64_text(rest));
    assert(base64_text(seq![a, b]) =~= seq![
        base64_digit(x / 4),
        base64_digit(x % 4 * 16 + y / 16),
        base64_digit(y % 16 * 4),
        '=',
    ]);
    assert(base64_text(seq![a]) =~= seq![base64_digit(x / 4), base64_digit(x % 4 * 16), '=', '=']);
}

proof fn lemma_digits(a: int, b: int, c: int)
    requires
        0 <= a < 256,
        0 <= b < 256,
        0 <= c < 256,
    ensures
        (a * 65536 + b * 256 + c) / 262144 == a / 4,
        (a * 65536 + b * 256 + c) / 4096 % 64 == a % 4 * 16 + b / 16,
        (a * 65536 + b * 256 + c) / 64 % 64 == b % 16 * 4 + c / 64,
        (a * 65536 + b * 256 + c) % 64 == c % 64,
{
    let x = a / 4;
    let y = a % 4 * 16 + b / 16;
    let z = b % 16 * 4 + c / 64;
    let w = c % 64;
    let n = a * 65536 + b * 256 + c;
    assert(a == 4 * x + a % 4);
    assert(b == 16 * (b / 16) + b % 16);
    assert(c == 64 * (c / 64) + w);
    assert(0 <= y < 64 && 0 <= z < 64 && 0 <= w < 64);
    assert(n == x * 262144 + y * 4096 + z * 64 + w);
    lemma_parts(x, y, z, w);
}

proof fn lemma_parts(x: int, y: int, z: int, w: int)
    requires
        0 <= x,
        0 <= y < 64,
        0 <= z < 64,
        0 <= w < 64,
    ensures
        (x * 262144 + y * 4096 + z * 64 + w) / 262144 == x,
        (x * 262144 + y * 4096 + z * 64 + w) / 4096 % 64 == y,
        (x * 262144 + y * 4096 + z * 64 + w) / 64 % 64 == z,
        (x * 262144 + y * 4096 + z * 64 + w) % 64 == w,
{
    let n = x * 262144 + y * 4096 + z * 64 + w;
    assert(n / 4096 == x * 64 + y);
    assert(n / 64 == x * 4096 + y * 64 + z);
    assert((x * 64 + y) % 64 == y);
    assert((x * 4096 + y * 64 + z) % 64 == z);
}

/// The name of a header or a method is never empty, holds no blank and no colon, and is made up of
/// the parts that tokens are made up of. The value of a header may be anything without a control
/// character, but for the tab.
pub proof fn law_header_texts(a: Seq<char>, b: Seq<char>, c: char)
    ensures
        !is_token(Seq::empty()),
        is_token(a) && is_token(b) ==> is_token(a + b),
        a.contains(' ') || a.contains(':') || a.contains('/') ==> !is_token(a),
        is_header_value(Seq::empty()),
        is_header_value(a + b) <==> is_header_value(a) && is_header_value(b),
        is_header_value(seq![c]) <==> c == '\t' || (c as int >= 32 && c as int != 127),
{
    if is_header_value(a + b) {
        assert forall|i: int| 0 <= i < a.len() implies is_value_char(#[trigger] a[i]) by {
            assert((a + b)[i] == a[i]);
        }
        assert forall|i: int| 0 <= i < b.len() implies is_value_char(#[trigger] b[i]) by {
            assert((a + b)[a.len() + i] == b[i]);
        }
    }
    assert(seq![c][0] == c);
}

} // verus!
