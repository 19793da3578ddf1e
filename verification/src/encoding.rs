//! Text encodings of bytes, and the outside calls that make them.
//!
//! The functions marked as outside calls are believed, not proved; the statements about the
//! encodings are proved.

use base64::Engine;
use vstd::prelude::*;

verus! {

// ── base64url ───────────────────────────────────────────────────────

/// The base64url character of a 6-bit value.
pub open spec fn base64_char(v: int) -> char {
    if v < 26 {
        (65 + v) as char
    } else if v < 52 {
        (97 + v - 26) as char
    } else if v < 62 {
        (48 + v - 52) as char
    } else if v == 62 {
        '-'
    } else {
        '_'
    }
}

/// The byte at `i`, zero past the end.
pub open spec fn byte_or_zero(d: Seq<u8>, i: int) -> int {
    if i < d.len() {
        d[i] as int
    } else {
        0
    }
}

/// The 6-bit value at position `j` of the bits of `d`.
pub open spec fn sextet(d: Seq<u8>, j: int) -> int {
    let k = j / 4 * 3;
    if j % 4 == 0 {
        byte_or_zero(d, k) / 4
    } else if j % 4 == 1 {
        byte_or_zero(d, k) % 4 * 16 + byte_or_zero(d, k + 1) / 16
    } else if j % 4 == 2 {
        byte_or_zero(d, k + 1) % 16 * 4 + byte_or_zero(d, k + 2) / 64
    } else {
        byte_or_zero(d, k + 2) % 64
    }
}

/// Bytes in base64url without padding: six bits to a character.
pub open spec fn base64url(d: Seq<u8>) -> Seq<char> {
    Seq::new(((4 * d.len() + 2) / 3) as nat, |j: int| base64_char(sextet(d, j)))
}

/// The bytes whose base64url form a text is.
pub open spec fn base64url_bytes(s: Seq<char>) -> Option<Seq<u8>> {
    if exists|d: Seq<u8>| base64url(d) == s {
        Some(choose|d: Seq<u8>| base64url(d) == s)
    } else {
        None
    }
}

/// What the base64 crate says of a text that is no base64url.
pub uninterp spec fn base64_fault(s: Seq<char>) -> Seq<char>;

/// The value of a base64url character.
spec fn base64_value(c: char) -> int {
    if 'A' <= c <= 'Z' {
        c as int - 65
    } else if 'a' <= c <= 'z' {
        c as int - 97 + 26
    } else if '0' <= c <= '9' {
        c as int - 48 + 52
    } else if c == '-' {
        62
    } else {
        63
    }
}

proof fn sextet_bounds(d: Seq<u8>, j: int)
    requires
        0 <= j,
    ensures
        0 <= sextet(d, j) < 64,
{
}

proof fn base64_char_value(v: int)
    requires
        0 <= v < 64,
    ensures
        base64_value(base64_char(v)) == v,
{
}

proof fn byte_from_sextets(d: Seq<u8>, i: int)
    requires
        0 <= i < d.len(),
    ensures
        ({
            let j = i / 3 * 4;
            d[i] == if i % 3 == 0 {
                sextet(d, j) * 4 + sextet(d, j + 1) / 16
            } else if i % 3 == 1 {
                sextet(d, j + 1) % 16 * 16 + sextet(d, j + 2) / 4
            } else {
                sextet(d, j + 2) % 4 * 64 + sextet(d, j + 3)
            }
        }),
{
    let q = i / 3;
    let j = 4 * q;
    assert(j / 4 == q && (j + 1) / 4 == q && (j + 2) / 4 == q && (j + 3) / 4 == q);
    assert(j % 4 == 0 && (j + 1) % 4 == 1 && (j + 2) % 4 == 2 && (j + 3) % 4 == 3);
}

/// Different bytes have different base64url forms.
pub proof fn base64url_is_injective(a: Seq<u8>, b: Seq<u8>)
    requires
        base64url(a) == base64url(b),
    ensures
        a == b,
{
    let n = base64url(a).len();
    assert(n == base64url(b).len());
    assert(3 * n <= 4 * a.len() + 2 < 3 * n + 3);
    assert(3 * n <= 4 * b.len() + 2 < 3 * n + 3);
    assert(a.len() == b.len());
    assert forall|j: int| 0 <= j < n implies sextet(a, j) == sextet(b, j) by {
        sextet_bounds(a, j);
        sextet_bounds(b, j);
        base64_char_value(sextet(a, j));
        base64_char_value(sextet(b, j));
        assert(base64url(a)[j] == base64_char(sextet(a, j)));
        assert(base64url(b)[j] == base64_char(sextet(b, j)));
    }
    assert forall|i: int| 0 <= i < a.len() implies a[i] == b[i] by {
        byte_from_sextets(a, i);
        byte_from_sextets(b, i);
        let j = i / 3 * 4;
        assert(j + 1 < n);
        if i % 3 == 0 {
            assert(sextet(a, j) == sextet(b, j) && sextet(a, j + 1) == sextet(b, j + 1));
        } else if i % 3 == 1 {
            assert(j + 2 < n);
            assert(sextet(a, j + 1) == sextet(b, j + 1) && sextet(a, j + 2) == sextet(b, j + 2));
        } else {
            assert(j + 3 < n);
            assert(sextet(a, j + 2) == sextet(b, j + 2) && sextet(a, j + 3) == sextet(b, j + 3));
        }
    }
    assert(a =~= b);
}

/// Decoding undoes encoding.
pub proof fn base64url_reads_back(d: Seq<u8>)
    ensures
        base64url_bytes(base64url(d)) == Some(d),
{
    let e = choose|e: Seq<u8>| base64url(e) == base64url(d);
    base64url_is_injective(e, d);
}

/// The base64url alphabet has neither of the characters of a query: no `?`, no `=`, no `/`.
pub proof fn base64url_is_plain(d: Seq<u8>, i: int)
    requires
        0 <= i < base64url(d).len(),
    ensures
        base64url(d)[i] != '?',
        base64url(d)[i] != '=',
        base64url(d)[i] != '/',
{
    sextet_bounds(d, i);
}

/// Outside call: `base64::engine::general_purpose::URL_SAFE_NO_PAD` (`Engine::encode`), the
/// base64url form without padding.
#[verifier::external_body]
pub(crate) fn base64_encode(data: &[u8]) -> (r: String)
    ensures
        r@ == base64url(data@),
{
    base64::engine::general_purpose::URL_SAFE_NO_PAD.encode(data)
}

/// Outside call: `base64::engine::general_purpose::URL_SAFE_NO_PAD` (`Engine::decode`). The engine
/// takes neither padding nor stray bits in the last character, so it decodes exactly the texts that
/// it encodes to; what it says of another text has a name only.
#[verifier::external_body]
pub(crate) fn base64_decode(text: &str) -> (r: Result<Vec<u8>, String>)
    ensures
        r matches Ok(d) ==> base64url(d@) == text@,
        r matches Err(e) ==> e@ == base64_fault(text@),
        r is Err ==> forall|d: Seq<u8>| #[trigger] base64url(d) != text@,
{
    base64::engine::general_purpose::URL_SAFE_NO_PAD.decode(text).map_err(|e| e.to_string())
}

/// The bytes of a base64url text, or what is wrong with it.
pub fn decode_base64url(text: &str) -> (r: Result<Vec<u8>, String>)
    ensures
        match r {
            Ok(d) => base64url_bytes(text@) == Some(d@),
            Err(e) => base64url_bytes(text@) is None && e@ == base64_fault(text@),
        },
{
    let r = base64_decode(text);
    proof {
        if r is Ok {
            base64url_reads_back(r->Ok_0@);
        }
    }
    r
}

// ── Hexadecimal ─────────────────────────────────────────────────────

/// The lower-case hexadecimal digit of a 4-bit value.
pub open spec fn hex_char(v: int) -> char {
    if v < 10 {
        (48 + v) as char
    } else {
        (97 + v - 10) as char
    }
}

/// Bytes in lower-case hexadecimal.
pub open spec fn hex_text(d: Seq<u8>) -> Seq<char> {
    Seq::new(
        2 * d.len(),
        |j: int|
            if j % 2 == 0 {
                hex_char(d[j / 2] as int / 16)
            } else {
                hex_char(d[j / 2] as int % 16)
            },
    )
}

/// The value of a hexadecimal digit of either case.
pub open spec fn hex_value(c: char) -> Option<int> {
    if '0' <= c <= '9' {
        Some(c as int - 48)
    } else if 'a' <= c <= 'f' {
        Some(c as int - 97 + 10)
    } else if 'A' <= c <= 'F' {
        Some(c as int - 65 + 10)
    } else {
        None
    }
}

/// Whether a text is bytes in hexadecimal.
pub open spec fn is_hex(s: Seq<char>) -> bool {
    s.len() % 2 == 0 && forall|i: int| 0 <= i < s.len() ==> hex_value(#[trigger] s[i]) is Some
}

/// The bytes of a hexadecimal text.
pub open spec fn hex_bytes(s: Seq<char>) -> Seq<u8> {
    Seq::new(
        s.len() / 2,
        |i: int| (16 * hex_value(s[2 * i])->Some_0 + hex_value(s[2 * i + 1])->Some_0) as u8,
    )
}

/// Decoding hexadecimal undoes encoding.
pub proof fn hex_reads_back(d: Seq<u8>)
    ensures
        is_hex(hex_text(d)),
        hex_bytes(hex_text(d)) == d,
{
    assert forall|i: int| 0 <= i < hex_text(d).len() implies hex_value(#[trigger] hex_text(d)[i]) is Some by {
        assert(0 <= d[i / 2] as int / 16 < 16);
    }
    assert forall|i: int| 0 <= i < d.len() implies #[trigger] hex_bytes(hex_text(d))[i] == d[i] by {
        assert((2 * i) / 2 == i && (2 * i + 1) / 2 == i);
        assert((2 * i) % 2 == 0 && (2 * i + 1) % 2 == 1);
    }
    assert(hex_bytes(hex_text(d)) =~= d);
}

/// Outside call: `hex::encode`, lower-case hexadecimal.
#[verifier::external_body]
pub(crate) fn hex_encode(data: &[u8]) -> (r: String)
    ensures
        r@ == hex_text(data@),
{
    hex::encode(data)
}

/// Outside call: `hex::decode`. It takes digits of either case, in pairs.
#[verifier::external_body]
pub(crate) fn hex_decode(text: &str) -> (r: Option<Vec<u8>>)
    ensures
        (r is Some) == is_hex(text@),
        r matches Some(d) ==> d@ == hex_bytes(text@),
{
    hex::decode(text).ok()
}

// ── QR codes ────────────────────────────────────────────────────────

/// The SVG image of a QR code, or why there is none.
pub uninterp spec fn qr_svg_of(data: Seq<u8>, min: u32, dark: Seq<char>, light: Seq<char>) -> Result<Seq<char>, Seq<char>>;

/// The plain contents of a text or an error text.
pub open spec fn plain(r: Result<String, String>) -> Result<Seq<char>, Seq<char>> {
    match r {
        Ok(s) => Ok(s@),
        Err(e) => Err(e@),
    }
}

/// Outside call: `qrcode::QrCode::new`, rendered as SVG with the given least width and height and
/// colours. What the image or the error is has a name only.
#[verifier::external_body]
pub(crate) fn qr_svg(data: &[u8], min: u32, dark: &str, light: &str) -> (r: Result<String, String>)
    requires
        min <= 65535,
    ensures
        plain(r) == qr_svg_of(data@, min, dark@, light@),
{
    let code = qrcode::QrCode::new(data).map_err(|e| e.to_string())?;
    let mut render = code.render::<qrcode::render::svg::Color>();
    render.min_dimensions(min, min);
    render.dark_color(qrcode::render::svg::Color(dark)).light_color(qrcode::render::svg::Color(light));
    Ok(render.build())
}

// ── Lower case ──────────────────────────────────────────────────────

/// A text in lower case, by Unicode.
pub uninterp spec fn lowercase_of(s: Seq<char>) -> Seq<char>;

/// The lower case of an ASCII text.
pub open spec fn ascii_lowercase(s: Seq<char>) -> Seq<char> {
    Seq::new(
        s.len(),
        |i: int|
            if 'A' <= s[i] <= 'Z' {
                (s[i] as int + 32) as char
            } else {
                s[i]
            },
    )
}

/// Whether every character of a text is ASCII.
pub open spec fn ascii(s: Seq<char>) -> bool {
    forall|i: int| 0 <= i < s.len() ==> (#[trigger] s[i] as int) < 128
}

/// Outside call: `str::to_lowercase`. What Unicode makes of a text has a name only; of an ASCII
/// text the capital letters become small.
#[verifier::external_body]
pub(crate) fn to_lowercase(s: &str) -> (r: String)
    ensures
        r@ == lowercase_of(s@),
        ascii(s@) ==> r@ == ascii_lowercase(s@),
{
    s.to_lowercase()
}

} // verus!
