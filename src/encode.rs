//! The byte-level encodings that a token is built from: percent-escaping,
//! base64, and the HMAC-SHA256 code that signs it.

use vstd::prelude::*;
use vstd::string::*;
use vstd::utf8::*;
use crypto::hmac::Hmac;
use crypto::mac::Mac;
use crypto::sha2::Sha256;
use percent_encoding::{utf8_percent_encode, NON_ALPHANUMERIC};
use rustc_serialize::base64::{ToBase64, STANDARD};

verus! {

/// An ASCII letter or digit.
pub open spec fn is_ascii_alnum(c: char) -> bool {
    ('0' <= c && c <= '9') || ('A' <= c && c <= 'Z') || ('a' <= c && c <= 'z')
}

/// An upper-case hexadecimal digit.
pub open spec fn is_upper_hex(c: char) -> bool {
    ('0' <= c && c <= '9') || ('A' <= c && c <= 'F')
}

/// The upper-case hexadecimal digit for `v`, where `0 <= v < 16`.
pub open spec fn hex_digit(v: int) -> char {
    if v < 10 {
        (v + 0x30) as char
    } else {
        (v - 10 + 0x41) as char
    }
}

/// One byte under the escaping rule: an ASCII letter or digit stands for
/// itself, any other byte becomes `%` and two upper-case hex digits.
pub open spec fn escape_byte(b: u8) -> Seq<char> {
    if is_ascii_alnum(b as char) {
        seq![b as char]
    } else {
        seq!['%', hex_digit(b as int / 16), hex_digit(b as int % 16)]
    }
}

/// A byte string under the escaping rule, byte by byte.
pub open spec fn escape_bytes(bs: Seq<u8>) -> Seq<char>
    decreases bs.len(),
{
    if bs.len() == 0 {
        seq![]
    } else {
        escape_byte(bs[0]) + escape_bytes(bs.drop_first())
    }
}

/// Text under the escaping rule: its UTF-8 bytes, escaped one by one.
pub open spec fn percent_encoded(s: Seq<char>) -> Seq<char> {
    escape_bytes(encode_utf8(s))
}

/// Text made only of ASCII letters, digits and `%XX` escapes with
/// upper-case hex digits.
pub open spec fn is_escaped_text(t: Seq<char>) -> bool
    decreases t.len(),
{
    if t.len() == 0 {
        true
    } else if is_ascii_alnum(t[0]) {
        is_escaped_text(t.drop_first())
    } else {
        &&& t.len() >= 3
        &&& t[0] == '%'
        &&& is_upper_hex(t[1])
        &&& is_upper_hex(t[2])
        &&& is_escaped_text(t.subrange(3, t.len() as int))
    }
}

/// Every character is an ASCII letter, a digit or `%`.
pub open spec fn only_escape_chars(t: Seq<char>) -> bool {
    forall|i: int| 0 <= i < t.len() ==> is_ascii_alnum(#[trigger] t[i]) || t[i] == '%'
}

proof fn lemma_escape_byte_form(b: u8)
    ensures
        is_escaped_text(escape_byte(b)),
        only_escape_chars(escape_byte(b)),
{
    let e = escape_byte(b);
    assert(is_escaped_text(Seq::<char>::empty()));
    if is_ascii_alnum(b as char) {
        assert(e.drop_first() =~= Seq::<char>::empty());
    } else {
        assert(e.subrange(3, 3) =~= Seq::<char>::empty());
        assert(is_upper_hex(hex_digit(b as int / 16)));
        assert(is_upper_hex(hex_digit(b as int % 16)));
    }
}

proof fn lemma_escaped_concat(a: Seq<char>, b: Seq<char>)
    requires
        is_escaped_text(a),
        is_escaped_text(b),
    ensures
        is_escaped_text(a + b),
    decreases a.len(),
{
    if a.len() > 0 {
        if is_ascii_alnum(a[0]) {
            lemma_escaped_concat(a.drop_first(), b);
            assert((a + b).drop_first() =~= a.drop_first() + b);
        } else {
            lemma_escaped_concat(a.subrange(3, a.len() as int), b);
            assert((a + b).subrange(3, (a + b).len() as int) =~= a.subrange(3, a.len() as int) + b);
        }
    } else {
        assert(a + b =~= b);
    }
}

proof fn lemma_escape_bytes_form(bs: Seq<u8>)
    ensures
        is_escaped_text(escape_bytes(bs)),
        only_escape_chars(escape_bytes(bs)),
    decreases bs.len(),
{
    if bs.len() > 0 {
        lemma_escape_byte_form(bs[0]);
        lemma_escape_bytes_form(bs.drop_first());
        lemma_escaped_concat(escape_byte(bs[0]), escape_bytes(bs.drop_first()));
        let a = escape_byte(bs[0]);
        let r = escape_bytes(bs.drop_first());
        assert forall|i: int| 0 <= i < (a + r).len() implies is_ascii_alnum(#[trigger] (a + r)[i])
            || (a + r)[i] == '%' by {
            if i >= a.len() {
                assert((a + r)[i] == r[i - a.len()]);
            }
        }
    }
}

/// Whatever the text, its percent-encoding consists of ASCII letters,
/// digits and `%XX` escapes alone, so no `:`, `/`, `&` or `=` survives it.
pub proof fn lemma_percent_encoded_is_escaped(s: Seq<char>)
    ensures
        is_escaped_text(percent_encoded(s)),
        only_escape_chars(percent_encoded(s)),
        !percent_encoded(s).contains(':'),
        !percent_encoded(s).contains('/'),
        !percent_encoded(s).contains('&'),
        !percent_encoded(s).contains('='),
{
    lemma_escape_bytes_form(encode_utf8(s));
}

/// Relies on `percent_encoding::utf8_percent_encode` with `NON_ALPHANUMERIC`:
/// each byte of the text's UTF-8 encoding that is not an ASCII letter or
/// digit becomes `%` and two upper-case hex digits, the others stay.
#[verifier::external_body]
pub(crate) fn percent_encode(s: &str) -> (r: String)
    ensures
        r@ == percent_encoded(s@),
{
    utf8_percent_encode(s, NON_ALPHANUMERIC).collect()
}

/// The character of the standard base64 alphabet for `v`, where `0 <= v < 64`.
pub open spec fn base64_char(v: int) -> char {
    if v < 26 {
        (v + 0x41) as char
    } else if v < 52 {
        (v - 26 + 0x61) as char
    } else if v < 62 {
        (v - 52 + 0x30) as char
    } else if v == 62 {
        '+'
    } else {
        '/'
    }
}

/// Standard base64 with `=` padding and no line breaks: each group of three
/// bytes becomes four characters, a final group of one or two bytes is padded.
pub open spec fn base64_text(bs: Seq<u8>) -> Seq<char>
    decreases bs.len(),
{
    if bs.len() == 0 {
        seq![]
    } else if bs.len() == 1 {
        let a = bs[0] as int;
        seq![base64_char(a / 4), base64_char((a % 4) * 16), '=', '=']
    } else if bs.len() == 2 {
        let a = bs[0] as int;
        let b = bs[1] as int;
        seq![base64_char(a / 4), base64_char((a % 4) * 16 + b / 16), base64_char((b % 16) * 4), '=']
    } else {
        let a = bs[0] as int;
        let b = bs[1] as int;
        let c = bs[2] as int;
        seq![
            base64_char(a / 4),
            base64_char((a % 4) * 16 + b / 16),
            base64_char((b % 16) * 4 + c / 64),
            base64_char(c % 64),
        ] + base64_text(bs.subrange(3, bs.len() as int))
    }
}

/// Relies on `rustc_serialize::base64::ToBase64` with the `STANDARD` config:
/// the standard alphabet, `=` padding, no line length and so no line breaks.
#[verifier::external_body]
pub(crate) fn to_base64(bytes: &[u8]) -> (r: String)
    ensures
        r@ == base64_text(bytes@),
{
    bytes.to_base64(STANDARD)
}

/// The HMAC-SHA256 code of `message` under `key`.
pub uninterp spec fn hmac_sha256_of(key: Seq<u8>, message: Seq<u8>) -> Seq<u8>;

/// Relies on `crypto::hmac::Hmac` over `crypto::sha2::Sha256`: the code of
/// the message's UTF-8 bytes under the key's UTF-8 bytes, 32 bytes long.
#[verifier::external_body]
pub(crate) fn hmac_sha256(key: &str, message: &str) -> (r: Vec<u8>)
    ensures
        r@ == hmac_sha256_of(key.spec_bytes(), message.spec_bytes()),
        r@.len() == 32,
{
    let mut mac = Hmac::new(Sha256::new(), key.as_bytes());
    mac.input(message.as_bytes());
    mac.result().code().to_vec()
}

/// Whether `t` ends with `suffix`.
pub open spec fn ends_with(t: Seq<char>, suffix: Seq<char>) -> bool {
    t.len() >= suffix.len() && t.subrange(t.len() - suffix.len(), t.len() as int) == suffix
}

proof fn lemma_escape_bytes_push(bs: Seq<u8>, b: u8)
    ensures
        escape_bytes(bs.push(b)) == escape_bytes(bs) + escape_byte(b),
    decreases bs.len(),
{
    if bs.len() == 0 {
        assert(seq![b].drop_first() =~= Seq::<u8>::empty());
        assert(bs.push(b) =~= seq![b]);
        assert(escape_bytes(Seq::<u8>::empty()) == Seq::<char>::empty());
        assert(escape_bytes(seq![b]) == escape_byte(b) + escape_bytes(seq![b].drop_first()));
        assert(escape_byte(b) + Seq::<char>::empty() =~= escape_byte(b));
        assert(Seq::<char>::empty() + escape_byte(b) =~= escape_byte(b));
    } else {
        lemma_escape_bytes_push(bs.drop_first(), b);
        assert(bs.push(b).drop_first() =~= bs.drop_first().push(b));
        assert(bs.push(b)[0] == bs[0]);
        assert(escape_byte(bs[0]) + (escape_bytes(bs.drop_first()) + escape_byte(b)) =~= (
        escape_byte(bs[0]) + escape_bytes(bs.drop_first())) + escape_byte(b));
    }
}

proof fn lemma_base64_ascii_padded(bs: Seq<u8>)
    ensures
        vstd::utf8::is_ascii_chars(base64_text(bs)),
        bs.len() % 3 == 2 ==> base64_text(bs).len() > 0 && base64_text(bs).last() == '=',
    decreases bs.len(),
{
    let t = base64_text(bs);
    if bs.len() >= 3 {
        lemma_base64_ascii_padded(bs.subrange(3, bs.len() as int));
        let r = base64_text(bs.subrange(3, bs.len() as int));
        let a = bs[0] as int;
        let b = bs[1] as int;
        let c = bs[2] as int;
        let head = seq![
            base64_char(a / 4),
            base64_char((a % 4) * 16 + b / 16),
            base64_char((b % 16) * 4 + c / 64),
            base64_char(c % 64),
        ];
        assert(t == head + r);
        assert forall|i: int| 0 <= i < t.len() implies '\0' <= #[trigger] t[i] <= '\u{7f}' by {
            if i >= 4 {
                assert(t[i] == r[i - 4]);
            }
        }
        if bs.len() % 3 == 2 {
            assert(t.last() == r.last());
        }
    }
}

/// Base64 of a byte string whose length is two more than a multiple of three
/// ends in one `=` of padding, and so its escaped form ends in `%3D`.
pub proof fn lemma_escaped_base64_padding(bs: Seq<u8>)
    requires
        bs.len() % 3 == 2,
    ensures
        ends_with(percent_encoded(base64_text(bs)), seq!['%', '3', 'D']),
{
    let t = base64_text(bs);
    lemma_base64_ascii_padded(bs);
    vstd::utf8::is_ascii_chars_encode_utf8(t);
    let u = encode_utf8(t);
    assert(u.last() == 0x3Du8) by {
        assert(t[t.len() - 1] as u8 == u[t.len() - 1]);
    }
    assert(u =~= u.drop_last().push(u.last()));
    lemma_escape_bytes_push(u.drop_last(), u.last());
    let e = escape_bytes(u);
    let pre = escape_bytes(u.drop_last());
    assert(escape_byte(0x3Du8) =~= seq!['%', '3', 'D']);
    assert(e.subrange(e.len() - 3, e.len() as int) =~= seq!['%', '3', 'D']);
}

} // verus!
