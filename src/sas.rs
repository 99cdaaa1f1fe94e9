//! Signing: from credentials, a validity span and a clock reading to a
//! Shared Access Signature token and its expiry.

use vstd::prelude::*;
use vstd::string::*;
use crate::connection::{
    Credential, parse_connection_string, connection_field, segments_with_key,
    lemma_field_order_irrelevant, all_whitespace, unpadded, padded_segment, lemma_last_segment_wins,
    lemma_padded_segment_chars,
};
use crate::encode::{
    percent_encode, percent_encoded, to_base64, base64_text, hmac_sha256, hmac_sha256_of, ends_with,
    lemma_escaped_base64_padding,
};
use crate::error::AzureRequestError;

verus! {

/// Nanoseconds in one second.
pub const NANOS_PER_SEC: u32 = 1_000_000_000;

/// The longest span, in whole seconds, that the clock arithmetic accepts:
/// `i64::MAX` milliseconds.
pub const MAX_SPAN_SECS: u64 = 9_223_372_036_854_775;

/// The nanoseconds past `MAX_SPAN_SECS` that the longest span has.
pub const MAX_SPAN_NANOS: u32 = 807_000_000;

/// A reading of the UTC clock: whole seconds since the Unix epoch, and the
/// nanoseconds past them.
#[derive(Clone, Copy, Debug, PartialEq, Eq, Structural)]
pub struct Timestamp {
    pub secs: i64,
    pub nanos: u32,
}

/// A length of time: whole seconds and the nanoseconds past them.
#[derive(Clone, Copy, Debug, PartialEq, Eq, Structural)]
pub struct Span {
    pub secs: u64,
    pub nanos: u32,
}

impl Timestamp {
    /// The nanoseconds are less than one second.
    pub open spec fn wf(self) -> bool {
        self.nanos < NANOS_PER_SEC
    }
}

impl Span {
    /// The nanoseconds are less than one second.
    pub open spec fn wf(self) -> bool {
        self.nanos < NANOS_PER_SEC
    }
}

/// Whether the clock arithmetic can take the span of `secs` seconds and
/// `nanos` nanoseconds: it is no longer than the longest span.
pub open spec fn span_representable(secs: u64, nanos: u32) -> bool {
    secs < MAX_SPAN_SECS || (secs == MAX_SPAN_SECS && nanos <= MAX_SPAN_NANOS)
}

/// `d` where the clock arithmetic can take it, else the empty span.
pub open spec fn normalized(d: Span) -> Span {
    if span_representable(d.secs, d.nanos) {
        d
    } else {
        Span { secs: 0, nanos: 0 }
    }
}

/// The expiry, in whole seconds, of a token valid for `d` from `now`:
/// `now + d` rounded down, with `d` normalized first.
pub open spec fn expiry_of(now: Timestamp, d: Span) -> int {
    let n = normalized(d);
    now.secs + n.secs + (now.nanos + n.nanos) / (NANOS_PER_SEC as int)
}

/// The expiry is `now + d` rounded down to whole seconds, never up: its
/// seconds are at most that instant, and the next second lies past it.
pub proof fn lemma_expiry_rounds_down(now: Timestamp, d: Span)
    requires
        now.wf(),
        d.wf(),
        span_representable(d.secs, d.nanos),
    ensures
        expiry_of(now, d) * NANOS_PER_SEC <= (now.secs + d.secs) * NANOS_PER_SEC + now.nanos
            + d.nanos,
        (now.secs + d.secs) * NANOS_PER_SEC + now.nanos + d.nanos < (expiry_of(now, d) + 1)
            * NANOS_PER_SEC,
{
    let q = (now.nanos + d.nanos) / (NANOS_PER_SEC as int);
    assert(0 <= q <= 1);
    assert((now.secs + d.secs + q) * NANOS_PER_SEC == (now.secs + d.secs) * NANOS_PER_SEC + q
        * NANOS_PER_SEC) by (nonlinear_arith);
    assert((now.secs + d.secs + q + 1) * NANOS_PER_SEC == (now.secs + d.secs) * NANOS_PER_SEC + q
        * NANOS_PER_SEC + NANOS_PER_SEC) by (nonlinear_arith);
}

/// Relies on `time::Duration::from_std`: it accepts a span no longer than
/// time's `Duration::MAX` (`i64::MAX` milliseconds) and refuses a longer one.
#[verifier::external_body]
fn time_accepts(secs: u64, nanos: u32) -> (r: bool)
    requires
        nanos < NANOS_PER_SEC,
    ensures
        r == span_representable(secs, nanos),
{
    time::Duration::from_std(std::time::Duration::new(secs, nanos)).is_ok()
}

/// Relies on `time::now_utc` and `Tm::to_timespec`: the current UTC time,
/// whose `Timespec` keeps its nanoseconds below one second.
#[verifier::external_body]
fn clock_now() -> (r: Timestamp)
    ensures
        r.wf(),
{
    let t = time::now_utc().to_timespec();
    Timestamp { secs: t.sec, nanos: t.nsec as u32 }
}

/// The span that signing uses: `d` itself where the clock arithmetic can take
/// it, else the empty span, so that an over-long span never makes signing fail.
pub fn normalize_span(d: Span) -> (r: Span)
    requires
        d.wf(),
    ensures
        r == normalized(d),
        r.wf(),
{
    if time_accepts(d.secs, d.nanos) {
        d
    } else {
        Span { secs: 0, nanos: 0 }
    }
}

/// The expiry of a token valid for `d` from `now`, where it fits in an `i64`.
pub fn expiry_at(now: Timestamp, d: Span) -> (r: Option<i64>)
    requires
        now.wf(),
        d.wf(),
    ensures
        r == (if expiry_of(now, d) <= i64::MAX {
            Some(expiry_of(now, d) as i64)
        } else {
            None::<i64>
        }),
{
    let n = normalize_span(d);
    let carry: i128 = if now.nanos + n.nanos >= NANOS_PER_SEC {
        1
    } else {
        0
    };
    let total: i128 = now.secs as i128 + n.secs as i128 + carry;
    if total <= i64::MAX as i128 {
        Some(total as i64)
    } else {
        None
    }
}

/// The decimal digit for `d`, where `0 <= d < 10`.
pub open spec fn digit_char(d: int) -> char {
    (d + 0x30) as char
}

/// The decimal digits of `n`, most significant first, without leading zeros.
pub open spec fn digits_of(n: nat) -> Seq<char>
    decreases n,
{
    if n < 10 {
        seq![digit_char(n as int)]
    } else {
        digits_of(n / 10).push(digit_char((n % 10) as int))
    }
}

/// `v` in decimal, with a leading `-` where it is negative.
pub open spec fn decimal(v: int) -> Seq<char> {
    if v < 0 {
        seq!['-'] + digits_of((-v) as nat)
    } else {
        digits_of(v as nat)
    }
}

fn digit_text(d: u64) -> (r: &'static str)
    requires
        d < 10,
    ensures
        r@ == seq![digit_char(d as int)],
{
    proof {
        reveal_strlit("0");
        reveal_strlit("1");
        reveal_strlit("2");
        reveal_strlit("3");
        reveal_strlit("4");
        reveal_strlit("5");
        reveal_strlit("6");
        reveal_strlit("7");
        reveal_strlit("8");
        reveal_strlit("9");
    }
    let r = match d {
        0 => "0",
        1 => "1",
        2 => "2",
        3 => "3",
        4 => "4",
        5 => "5",
        6 => "6",
        7 => "7",
        8 => "8",
        _ => "9",
    };
    assert(r@ =~= seq![digit_char(d as int)]);
    r
}

fn append_digits(out: &mut String, n: u64)
    ensures
        final(out)@ == old(out)@ + digits_of(n as nat),
    decreases n,
{
    if n >= 10 {
        append_digits(out, n / 10);
    }
    out.append(digit_text(n % 10));
    proof {
        if n >= 10 {
            assert(old(out)@ + digits_of((n / 10) as nat) + seq![digit_char((n % 10) as int)]
                =~= old(out)@ + digits_of(n as nat));
        } else {
            assert(seq![digit_char((n % 10) as int)] =~= digits_of(n as nat));
        }
    }
}

/// Appends `v` in decimal to `out`.
fn append_decimal(out: &mut String, v: i64)
    ensures
        final(out)@ == old(out)@ + decimal(v as int),
{
    if v < 0 {
        out.append("-");
        proof {
            reveal_strlit("-");
        }
        let m: u64 = (-(v + 1)) as u64 + 1;
        append_digits(out, m);
        proof {
            assert(old(out)@ + seq!['-'] + digits_of(m as nat) =~= old(out)@ + decimal(v as int));
        }
    } else {
        append_digits(out, v as u64);
    }
}

/// The message that is signed: the escaped endpoint, a newline, the expiry.
pub open spec fn signed_message(endpoint: Seq<char>, expiry: int) -> Seq<char> {
    percent_encoded(endpoint) + "\n"@ + decimal(expiry)
}

/// The escaped signature: base64 of the HMAC-SHA256 code of the signed
/// message under the signing key, escaped.
pub open spec fn signature_of(key: Seq<char>, endpoint: Seq<char>, expiry: int) -> Seq<char> {
    percent_encoded(
        base64_text(
            hmac_sha256_of(
                vstd::utf8::encode_utf8(key),
                vstd::utf8::encode_utf8(signed_message(endpoint, expiry)),
            ),
        ),
    )
}

/// The token text for the credentials, valid until `expiry`.
pub open spec fn token_text(
    key: Seq<char>,
    endpoint: Seq<char>,
    key_name: Seq<char>,
    expiry: int,
) -> Seq<char> {
    "SharedAccessSignature sig="@ + signature_of(key, endpoint, expiry) + "&se="@ + decimal(expiry)
        + "&skn="@ + key_name + "&sr="@ + percent_encoded(endpoint)
}

/// What signing with `cred` for `d` from `now` gives: the token and its
/// expiry, where the expiry fits in an `i64`.
pub open spec fn signed(cred: Credential, d: Span, now: Timestamp) -> Option<(Seq<char>, int)> {
    let e = expiry_of(now, d);
    if e <= i64::MAX {
        Some((token_text(cred.signing_key@, cred.endpoint@, cred.key_name@, e), e))
    } else {
        None
    }
}

/// What signing the credentials of the connection string `s` for `d` from
/// `now` gives.
pub open spec fn signed_from(s: Seq<char>, d: Span, now: Timestamp) -> Option<(Seq<char>, int)> {
    let e = expiry_of(now, d);
    if e <= i64::MAX {
        Some(
            (
                token_text(
                    connection_field(s, "SharedAccessKey"@),
                    connection_field(s, "Endpoint"@),
                    connection_field(s, "SharedAccessKeyName"@),
                    e,
                ),
                e,
            ),
        )
    } else {
        None
    }
}

/// Signing depends on the credentials, the span and the clock reading alone:
/// equal inputs give the same token and the same expiry.
pub proof fn lemma_sign_deterministic(c1: Credential, c2: Credential, d: Span, now: Timestamp)
    requires
        c1.signing_key@ == c2.signing_key@,
        c1.endpoint@ == c2.endpoint@,
        c1.key_name@ == c2.key_name@,
    ensures
        signed(c1, d, now) == signed(c2, d, now),
{
}

/// Reordering the segments of a connection string, keeping the order among
/// those with the same recognized key, changes neither the token nor the expiry.
pub proof fn lemma_sign_ignores_field_order(s1: Seq<char>, s2: Seq<char>, d: Span, now: Timestamp)
    requires
        segments_with_key(s1, "SharedAccessKey"@) == segments_with_key(s2, "SharedAccessKey"@),
        segments_with_key(s1, "Endpoint"@) == segments_with_key(s2, "Endpoint"@),
        segments_with_key(s1, "SharedAccessKeyName"@) == segments_with_key(
            s2,
            "SharedAccessKeyName"@,
        ),
    ensures
        signed_from(s1, d, now) == signed_from(s2, d, now),
{
    lemma_field_order_irrelevant(s1, s2, "SharedAccessKey"@);
    lemma_field_order_irrelevant(s1, s2, "Endpoint"@);
    lemma_field_order_irrelevant(s1, s2, "SharedAccessKeyName"@);
}

/// Whitespace round the key or the value of a segment changes neither the
/// token nor the expiry: a connection string that ends in the segment
/// `key=value` padded with whitespace signs as the one that ends in it bare.
pub proof fn lemma_sign_ignores_padding(
    s: Seq<char>,
    w1: Seq<char>,
    key: Seq<char>,
    w2: Seq<char>,
    w3: Seq<char>,
    value: Seq<char>,
    w4: Seq<char>,
    d: Span,
    now: Timestamp,
)
    requires
        all_whitespace(w1),
        all_whitespace(w2),
        all_whitespace(w3),
        all_whitespace(w4),
        key.len() > 0,
        unpadded(key),
        unpadded(value),
        !key.contains(';'),
        !key.contains('='),
        !value.contains(';'),
    ensures
        signed_from(s + seq![';'] + padded_segment(w1, key, w2, w3, value, w4), d, now)
            == signed_from(
            s + seq![';'] + padded_segment(
                Seq::<char>::empty(),
                key,
                Seq::<char>::empty(),
                Seq::<char>::empty(),
                value,
                Seq::<char>::empty(),
            ),
            d,
            now,
        ),
{
    let e = Seq::<char>::empty();
    lemma_padded_segment_chars(w1, key, w2, w3, value, w4);
    lemma_padded_segment_chars(e, key, e, e, value, e);
    let ks = seq!["SharedAccessKey"@, "Endpoint"@, "SharedAccessKeyName"@];
    assert forall|i: int| 0 <= i < 3 implies connection_field(
        s + seq![';'] + padded_segment(w1, key, w2, w3, value, w4),
        #[trigger] ks[i],
    ) == connection_field(s + seq![';'] + padded_segment(e, key, e, e, value, e), ks[i]) by {
        lemma_last_segment_wins(s, w1, key, w2, w3, value, w4, ks[i]);
        lemma_last_segment_wins(s, e, key, e, e, value, e, ks[i]);
    }
    assert(ks[0] == "SharedAccessKey"@);
    assert(ks[1] == "Endpoint"@);
    assert(ks[2] == "SharedAccessKeyName"@);
}

/// The token for `credential`, valid until `expiry`:
/// `SharedAccessSignature sig=<sig>&se=<expiry>&skn=<key name>&sr=<endpoint>`.
/// The code signed is 32 bytes, so its base64 has one `=` of padding and the
/// escaped signature ends in `%3D`.
pub fn sas_token(credential: &Credential, expiry: i64) -> (r: String)
    ensures
        r@ == token_text(
            credential.signing_key@,
            credential.endpoint@,
            credential.key_name@,
            expiry as int,
        ),
        ends_with(
            signature_of(credential.signing_key@, credential.endpoint@, expiry as int),
            seq!['%', '3', 'D'],
        ),
{
    let encoded_url = percent_encode(credential.endpoint.as_str());
    let mut message = encoded_url.clone();
    message.append("\n");
    append_decimal(&mut message, expiry);
    let code = hmac_sha256(credential.signing_key.as_str(), message.as_str());
    proof {
        lemma_escaped_base64_padding(code@);
    }
    let sig_b64 = to_base64(code.as_slice());
    let sig = percent_encode(sig_b64.as_str());
    let mut token = String::from_str("SharedAccessSignature sig=");
    token.append(sig.as_str());
    token.append("&se=");
    append_decimal(&mut token, expiry);
    token.append("&skn=");
    token.append(credential.key_name.as_str());
    token.append("&sr=");
    token.append(encoded_url.as_str());
    token
}

/// Signs `credential` for `duration` from the clock reading `now`: the token
/// and its expiry, `now + duration` rounded down to whole seconds. `None`
/// where that expiry does not fit in an `i64`.
pub fn sign(credential: &Credential, duration: Span, now: Timestamp) -> (r: Option<(String, i64)>)
    requires
        duration.wf(),
        now.wf(),
    ensures
        match r {
            Some((t, e)) => signed(*credential, duration, now) == Some((t@, e as int)) && ends_with(
                signature_of(credential.signing_key@, credential.endpoint@, e as int),
                seq!['%', '3', 'D'],
            ),
            None => signed(*credential, duration, now) is None,
        },
{
    match expiry_at(now, duration) {
        Some(expiry) => Some((sas_token(credential, expiry), expiry)),
        None => None,
    }
}

/// Generates a token from a connection string, valid for `duration` from the
/// clock reading `now`, with its expiry. A mistake in the connection string
/// raises no error: the token is then one that the service refuses. Fails
/// with `UnknownError` exactly where the expiry is negative (a reading before
/// the epoch) or does not fit in an `i64` or a `usize`.
pub fn generate_sas_at(connection_string: &str, duration: Span, now: Timestamp) -> (r: Result<
    (String, usize),
    AzureRequestError,
>)
    requires
        duration.wf(),
        now.wf(),
    ensures
        match r {
            Ok((t, e)) => signed_from(connection_string@, duration, now) == Some((t@, e as int))
                && ends_with(
                signature_of(
                    connection_field(connection_string@, "SharedAccessKey"@),
                    connection_field(connection_string@, "Endpoint"@),
                    e as int,
                ),
                seq!['%', '3', 'D'],
            ),
            Err(err) => err is UnknownError && match signed_from(
                connection_string@,
                duration,
                now,
            ) {
                Some((_, x)) => x < 0 || x > usize::MAX,
                None => true,
            },
        },
{
    let credential = parse_connection_string(connection_string);
    proof {
        assert(signed(credential, duration, now) == signed_from(connection_string@, duration, now));
    }
    match sign(&credential, duration, now) {
        Some((token, expiry)) => {
            if expiry >= 0 && expiry as u64 <= usize::MAX as u64 {
                Ok((token, expiry as usize))
            } else {
                Err(AzureRequestError::UnknownError)
            }
        },
        None => Err(AzureRequestError::UnknownError),
    }
}

/// Generates a token from a connection string, valid for `duration` from the
/// current UTC time, with its expiry: what `generate_sas_at` gives for the
/// clock's reading.
pub fn generate_sas(connection_string: &str, duration: Span) -> (r: Result<
    (String, usize),
    AzureRequestError,
>)
    requires
        duration.wf(),
    ensures
        match r {
            Ok((t, e)) => exists|now: Timestamp|
                now.wf() && #[trigger] signed_from(connection_string@, duration, now) == Some(
                    (t@, e as int),
                ),
            Err(err) => err is UnknownError && exists|now: Timestamp|
                now.wf() && match #[trigger] signed_from(connection_string@, duration, now) {
                    Some((_, x)) => x < 0 || x > usize::MAX,
                    None => true,
                },
        },
{
    let now = clock_now();
    generate_sas_at(connection_string, duration, now)
}

} // verus!
