use azure_sas::connection::parse_connection_string;
use azure_sas::sas::{
    expiry_at, generate_sas, generate_sas_at, normalize_span, sas_token, sign, Span, Timestamp, MAX_SPAN_NANOS,
    MAX_SPAN_SECS,
};

const EXAMPLE: &str =
    "Endpoint=sb://ns.servicebus.windows.net/;SharedAccessKeyName=Pol;SharedAccessKey=abc123";

#[test]
fn parse_reads_all_fields() {
    let c = parse_connection_string(EXAMPLE);
    assert_eq!(c.endpoint, "sb://ns.servicebus.windows.net/");
    assert_eq!(c.key_name, "Pol");
    assert_eq!(c.signing_key, "abc123");
}

#[test]
fn parse_ignores_field_order_and_whitespace() {
    let c = parse_connection_string(
        "  SharedAccessKey =abc123 ; Endpoint=sb://ns.servicebus.windows.net/ ;SharedAccessKeyName\t=Pol",
    );
    assert_eq!(c.endpoint, "sb://ns.servicebus.windows.net/");
    assert_eq!(c.key_name, "Pol");
    assert_eq!(c.signing_key, "abc123");
}

#[test]
fn parse_keeps_last_duplicate() {
    let c = parse_connection_string("SharedAccessKeyName=first;Other=x;SharedAccessKeyName=second");
    assert_eq!(c.key_name, "second");
    assert_eq!(c.endpoint, "");
    assert_eq!(c.signing_key, "");
}

#[test]
fn parse_never_fails_on_degenerate_input() {
    let c = parse_connection_string("");
    assert_eq!(c.endpoint, "");
    let c = parse_connection_string(";;Endpoint;é;=;SharedAccessKey");
    assert_eq!(c.endpoint, "");
    assert_eq!(c.signing_key, "");
    assert_eq!(c.key_name, "");
}

#[test]
fn parse_splits_at_first_equals() {
    let c = parse_connection_string("SharedAccessKey=a=b==;Endpoint=");
    assert_eq!(c.signing_key, "a=b==");
    assert_eq!(c.endpoint, "");
}

#[test]
fn parse_trims_whitespace_round_value() {
    let c = parse_connection_string("SharedAccessKeyName= Pol ;Endpoint=\t sb://x/ ;SharedAccessKey=  ");
    assert_eq!(c.key_name, "Pol");
    assert_eq!(c.endpoint, "sb://x/");
    assert_eq!(c.signing_key, "");
}

#[test]
fn generate_sas_at_ignores_whitespace_padding() {
    let now = Timestamp { secs: 1_700_000_000, nanos: 0 };
    let d = Span { secs: 3600, nanos: 0 };
    let padded = " Endpoint = sb://ns.servicebus.windows.net/ ;\tSharedAccessKeyName=  Pol ; SharedAccessKey= abc123\n";
    assert_eq!(
        generate_sas_at(EXAMPLE, d, now).unwrap(),
        generate_sas_at(padded, d, now).unwrap()
    );
}

#[test]
fn normalize_keeps_representable_span() {
    let d = Span { secs: 3600, nanos: 5 };
    assert_eq!(normalize_span(d), d);
    let max = Span { secs: MAX_SPAN_SECS, nanos: MAX_SPAN_NANOS };
    assert_eq!(normalize_span(max), max);
}

#[test]
fn normalize_clamps_overlong_span_to_zero() {
    let zero = Span { secs: 0, nanos: 0 };
    assert_eq!(normalize_span(Span { secs: MAX_SPAN_SECS, nanos: MAX_SPAN_NANOS + 1 }), zero);
    assert_eq!(normalize_span(Span { secs: u64::MAX, nanos: 0 }), zero);
}

#[test]
fn expiry_rounds_down() {
    let now = Timestamp { secs: 100, nanos: 600_000_000 };
    assert_eq!(expiry_at(now, Span { secs: 3600, nanos: 300_000_000 }), Some(3700));
    assert_eq!(expiry_at(now, Span { secs: 3600, nanos: 500_000_000 }), Some(3701));
    assert_eq!(expiry_at(now, Span { secs: 0, nanos: 0 }), Some(100));
}

#[test]
fn expiry_of_overlong_span_is_now() {
    let now = Timestamp { secs: 1_700_000_000, nanos: 999_999_999 };
    assert_eq!(expiry_at(now, Span { secs: u64::MAX, nanos: 0 }), Some(1_700_000_000));
}

#[test]
fn expiry_that_does_not_fit_is_none() {
    let now = Timestamp { secs: i64::MAX, nanos: 0 };
    assert_eq!(expiry_at(now, Span { secs: 1, nanos: 0 }), None);
    assert_eq!(expiry_at(now, Span { secs: 0, nanos: 0 }), Some(i64::MAX));
}

#[test]
fn token_has_exact_value() {
    let c = parse_connection_string(EXAMPLE);
    assert_eq!(
        sas_token(&c, 1_700_003_600),
        "SharedAccessSignature sig=0bUTX7DgPu0NnJGCL7YkVZM3wE2B%2FZcz2WrjzCjPBCE%3D&se=1700003600&skn=Pol&sr=sb%3A%2F%2Fns%2Eservicebus%2Ewindows%2Enet%2F"
    );
}

#[test]
fn token_for_empty_credentials_is_well_formed() {
    let c = parse_connection_string("");
    assert_eq!(
        sas_token(&c, 0),
        "SharedAccessSignature sig=pjHCxX9wcaTE6qcMy6cBFgmqqqheab5TH83jwf9t5Os%3D&se=0&skn=&sr="
    );
}

#[test]
fn token_escapes_non_ascii_and_negative_expiry() {
    let c = parse_connection_string("Endpoint=é x;SharedAccessKey=k;SharedAccessKeyName=n");
    assert_eq!(
        sas_token(&c, -5),
        "SharedAccessSignature sig=mmCpbh%2BXSKqDwhICzuVJZnPuUr84ACH9snNguCYlxC4%3D&se=-5&skn=n&sr=%C3%A9%20x"
    );
}

#[test]
fn sign_example_end_to_end() {
    let c = parse_connection_string(EXAMPLE);
    let now = Timestamp { secs: 1_700_000_000, nanos: 250_000_000 };
    let (token, expiry) = sign(&c, Span { secs: 3600, nanos: 0 }, now).unwrap();
    assert_eq!(expiry, 1_700_003_600);
    assert!(token.starts_with("SharedAccessSignature sig="));
    assert!(token.contains("&se=1700003600&skn=Pol&sr="));
    assert_eq!(token, sas_token(&c, 1_700_003_600));
}

#[test]
fn sign_is_deterministic() {
    let c = parse_connection_string(EXAMPLE);
    let now = Timestamp { secs: 1_234_567_890, nanos: 42 };
    let d = Span { secs: 60, nanos: 1 };
    assert_eq!(sign(&c, d, now), sign(&c, d, now));
}

#[test]
fn sign_with_zero_span_is_already_expiring() {
    let c = parse_connection_string(EXAMPLE);
    let now = Timestamp { secs: 1_000, nanos: 0 };
    let (_, expiry) = sign(&c, Span { secs: 0, nanos: 0 }, now).unwrap();
    assert_eq!(expiry, 1_000);
}

#[test]
fn signature_and_resource_are_fully_escaped() {
    let c = parse_connection_string("Endpoint=sb://a.b/c?d=e&f:g;SharedAccessKey=s;SharedAccessKeyName=n");
    let token = sas_token(&c, 12);
    let rest = token.strip_prefix("SharedAccessSignature ").unwrap();
    for field in rest.split('&') {
        let (name, value) = field.split_once('=').unwrap();
        if name == "sig" || name == "sr" {
            let bytes = value.as_bytes();
            let mut i = 0;
            while i < bytes.len() {
                if bytes[i] == b'%' {
                    assert!(bytes[i + 1].is_ascii_hexdigit() && bytes[i + 2].is_ascii_hexdigit());
                    i += 3;
                } else {
                    assert!(bytes[i].is_ascii_alphanumeric());
                    i += 1;
                }
            }
        }
    }
}

#[test]
fn generate_sas_uses_the_clock() {
    let (token, expiry) = generate_sas(EXAMPLE, Span { secs: 3600, nanos: 0 }).unwrap();
    assert!(expiry > 1_600_000_000 + 3600);
    assert!(token.starts_with("SharedAccessSignature sig="));
    assert!(token.contains(&format!("&se={}&skn=Pol&sr=sb%3A%2F%2Fns%2Eservicebus%2Ewindows%2Enet%2F", expiry)));
}

#[test]
fn generate_sas_at_example_with_fixed_clock() {
    let now = Timestamp { secs: 1_700_000_000, nanos: 0 };
    let (token, expiry) = generate_sas_at(EXAMPLE, Span { secs: 3600, nanos: 0 }, now).unwrap();
    assert_eq!(expiry, 1_700_003_600);
    assert_eq!(
        token,
        "SharedAccessSignature sig=0bUTX7DgPu0NnJGCL7YkVZM3wE2B%2FZcz2WrjzCjPBCE%3D&se=1700003600&skn=Pol&sr=sb%3A%2F%2Fns%2Eservicebus%2Ewindows%2Enet%2F"
    );
}

#[test]
fn generate_sas_at_ignores_field_order() {
    let now = Timestamp { secs: 1_700_000_000, nanos: 0 };
    let d = Span { secs: 3600, nanos: 0 };
    let reordered =
        "SharedAccessKey=abc123;Other=1;SharedAccessKeyName=Pol;Endpoint=sb://ns.servicebus.windows.net/";
    assert_eq!(
        generate_sas_at(EXAMPLE, d, now).unwrap(),
        generate_sas_at(reordered, d, now).unwrap()
    );
}

#[test]
fn generate_sas_at_refuses_reading_before_epoch() {
    let now = Timestamp { secs: -10_000, nanos: 0 };
    let r = generate_sas_at(EXAMPLE, Span { secs: 3600, nanos: 0 }, now);
    assert!(matches!(r, Err(azure_sas::error::AzureRequestError::UnknownError)));
}

#[test]
fn generate_sas_at_refuses_expiry_past_i64() {
    let now = Timestamp { secs: i64::MAX, nanos: 999_999_999 };
    let r = generate_sas_at(EXAMPLE, Span { secs: 0, nanos: 1 }, now);
    assert!(matches!(r, Err(azure_sas::error::AzureRequestError::UnknownError)));
}
