//! Tests for the payload templater and the byte-text helpers.

use cannon::payload::process_payload;
use cannon::text::format_u64;

fn expand(template: &str) -> Vec<u8> {
    process_payload(&template.as_bytes().to_vec())
}

fn is_lower_alnum(b: u8) -> bool {
    b.is_ascii_lowercase() || b.is_ascii_digit()
}

fn is_lower_hex(b: u8) -> bool {
    (b'0'..=b'9').contains(&b) || (b'a'..=b'f').contains(&b)
}

fn is_well_formed_uuid(s: &[u8]) -> bool {
    s.len() == 36
        && s.iter().enumerate().all(|(i, &b)| match i {
            8 | 13 | 18 | 23 => b == b'-',
            14 => b == b'4',
            19 => matches!(b, b'8' | b'9' | b'a' | b'b'),
            _ => is_lower_hex(b),
        })
}

#[test]
fn number_token_pair_yields_two_numbers_in_range() {
    let out = expand("{{number}}-{{number}}");
    let text = String::from_utf8(out).unwrap();
    let parts: Vec<&str> = text.split('-').collect();
    assert_eq!(parts.len(), 2);
    for part in parts {
        let n: u32 = part.parse().unwrap();
        assert!((10..9999).contains(&n), "number {} out of range", n);
    }
}

#[test]
fn uuid_token_twice_yields_two_distinct_well_formed_uuids() {
    let out = expand("{{uuid}}{{uuid}}");
    assert_eq!(out.len(), 72);
    let (first, second) = out.split_at(36);
    assert!(is_well_formed_uuid(first));
    assert!(is_well_formed_uuid(second));
    assert_ne!(first, second);
}

#[test]
fn user_token_is_eight_lowercase_alphanumerics() {
    let out = expand("{{user}}");
    assert_eq!(out.len(), 8);
    assert!(out.iter().all(|&b| is_lower_alnum(b)));
}

#[test]
fn email_token_is_local_part_at_fixed_domain() {
    let out = expand("{{email}}");
    assert_eq!(out.len(), 20);
    assert!(out[..8].iter().all(|&b| is_lower_alnum(b)));
    assert_eq!(&out[8..], b"@example.com");
}

#[test]
fn timestamp_token_is_all_decimal_digits() {
    let out = expand("{{timestamp}}");
    assert!(!out.is_empty());
    assert!(out.iter().all(|b| b.is_ascii_digit()));
}

#[test]
fn unrecognized_token_passes_through_unchanged() {
    assert_eq!(expand("{{unknown}}"), b"{{unknown}}".to_vec());
    assert_eq!(expand("plain text, no tokens"), b"plain text, no tokens".to_vec());
    assert_eq!(expand(""), Vec::<u8>::new());
}

#[test]
fn surrounding_text_is_preserved_around_tokens() {
    let out = expand("id={{number}}&x=1");
    let text = String::from_utf8(out).unwrap();
    assert!(text.starts_with("id="));
    assert!(text.ends_with("&x=1"));
    let middle = &text[3..text.len() - 4];
    let n: u32 = middle.parse().unwrap();
    assert!((10..9999).contains(&n));
}

#[test]
fn repeated_user_tokens_draw_independently() {
    let out = expand("{{user}}{{user}}{{user}}{{user}}");
    assert_eq!(out.len(), 32);
    assert!(out.iter().all(|&b| is_lower_alnum(b)));
}

#[test]
fn format_u64_renders_exact_decimal() {
    assert_eq!(format_u64(0), b"0".to_vec());
    assert_eq!(format_u64(7), b"7".to_vec());
    assert_eq!(format_u64(10), b"10".to_vec());
    assert_eq!(format_u64(90210), b"90210".to_vec());
    assert_eq!(
        format_u64(u64::MAX),
        b"18446744073709551615".to_vec()
    );
}
