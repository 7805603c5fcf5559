use crypto_latency_benchmark::credentials::{decode_private_key, parse_env_credentials, PrivateKeyError};
use crypto_latency_benchmark::fix_signing::{key_source, sign_payload, KeySource};
use base64::engine::general_purpose::STANDARD;
use base64::Engine;
use ring::rand::SystemRandom;
use ring::signature::{Ed25519KeyPair, KeyPair};

const RFC_SIG_EMPTY: &str =
    "5VZDAMNgrHKQhuLMgG6CioSHfx645dl02HPgZSJJAVVfuIIVkKM7rMYeOXAc+bRr0lv18FlbviRlUUFDjnoQCw==";

fn seed() -> Vec<u8> {
    vec![
        0x9d, 0x61, 0xb1, 0x9d, 0xef, 0xfd, 0x5a, 0x60, 0xba, 0x84, 0x4a, 0xf4, 0x92, 0xec, 0x2c,
        0xc4, 0x44, 0x49, 0xc5, 0x69, 0x7b, 0x32, 0x69, 0x19, 0x70, 0x3b, 0xac, 0x03, 0x1c, 0xae,
        0x7f, 0x60,
    ]
}

fn v1_key() -> Vec<u8> {
    let mut k = vec![
        0x30, 0x2e, 0x02, 0x01, 0x00, 0x30, 0x05, 0x06, 0x03, 0x2b, 0x65, 0x70, 0x04, 0x22, 0x04,
        0x20,
    ];
    k.extend_from_slice(&seed());
    k
}

/// An armour line of a PEM private key: five dashes, `BEGIN` or `END`, the label, five dashes.
fn armour(which: &str) -> String {
    let dashes = "-".repeat(5);
    format!("{dashes}{which} {} {}{dashes}", "PRIVATE", "KEY")
}

/// `v1_key()` in PEM armour, its base64 body on one line, each line ended by `eol`,
/// with one empty line before the closing armour.
fn v1_pem(eol: &str) -> String {
    format!(
        "{}{eol}{}{eol}{eol}{}\n",
        armour("BEGIN"),
        STANDARD.encode(v1_key()),
        armour("END")
    )
}

#[test]
fn signs_with_seed_of_48_byte_structure() {
    assert_eq!(sign_payload(&v1_key(), ""), RFC_SIG_EMPTY);
}

#[test]
fn signs_with_pem_armoured_key() {
    let pem = v1_pem("\r\n");
    assert!(pem.starts_with(&(armour("BEGIN") + "\r\nMC4C")));
    assert_eq!(sign_payload(pem.as_bytes(), ""), RFC_SIG_EMPTY);
}

#[test]
fn signs_with_seed_after_octet_string_header() {
    let mut k = vec![1, 2, 3, 4, 0x04, 0x20];
    k.extend_from_slice(&seed());
    k.extend_from_slice(&[9, 9]);
    assert_eq!(
        sign_payload(&k, "hello"),
        "URykl8TUJwsJixr9WuTjuVGl2iydpunAUo9XYYg2duffbkwPDhtaCkRE9CmLGILdgi+xEzy9Sav7mWyHzVuFBg=="
    );
}

#[test]
fn signs_with_pkcs8_v2_document() {
    let rng = SystemRandom::new();
    let doc = Ed25519KeyPair::generate_pkcs8(&rng).unwrap();
    let pair = Ed25519KeyPair::from_pkcs8(doc.as_ref()).unwrap();
    assert_eq!(pair.public_key().as_ref().len(), 32);
    #[allow(deprecated)]
    let expected = base64::encode(pair.sign(b"payload").as_ref());
    assert_eq!(sign_payload(doc.as_ref(), "payload"), expected);
}

#[test]
fn unusable_keys_give_empty_signature() {
    assert_eq!(sign_payload(&[1, 2, 3], "x"), "");
    let mut short = vec![0x04, 0x20];
    short.extend_from_slice(&[7; 10]);
    assert_eq!(sign_payload(&short, "x"), "");
    let bad_pem = "-----BEGIN KEY-----\n!!!!\n-----END KEY-----";
    assert_eq!(sign_payload(bad_pem.as_bytes(), "x"), "");
}

#[test]
fn env_credentials_last_setting_wins() {
    let c = parse_env_credentials(
        "# comment\nBINANCE_API_KEY=first\r\nBINANCE_API_SECRET=s3cr=t\nBINANCE_API_KEY=second\nOTHER=1",
    );
    assert_eq!(c.api_key, "second");
    assert_eq!(c.api_secret, "s3cr=t");
}

#[test]
fn env_credentials_absent() {
    let c = parse_env_credentials(" BINANCE_API_KEY=x\nbinance_api_key=y\n");
    assert_eq!(c.api_key, "");
    assert_eq!(c.api_secret, "");
    let last = parse_env_credentials("BINANCE_API_SECRET=abc\r");
    assert_eq!(last.api_secret, "abc\r");
}

#[test]
fn private_key_double_encoded_pem() {
    let pem = format!("{}\n{}\n{}\n", armour("BEGIN"), STANDARD.encode(v1_key()), armour("END"));
    let secret = STANDARD.encode(&pem);
    assert!(secret.starts_with("LS0tLS1CRUdJTi"));
    let key = decode_private_key(&secret).ok().unwrap();
    assert_eq!(key, pem.as_bytes().to_vec());
    assert_eq!(sign_payload(&key, ""), RFC_SIG_EMPTY);
}

#[test]
fn private_key_invalid_double_encoding_is_an_error() {
    match decode_private_key("LS0tLS1CRUdJTi***") {
        Err(PrivateKeyError::InvalidBase64(_)) => {}
        Ok(_) => panic!("expected an error"),
    }
}

#[test]
fn private_key_plain_pem_and_fallbacks() {
    let pem = armour("BEGIN") + "\nabc\n";
    assert_eq!(decode_private_key(&pem).ok().unwrap(), pem.as_bytes().to_vec());
    assert_eq!(decode_private_key("aGVsbG8=").ok().unwrap(), b"hello".to_vec());
    assert_eq!(decode_private_key("not base64!").ok().unwrap(), b"not base64!".to_vec());
}

#[test]
fn signature_text_is_88_characters_with_padding() {
    let sig = sign_payload(&v1_key(), "A\x01RUST001\x01SPOT\x011\x0120240101-12:00:00.000");
    assert_eq!(sig.len(), 88);
    assert!(sig.ends_with("==") && !sig[..86].contains('='));
}

#[test]
fn key_source_picks_document_or_seed() {
    assert!(matches!(key_source(&[1, 2, 3], true), Some(KeySource::Document)));
    assert!(matches!(key_source(&v1_key(), false), Some(KeySource::Seed(16))));
    let mut k = vec![9, 9, 0x04, 0x20];
    k.extend_from_slice(&seed());
    assert!(matches!(key_source(&k, false), Some(KeySource::Seed(4))));
    k.pop();
    assert!(key_source(&k, false).is_none());
    assert!(key_source(&[1, 2, 3], false).is_none());
}
