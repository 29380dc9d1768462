use solcli::codec::{decode, encode, transform};
use solcli::errors::CliError;
use solcli::format::Format;
use solcli::keypair::Keypair;

/// A structurally valid keypair: the public half derived from the seed.
fn keypair_bytes_from_seed(seed: [u8; 32]) -> Vec<u8> {
    let secret = ed25519_dalek::SecretKey::from_bytes(&seed).unwrap();
    let public = ed25519_dalek::PublicKey::from(&secret);
    let mut v = secret.to_bytes().to_vec();
    v.extend_from_slice(&public.to_bytes());
    v
}

fn sample_bytes() -> Vec<u8> {
    keypair_bytes_from_seed([13u8; 32])
}

fn sample_keypair() -> Keypair {
    Keypair::from_vec(sample_bytes()).unwrap()
}

#[test]
fn bytes_round_trip() {
    let kp = sample_keypair();
    let text = encode(&kp, Format::Bytes);
    let back = decode(&text, Format::Bytes).unwrap();
    assert_eq!(back.as_bytes(), kp.as_bytes());
}

#[test]
fn base58_round_trip() {
    let kp = sample_keypair();
    let text = encode(&kp, Format::Base58);
    let back = decode(&text, Format::Base58).unwrap();
    assert_eq!(back.as_bytes(), kp.as_bytes());
}

#[test]
fn bytes_rendering_is_the_literal_form() {
    let kp = Keypair::from_vec(vec![0u8; 64]).unwrap();
    let text = encode(&kp, Format::Bytes);
    let mut expected = String::from("[0");
    for _ in 0..63 {
        expected.push_str(", 0");
    }
    expected.push(']');
    assert_eq!(text, expected);

    let small = Keypair::from_vec({
        let mut v = vec![0u8; 64];
        v[0] = 7;
        v[1] = 45;
        v[2] = 255;
        v
    })
    .unwrap();
    let text = encode(&small, Format::Bytes);
    assert!(text.starts_with("[7, 45, 255, 0"));
}

#[test]
fn base58_of_zero_bytes_is_all_ones() {
    let kp = Keypair::from_vec(vec![0u8; 64]).unwrap();
    let text = encode(&kp, Format::Base58);
    assert_eq!(text, "1".repeat(64));
}

#[test]
fn bytes_parser_accepts_whitespace() {
    let bytes = sample_bytes();
    let mut text = String::from("[ ");
    for (i, b) in bytes.iter().enumerate() {
        if i > 0 {
            text.push_str(" ,\t");
        }
        text.push_str(&format!("{}", b));
    }
    text.push_str(" ]\n");
    let back = decode(&text, Format::Bytes).unwrap();
    assert_eq!(back.as_bytes(), &bytes);
}

#[test]
fn bytes_parser_rejects_malformed_text() {
    for bad in ["", "[1, 2", "1, 2]", "[1 2]", "[,1]", "[256]", "[-1]", "[1,]", "[1]x"] {
        assert!(matches!(decode(bad, Format::Bytes), Err(CliError::InvalidKeypairEncoding)));
    }
}

#[test]
fn decode_rejects_wrong_length() {
    assert!(decode("[1, 2, 3]", Format::Bytes).is_err());
    // 32 zero bytes encode to 32 ones in base-58: valid base-58, wrong length
    assert!(decode(&"1".repeat(32), Format::Base58).is_err());
}

#[test]
fn decode_rejects_mismatched_key_halves() {
    // every byte is plausible, but the public half belongs to another
    // secret: the rendering decodes to 64 bytes and is still refused
    let a = keypair_bytes_from_seed([13u8; 32]);
    let b = keypair_bytes_from_seed([14u8; 32]);
    let mut mixed = a[..32].to_vec();
    mixed.extend_from_slice(&b[32..]);
    let kp = Keypair::from_vec(mixed).unwrap();
    let text = encode(&kp, Format::Bytes);
    assert!(matches!(decode(&text, Format::Bytes), Err(CliError::InvalidKeypairEncoding)));
    let text58 = encode(&kp, Format::Base58);
    assert!(matches!(decode(&text58, Format::Base58), Err(CliError::InvalidKeypairEncoding)));
}

#[test]
fn base58_rejects_invalid_characters() {
    assert!(decode("0OIl+/", Format::Base58).is_err());
}

#[test]
fn transform_decodes_the_opposite_format() {
    let kp = sample_keypair();
    let bytes_text = encode(&kp, Format::Bytes);
    let base58_text = encode(&kp, Format::Base58);

    // target Base58 reads byte-array input ...
    let out = transform(&bytes_text, Format::Base58).unwrap();
    assert_eq!(out, base58_text);
    // ... and refuses input that is already base-58
    assert!(transform(&base58_text, Format::Base58).is_err());

    // target Bytes reads base-58 input
    let out = transform(&base58_text, Format::Bytes).unwrap();
    assert_eq!(out, bytes_text);
    assert!(transform(&bytes_text, Format::Bytes).is_err());
}
