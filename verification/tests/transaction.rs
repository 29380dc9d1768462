use ed25519_dalek::{PublicKey, SecretKey, Signature, Verifier};
use solcli::command::prepare_transaction;
use solcli::envelope::TransactionEnvelope;
use solcli::errors::CliError;
use solcli::keypair::Keypair;

/// A minimal message: header, two account keys, a blockhash, no
/// instructions.
fn sample_message(signer_key: [u8; 32], blockhash: [u8; 32]) -> Vec<u8> {
    let mut m = vec![1u8, 0, 1]; // one required signer, one read-only unsigned
    m.push(2); // two account keys
    m.extend_from_slice(&signer_key);
    m.extend_from_slice(&[9u8; 32]);
    m.extend_from_slice(&blockhash);
    m.push(0); // no instructions
    m
}

/// An envelope with one empty signature slot in front of the message.
fn sample_envelope(message: &[u8]) -> Vec<u8> {
    let mut e = vec![1u8];
    e.extend_from_slice(&[0u8; 64]);
    e.extend_from_slice(message);
    e
}

fn dalek_keys(seed: [u8; 32]) -> (Vec<u8>, PublicKey) {
    let secret = SecretKey::from_bytes(&seed).unwrap();
    let public = PublicKey::from(&secret);
    let mut kp = secret.to_bytes().to_vec();
    kp.extend_from_slice(&public.to_bytes());
    (kp, public)
}

#[test]
fn no_signer_passes_bytes_through_unchanged() {
    let message = sample_message([3u8; 32], [5u8; 32]);
    let bytes = sample_envelope(&message);
    let text = base64::encode(&bytes);
    let out = prepare_transaction(&text, None).unwrap();
    assert_eq!(out, bytes);
}

#[test]
fn non_base64_text_is_malformed_and_fatal() {
    let r = prepare_transaction("not ~~ base64 !!!", None);
    assert!(matches!(r, Err(CliError::MalformedTransaction)));
}

#[test]
fn truncated_signature_table_is_malformed() {
    // claims one signature but carries no bytes for it
    let text = base64::encode(&[1u8]);
    let r = prepare_transaction(&text, None);
    assert!(matches!(r, Err(CliError::MalformedTransaction)));
}

#[test]
fn signing_fills_the_slot_against_the_embedded_blockhash() {
    let (kp_bytes, public) = dalek_keys([7u8; 32]);
    let blockhash = [5u8; 32];
    let message = sample_message(public.to_bytes(), blockhash);
    let bytes = sample_envelope(&message);
    let text = base64::encode(&bytes);

    let kp = Keypair::from_vec(kp_bytes).unwrap();
    let out = prepare_transaction(&text, Some(&kp)).unwrap();

    // layout: count byte, 64-byte signature, then the message, untouched
    assert_eq!(out[0], 1);
    assert_eq!(&out[65..], &message[..]);
    let sig = Signature::from_bytes(&out[1..65]).unwrap();
    public.verify(&message, &sig).unwrap();

    // the embedded blockhash still reaches the parser unchanged
    let env = TransactionEnvelope::parse(&out).unwrap();
    assert_eq!(env.blockhash().unwrap(), blockhash.to_vec());
}

#[test]
fn unknown_signer_is_a_mismatch() {
    let (kp_bytes, _) = dalek_keys([7u8; 32]);
    let message = sample_message([3u8; 32], [5u8; 32]);
    let text = base64::encode(&sample_envelope(&message));
    let kp = Keypair::from_vec(kp_bytes).unwrap();
    let r = prepare_transaction(&text, Some(&kp));
    assert!(matches!(r, Err(CliError::SignerMismatch)));
}

#[test]
fn an_inconsistent_keypair_cannot_sign() {
    // the public half belongs to another secret; its slot exists, but
    // signing refuses the key material itself
    let (a, _) = dalek_keys([7u8; 32]);
    let (_, pub_b) = dalek_keys([8u8; 32]);
    let mut mixed = a[..32].to_vec();
    mixed.extend_from_slice(&pub_b.to_bytes());
    let message = sample_message(pub_b.to_bytes(), [5u8; 32]);
    let text = base64::encode(&sample_envelope(&message));
    let kp = Keypair::from_vec(mixed).unwrap();
    let r = prepare_transaction(&text, Some(&kp));
    assert!(matches!(r, Err(CliError::InvalidKeypairEncoding)));
}

#[test]
fn large_signature_tables_round_trip_through_the_two_byte_count() {
    // 300 slots force the two-byte form of the count prefix
    let mut bytes = vec![0xacu8, 0x02];
    for i in 0..300u32 {
        bytes.extend_from_slice(&[(i % 251) as u8; 64]);
    }
    bytes.extend_from_slice(&sample_message([3u8; 32], [5u8; 32]));
    let env = TransactionEnvelope::parse(&bytes).unwrap();
    assert_eq!(env.to_bytes(), bytes);
}

#[test]
fn the_second_signer_gets_the_second_slot() {
    let (kp_bytes, public) = dalek_keys([11u8; 32]);
    // two required signers; ours is the second key
    let mut message = vec![2u8, 0, 0];
    message.push(2);
    message.extend_from_slice(&[1u8; 32]);
    message.extend_from_slice(&public.to_bytes());
    message.extend_from_slice(&[5u8; 32]);
    message.push(0);
    let mut bytes = vec![2u8];
    bytes.extend_from_slice(&[0u8; 128]);
    bytes.extend_from_slice(&message);

    let kp = Keypair::from_vec(kp_bytes).unwrap();
    let out = prepare_transaction(&base64::encode(&bytes), Some(&kp)).unwrap();
    assert_eq!(out[0], 2);
    assert_eq!(&out[1..65], &[0u8; 64][..]); // the first slot stays empty
    let sig = Signature::from_bytes(&out[65..129]).unwrap();
    public.verify(&message, &sig).unwrap();
    assert_eq!(&out[129..], &message[..]);
}

#[test]
fn blockhash_needs_a_complete_message() {
    // message too short to hold header, keys and blockhash
    let env = TransactionEnvelope::parse(&sample_envelope(&[1u8, 0, 0])).unwrap();
    assert!(env.blockhash().is_none());
}
