use p384::ecdsa::signature::Signer;
use p384::ecdsa::{Signature, SigningKey, VerifyingKey};
use p384::elliptic_curve::rand_core::OsRng;
use p384::elliptic_curve::sec1::ToEncodedPoint;
use proxima_centauri::command::{serialize_signed_message, Command, ProxyCommand};
use proxima_centauri::net::IpAddress;
use proxima_centauri::registry::GlobalState;

const ID: u128 = 0x67e5504410b1426f9247bb680e5fe0c8;

fn unix_now() -> u64 {
    std::time::SystemTime::now()
        .duration_since(std::time::UNIX_EPOCH)
        .unwrap()
        .as_secs()
}

fn sample_command() -> Command {
    Command::Create {
        incoming_port: 4567,
        destination_port: 7654,
        destination_ip: IpAddress::V4 { a: 123, b: 23, c: 76, d: 21 },
        id: ID,
    }
}

fn signed_envelope(signing_key: &SigningKey, command: Command, timestamp: u64) -> ProxyCommand {
    let message = serialize_signed_message(&command, timestamp);
    let signature: Signature = signing_key.sign(message.as_bytes());
    ProxyCommand { command, timestamp: Some(timestamp), signature: Some(signature.to_bytes().to_vec()) }
}

fn key_bytes(signing_key: &SigningKey) -> Vec<u8> {
    VerifyingKey::from(signing_key).to_encoded_point(false).as_bytes().to_vec()
}

#[test]
fn verify_signature() {
    let command = sample_command();

    // Create signed message
    let signing_key = SigningKey::random(&mut OsRng);
    let timestamp = unix_now();
    let message = serialize_signed_message(&command, timestamp);
    let signature: Signature = signing_key.sign(message.as_bytes());
    let bytes = signature.to_bytes();
    assert_eq!(bytes.len(), 96);
    let proxy_command = ProxyCommand {
        command,
        timestamp: Some(timestamp),
        signature: Some(bytes.to_vec()),
    };

    // Verify signed message
    let vk = key_bytes(&signing_key);
    assert!(proxy_command.verify_signature_at(&Some(vk), timestamp));
}

#[test]
fn verification_without_key_accepts_everything() {
    let pc = ProxyCommand { command: sample_command(), timestamp: None, signature: None };
    assert!(pc.verify_signature_at(&None, unix_now()));
}

#[test]
fn missing_signature_or_timestamp_is_rejected() {
    let signing_key = SigningKey::random(&mut OsRng);
    let vk = Some(key_bytes(&signing_key));
    let now = unix_now();

    let unsigned = ProxyCommand { command: sample_command(), timestamp: Some(now), signature: None };
    assert!(!unsigned.verify_signature_at(&vk, now));

    let mut signed = signed_envelope(&signing_key, sample_command(), now);
    signed.timestamp = None;
    assert!(!signed.verify_signature_at(&vk, now));
}

#[test]
fn freshness_window_is_enforced() {
    let signing_key = SigningKey::random(&mut OsRng);
    let vk = Some(key_bytes(&signing_key));
    let now = unix_now();

    // An otherwise-valid envelope whose timestamp is stale or too far ahead.
    assert!(!signed_envelope(&signing_key, sample_command(), now - 120).verify_signature_at(&vk, now));
    assert!(!signed_envelope(&signing_key, sample_command(), now + 45).verify_signature_at(&vk, now));
    // Edges of the window.
    assert!(signed_envelope(&signing_key, sample_command(), now - 60).verify_signature_at(&vk, now));
    assert!(signed_envelope(&signing_key, sample_command(), now + 30).verify_signature_at(&vk, now));
    assert!(!signed_envelope(&signing_key, sample_command(), now - 61).verify_signature_at(&vk, now));
    assert!(!signed_envelope(&signing_key, sample_command(), now + 31).verify_signature_at(&vk, now));
}

#[test]
fn any_mutation_is_rejected() {
    let signing_key = SigningKey::random(&mut OsRng);
    let vk = Some(key_bytes(&signing_key));
    let now = unix_now();
    let good = signed_envelope(&signing_key, sample_command(), now);
    assert!(good.verify_signature_at(&vk, now));

    // A flipped signature bit.
    let mut bad_sig = good.clone();
    if let Some(sig) = &mut bad_sig.signature {
        sig[17] ^= 1;
    }
    assert!(!bad_sig.verify_signature_at(&vk, now));

    // A different message under the same signature.
    let mut bad_cmd = good.clone();
    bad_cmd.command = Command::Delete { id: ID };
    assert!(!bad_cmd.verify_signature_at(&vk, now));

    // A shifted timestamp under the same signature.
    let mut bad_ts = good.clone();
    bad_ts.timestamp = Some(now + 1);
    assert!(!bad_ts.verify_signature_at(&vk, now));

    // A different key.
    let other = SigningKey::random(&mut OsRng);
    assert!(!good.verify_signature_at(&Some(key_bytes(&other)), now));
}

#[test]
fn key_configuration_follows_the_argument() {
    let signing_key = SigningKey::random(&mut OsRng);
    let hex: String = key_bytes(&signing_key).iter().map(|b| format!("{b:02x}")).collect();

    let configured = GlobalState::new(Some(&hex));
    assert!(configured.verifying_key.is_some());
    assert_eq!(configured.verifying_key.as_deref(), Some(key_bytes(&signing_key).as_slice()));

    // Not hex, or hex that is no P-384 point: verification is disabled.
    assert!(GlobalState::new(Some("zz")).verifying_key.is_none());
    assert!(GlobalState::new(Some("00ff00ff")).verifying_key.is_none());
    assert!(GlobalState::new(None).verifying_key.is_none());
}
