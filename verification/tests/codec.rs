use p384::ecdsa::signature::Signer;
use p384::ecdsa::{Signature, SigningKey};
use proxima_centauri::command::{parse_envelope, serialize_command, serialize_envelope, Command,
    ProxyCommand};
use proxima_centauri::hexstr::decode_hex;
use proxima_centauri::ident::parse_uuid;
use proxima_centauri::net::IpAddress;

const ID: u128 = 0x67e5504410b1426f9247bb680e5fe0c8;

#[test]
fn serialize_proxy_command_create() {
    let key = SigningKey::from_slice(&[1; 48]).unwrap();
    let signature: Signature = key.sign(&[]); // Not a valid signature
    let proxy_command = ProxyCommand {
        command: Command::Create {
            incoming_port: 5555,
            destination_port: 6666,
            destination_ip: IpAddress::V4 { a: 127, b: 0, c: 0, d: 1 },
            id: ID,
        },
        timestamp: Some(8888),
        signature: Some(signature.to_bytes().to_vec()),
    };
    let expected = "{\"create\":{\"incoming_port\":5555,\"destination_port\":6666,\"\
                    destination_ip\":\"127.0.0.1\",\"id\":\"67e55044-10b1-426f-9247-bb680e5fe0c8\"},\
                    \"timestamp\":8888,\
                    \"signature\":\"\
                        5C912C4B3BFF2ADB49885DCBDB53D6D3041D0632E498CDFF\
                        2114CD2DCAC936AB0901B47C411E5BB57FE77BEF96044940\
                        81680ADAD0775CD144E2D2678537F621ED587E13EB430126\
                        C7A757AEC99CE08A2D0F3A5C9FB45E9349F36408DFD7BA17\"}";

    assert_eq!(serialize_envelope(&proxy_command), expected);
}

#[test]
fn serialize_proxy_command_delete() {
    let key = SigningKey::from_slice(&[1; 48]).unwrap();
    let signature: Signature = key.sign(&[]); // Not a valid signature
    let proxy_command = ProxyCommand {
        command: Command::Delete { id: ID },
        timestamp: Some(987654),
        signature: Some(signature.to_bytes().to_vec()),
    };
    let expected = "{\"delete\":{\"id\":\"67e55044-10b1-426f-9247-bb680e5fe0c8\"},\
                    \"timestamp\":987654,\
                    \"signature\":\"\
                        5C912C4B3BFF2ADB49885DCBDB53D6D3041D0632E498CDFF\
                        2114CD2DCAC936AB0901B47C411E5BB57FE77BEF96044940\
                        81680ADAD0775CD144E2D2678537F621ED587E13EB430126\
                        C7A757AEC99CE08A2D0F3A5C9FB45E9349F36408DFD7BA17\"}";

    assert_eq!(serialize_envelope(&proxy_command), expected);
}

#[test]
fn uuid_text_round_trip() {
    let text = "67e55044-10b1-426f-9247-bb680e5fe0c8";
    let (id, end) = parse_uuid(text, 36, 0).unwrap();
    assert_eq!(id, ID);
    assert_eq!(end, 36);
}

#[test]
fn envelope_round_trip_create() {
    let pc = ProxyCommand {
        command: Command::Create {
            incoming_port: 15000,
            destination_port: 9000,
            destination_ip: IpAddress::V4 { a: 127, b: 0, c: 0, d: 1 },
            id: ID,
        },
        timestamp: Some(8888),
        signature: Some((0u8..96).collect()),
    };
    let text = serialize_envelope(&pc);
    assert_eq!(parse_envelope(&text), Some(pc));
}

#[test]
fn envelope_round_trip_modify_v6() {
    let pc = ProxyCommand {
        command: Command::Modify {
            destination_port: 443,
            destination_ip: IpAddress::V6 {
                s0: 1,
                s1: 0,
                s2: 0xabcd,
                s3: 0xffff,
                s4: 0,
                s5: 22,
                s6: 0x10,
                s7: 0xbeef,
            },
            id: 7,
        },
        timestamp: None,
        signature: None,
    };
    let text = serialize_envelope(&pc);
    assert_eq!(
        text,
        "{\"modify\":{\"destination_port\":443,\
         \"destination_ip\":\"0001:0000:abcd:ffff:0000:0016:0010:beef\",\
         \"id\":\"00000000-0000-0000-0000-000000000007\"}}"
    );
    assert_eq!(parse_envelope(&text), Some(pc));
}

#[test]
fn envelope_round_trip_delete_and_status() {
    let del = ProxyCommand {
        command: Command::Delete { id: ID },
        timestamp: None,
        signature: Some((10u8..106).collect()),
    };
    let text = serialize_envelope(&del);
    assert_eq!(parse_envelope(&text), Some(del));

    let st = ProxyCommand { command: Command::Status, timestamp: Some(0), signature: None };
    let text = serialize_envelope(&st);
    assert_eq!(text, "{\"status\":{},\"timestamp\":0}");
    assert_eq!(parse_envelope(&text), Some(st));
}

#[test]
fn parse_accepts_the_wire_example() {
    let body = "{\"create\":{\"incoming_port\":15000,\"destination_port\":9000,\
                \"destination_ip\":\"127.0.0.1\",\"id\":\"67e55044-10b1-426f-9247-bb680e5fe0c8\"}}";
    let pc = parse_envelope(body).unwrap();
    assert_eq!(
        pc.command,
        Command::Create {
            incoming_port: 15000,
            destination_port: 9000,
            destination_ip: IpAddress::V4 { a: 127, b: 0, c: 0, d: 1 },
            id: ID,
        }
    );
    assert_eq!(pc.timestamp, None);
    assert_eq!(pc.signature, None);
}

#[test]
fn parse_rejects_malformed_envelopes() {
    // Not an object.
    assert_eq!(parse_envelope("status"), None);
    // Unknown key.
    assert_eq!(parse_envelope("{\"open\":{\"id\":\"67e55044-10b1-426f-9247-bb680e5fe0c8\"}}"), None);
    // Port out of range.
    assert_eq!(
        parse_envelope(
            "{\"create\":{\"incoming_port\":70000,\"destination_port\":9000,\
             \"destination_ip\":\"127.0.0.1\",\"id\":\"67e55044-10b1-426f-9247-bb680e5fe0c8\"}}"
        ),
        None
    );
    // Octet out of range.
    assert_eq!(
        parse_envelope(
            "{\"create\":{\"incoming_port\":15000,\"destination_port\":9000,\
             \"destination_ip\":\"127.0.0.256\",\"id\":\"67e55044-10b1-426f-9247-bb680e5fe0c8\"}}"
        ),
        None
    );
    // Truncated signature.
    assert_eq!(
        parse_envelope("{\"delete\":{\"id\":\"67e55044-10b1-426f-9247-bb680e5fe0c8\"},\"signature\":\"AB\"}"),
        None
    );
    // Signatures are canonical upper-case hex only.
    let lower = format!(
        "{{\"delete\":{{\"id\":\"67e55044-10b1-426f-9247-bb680e5fe0c8\"}},\"signature\":\"{}\"}}",
        "ab".repeat(96)
    );
    assert_eq!(parse_envelope(&lower), None);
    let upper = format!(
        "{{\"delete\":{{\"id\":\"67e55044-10b1-426f-9247-bb680e5fe0c8\"}},\"signature\":\"{}\"}}",
        "AB".repeat(96)
    );
    assert_eq!(
        parse_envelope(&upper).unwrap().signature,
        Some(vec![0xabu8; 96])
    );
    // Trailing garbage.
    assert_eq!(parse_envelope("{\"status\":{}} "), None);
}

#[test]
fn envelope_round_trip_extreme_values() {
    let pc = ProxyCommand {
        command: Command::Create {
            incoming_port: 65535,
            destination_port: 0,
            destination_ip: IpAddress::V4 { a: 255, b: 255, c: 255, d: 255 },
            id: u128::MAX,
        },
        timestamp: Some(u64::MAX),
        signature: Some(vec![0u8; 96]),
    };
    let text = serialize_envelope(&pc);
    assert!(text.contains("\"incoming_port\":65535,\"destination_port\":0"));
    assert!(text.contains("\"destination_ip\":\"255.255.255.255\""));
    assert!(text.contains("\"id\":\"ffffffff-ffff-ffff-ffff-ffffffffffff\""));
    assert!(text.contains("\"timestamp\":18446744073709551615"));
    assert_eq!(parse_envelope(&text), Some(pc));

    let zero = ProxyCommand {
        command: Command::Delete { id: 0 },
        timestamp: Some(0),
        signature: None,
    };
    let text = serialize_envelope(&zero);
    assert_eq!(
        text,
        "{\"delete\":{\"id\":\"00000000-0000-0000-0000-000000000000\"},\"timestamp\":0}"
    );
    assert_eq!(parse_envelope(&text), Some(zero));
}

#[test]
fn serialization_is_byte_stable() {
    let c = Command::Create {
        incoming_port: 15000,
        destination_port: 9000,
        destination_ip: IpAddress::V4 { a: 127, b: 0, c: 0, d: 1 },
        id: ID,
    };
    assert_eq!(serialize_command(&c), serialize_command(&c));
}

#[test]
fn hex_decoding_accepts_both_cases() {
    assert_eq!(decode_hex("0aFF"), Some(vec![10, 255]));
    assert_eq!(decode_hex("0aF"), None);
    assert_eq!(decode_hex("zz"), None);
    assert_eq!(decode_hex(""), Some(vec![]));
}
