use p384::ecdsa::signature::Signer;
use p384::ecdsa::{Signature, SigningKey, VerifyingKey};
use p384::elliptic_curve::rand_core::OsRng;
use p384::elliptic_curve::sec1::ToEncodedPoint;
use proxima_centauri::command::{parse_envelope, serialize_signed_message, Command, ProxyCommand};
use proxima_centauri::dispatch::{process_command, Action};
use proxima_centauri::net::{Destination, IpAddress};
use proxima_centauri::registry::{GlobalState, RegistryOutcome};
use proxima_centauri::response::{serialize_response, ProxyResponse};
use proxima_centauri::runtime::{listener_step, transfer_begin, transfer_race, ListenerEvent,
    ListenerStep, ProxyControlMessage, TransferEvent, TransferStep};

const ID: u128 = 0x67e5504410b1426f9247bb680e5fe0c8;
const ID2: u128 = 0x11111111222233334444555555555555;

fn local(port: u16) -> Destination {
    Destination { ip: IpAddress::V4 { a: 127, b: 0, c: 0, d: 1 }, port }
}

fn dispatch(state: &mut GlobalState, body: &str) -> (u16, String, Action) {
    let payload = parse_envelope(body).expect("canonical body");
    let (reply, action) = process_command(state, &payload, 0);
    (reply.status, reply.body, action)
}

#[test]
fn create_then_echo_setup() {
    // S1's control-plane half: the create command is accepted and asks for a
    // listener on 15000 toward 127.0.0.1:9000.
    let mut state = GlobalState::new(None);
    let (status, body, action) = dispatch(
        &mut state,
        "{\"create\":{\"incoming_port\":15000,\"destination_port\":9000,\
         \"destination_ip\":\"127.0.0.1\",\"id\":\"67e55044-10b1-426f-9247-bb680e5fe0c8\"}}",
    );
    assert_eq!(status, 202);
    assert_eq!(
        body,
        "{\"Message\":\"Created tunnel 67e55044-10b1-426f-9247-bb680e5fe0c8 \
         on port 15000 to use 127.0.0.1:9000\"}"
    );
    assert_eq!(
        action,
        Action::SpawnListener { id: ID, incoming_port: 15000, destination: local(9000) }
    );
    assert_eq!(state.tunnels.len(), 1);
    assert_eq!(state.ports, vec![15000]);
}

#[test]
fn port_and_id_conflicts() {
    // S2: a second create on the same port gets 409 naming the port; the
    // same id on another port gets 409 as well.
    let mut state = GlobalState::new(None);
    assert_eq!(state.create(ID, 15000, local(9000)), RegistryOutcome::Accepted);

    let (status, body, action) = dispatch(
        &mut state,
        "{\"create\":{\"incoming_port\":15000,\"destination_port\":9001,\
         \"destination_ip\":\"127.0.0.1\",\"id\":\"11111111-2222-3333-4444-555555555555\"}}",
    );
    assert_eq!(status, 409);
    assert!(body.contains("15000"));
    assert_eq!(action, Action::NoAction);

    let (status, body, action) = dispatch(
        &mut state,
        "{\"create\":{\"incoming_port\":15001,\"destination_port\":9001,\
         \"destination_ip\":\"127.0.0.1\",\"id\":\"67e55044-10b1-426f-9247-bb680e5fe0c8\"}}",
    );
    assert_eq!(status, 409);
    assert_eq!(body, "{\"Message\":\"Id already exists. Use the modify command instead.\"}");
    assert_eq!(action, Action::NoAction);

    // The failed creates left nothing behind.
    assert_eq!(state.tunnels.len(), 1);
    assert_eq!(state.ports, vec![15000]);
}

#[test]
fn modify_updates_destination_and_broadcasts() {
    // S3's control-plane half: modify points the tunnel at 9001 and asks for
    // an `Open` broadcast with the new destination.
    let mut state = GlobalState::new(None);
    assert_eq!(state.create(ID, 15000, local(9000)), RegistryOutcome::Accepted);

    let (status, body, action) = dispatch(
        &mut state,
        "{\"modify\":{\"destination_port\":9001,\"destination_ip\":\"127.0.0.1\",\
         \"id\":\"67e55044-10b1-426f-9247-bb680e5fe0c8\"}}",
    );
    assert_eq!(status, 202);
    assert_eq!(
        body,
        "{\"Message\":\"Changed tunnel 67e55044-10b1-426f-9247-bb680e5fe0c8 \
         to use 127.0.0.1:9001\"}"
    );
    assert_eq!(action, Action::BroadcastOpen { id: ID, destination: local(9001) });
    assert_eq!(state.tunnels[0].destination, local(9001));
    assert_eq!(
        state.tunnels[0].latest,
        ProxyControlMessage::Open { destination: local(9001) }
    );
    // The transfers react to that broadcast by dropping the outbound socket
    // and redialing the new destination.
    assert_eq!(
        transfer_race(&TransferEvent::ControlChanged {
            message: ProxyControlMessage::Open { destination: local(9001) },
        }),
        TransferStep::DropOutboundAndRedial
    );
    assert_eq!(
        transfer_begin(&ProxyControlMessage::Open { destination: local(9001) }),
        TransferStep::Dial { destination: local(9001) }
    );
}

#[test]
fn delete_closes_and_is_not_repeatable() {
    // S4's control-plane half, and the idempotence of delete: the second
    // delete answers 404 and changes nothing.
    let mut state = GlobalState::new(None);
    assert_eq!(state.create(ID, 15000, local(9000)), RegistryOutcome::Accepted);

    let (status, body, action) =
        dispatch(&mut state, "{\"delete\":{\"id\":\"67e55044-10b1-426f-9247-bb680e5fe0c8\"}}");
    assert_eq!(status, 202);
    assert_eq!(body, "{\"Message\":\"Deleted tunnel: 67e55044-10b1-426f-9247-bb680e5fe0c8\"}");
    assert_eq!(action, Action::BroadcastClose { id: ID });
    assert!(state.tunnels.is_empty());
    assert!(state.ports.is_empty());
    // The listener shuts down on that broadcast, releasing the port.
    assert_eq!(
        listener_step(&ListenerEvent::ControlChanged { message: ProxyControlMessage::Close }),
        ListenerStep::Shutdown
    );

    let (status, body, action) =
        dispatch(&mut state, "{\"delete\":{\"id\":\"67e55044-10b1-426f-9247-bb680e5fe0c8\"}}");
    assert_eq!(status, 404);
    assert_eq!(body, "{\"Message\":\"Id not found: 67e55044-10b1-426f-9247-bb680e5fe0c8\"}");
    assert_eq!(action, Action::NoAction);
    assert!(state.tunnels.is_empty());
    assert!(state.ports.is_empty());
}

#[test]
fn stale_signature_is_refused_by_the_dispatcher() {
    // S5: with a configured key, an otherwise-valid envelope whose timestamp
    // is two minutes old gets 401.
    let signing_key = SigningKey::random(&mut OsRng);
    let vk_hex: String = VerifyingKey::from(&signing_key)
        .to_encoded_point(false)
        .as_bytes()
        .iter()
        .map(|b| format!("{b:02x}"))
        .collect();
    let mut state = GlobalState::new(Some(&vk_hex));
    assert!(state.verifying_key.is_some());

    let now: u64 = 1_700_000_000;
    let command = Command::Create {
        incoming_port: 15000,
        destination_port: 9000,
        destination_ip: IpAddress::V4 { a: 127, b: 0, c: 0, d: 1 },
        id: ID,
    };
    let message = serialize_signed_message(&command, now - 120);
    let signature: Signature = signing_key.sign(message.as_bytes());
    let payload = ProxyCommand {
        command,
        timestamp: Some(now - 120),
        signature: Some(signature.to_bytes().to_vec()),
    };
    let (reply, action) = process_command(&mut state, &payload, now);
    assert_eq!(reply.status, 401);
    assert_eq!(reply.body, "{\"Message\":\"Invalid signature\"}");
    assert_eq!(action, Action::NoAction);
    assert!(state.tunnels.is_empty());

    // The same envelope with a fresh timestamp goes through.
    let message = serialize_signed_message(&payload.command, now);
    let signature: Signature = signing_key.sign(message.as_bytes());
    let fresh = ProxyCommand {
        command: payload.command,
        timestamp: Some(now),
        signature: Some(signature.to_bytes().to_vec()),
    };
    let (reply, _) = process_command(&mut state, &fresh, now);
    assert_eq!(reply.status, 202);
}

#[test]
fn status_snapshot_lists_both_tunnels() {
    // S6: after two successful creates, status answers 200 with exactly the
    // two entries.
    let mut state = GlobalState::new(None);
    dispatch(
        &mut state,
        "{\"create\":{\"incoming_port\":15000,\"destination_port\":9000,\
         \"destination_ip\":\"127.0.0.1\",\"id\":\"67e55044-10b1-426f-9247-bb680e5fe0c8\"}}",
    );
    dispatch(
        &mut state,
        "{\"create\":{\"incoming_port\":15001,\"destination_port\":9001,\
         \"destination_ip\":\"127.0.0.1\",\"id\":\"11111111-2222-3333-4444-555555555555\"}}",
    );
    let (status, body, action) = dispatch(&mut state, "{\"status\":{}}");
    assert_eq!(status, 200);
    assert_eq!(
        body,
        "{\"Status\":{\"tunnels\":{\
         \"67e55044-10b1-426f-9247-bb680e5fe0c8\":[15000,\"127.0.0.1:9000\"],\
         \"11111111-2222-3333-4444-555555555555\":[15001,\"127.0.0.1:9001\"]}}}"
    );
    assert_eq!(action, Action::NoAction);
    assert_eq!(state.tunnels.len(), 2);
}

#[test]
fn port_list_matches_records_after_every_step() {
    // The registry's port list always equals the ports of the live records.
    let mut state = GlobalState::new(None);
    let check = |state: &GlobalState| {
        let mut from_records: Vec<u16> =
            state.tunnels.iter().map(|t| t.incoming_port).collect();
        let mut ports = state.ports.clone();
        from_records.sort();
        ports.sort();
        assert_eq!(ports, from_records);
    };
    check(&state);
    state.create(ID, 15000, local(9000));
    check(&state);
    state.create(ID2, 15001, local(9001));
    check(&state);
    state.modify(ID, local(9002));
    check(&state);
    state.delete(ID2);
    check(&state);
    state.create(ID2, 15001, local(9001));
    check(&state);
    state.delete(ID);
    check(&state);
    state.delete(ID);
    check(&state);
}

#[test]
fn listener_and_transfer_decisions() {
    assert_eq!(listener_step(&ListenerEvent::Accepted), ListenerStep::SpawnTransfer);
    assert_eq!(listener_step(&ListenerEvent::AcceptFailed), ListenerStep::KeepListening);
    assert_eq!(
        listener_step(&ListenerEvent::ControlChanged {
            message: ProxyControlMessage::Open { destination: local(9000) },
        }),
        ListenerStep::KeepListening
    );
    assert_eq!(transfer_begin(&ProxyControlMessage::Close), TransferStep::ExitClean);
    assert_eq!(
        transfer_race(&TransferEvent::CopyFinished {
            client_to_server_ok: true,
            server_to_client_ok: true,
        }),
        TransferStep::ExitClean
    );
    assert_eq!(
        transfer_race(&TransferEvent::CopyFinished {
            client_to_server_ok: true,
            server_to_client_ok: false,
        }),
        TransferStep::ExitError
    );
    assert_eq!(transfer_race(&TransferEvent::DialFailed), TransferStep::ExitError);
    assert_eq!(
        transfer_race(&TransferEvent::ControlChanged { message: ProxyControlMessage::Close }),
        TransferStep::ExitClean
    );
}

#[test]
fn the_root_greets() {
    assert_eq!(proxima_centauri::root(), "Hello, World!");
    let body = serialize_response(&ProxyResponse::Message("a \"quoted\" text".to_string()));
    assert_eq!(body, "{\"Message\":\"a \\\"quoted\\\" text\"}");
}
