//! The command dispatcher: verify the envelope, drive the registry, and
//! build the HTTP reply and the runtime action that the caller must perform
//! (spawn a listener, broadcast a control message, or nothing).

use vstd::prelude::*;
use vstd::string::StringExecFns;
use crate::auth::spec_verify_at;
use crate::command::{Command, ProxyCommand, spec_sig_bytes};
use crate::digits::{spec_num_chars, push_num_chars};
use crate::ident::{spec_ser_uuid, push_uuid};
use crate::net::{IpAddress, Destination, spec_ser_ip, push_ip};
use crate::registry::{GlobalState, RegistryOutcome, spec_create, spec_modify, spec_delete};
use crate::response::{ProxyResponse, spec_body_message, spec_body_status, serialize_response};
use crate::strutil::push_char;

verus! {

/// An HTTP reply: the status code and the JSON body.
pub struct HttpReply {
    pub status: u16,
    pub body: String,
}

/// What the caller must do after a command was applied to the registry.
#[derive(Clone, Copy, PartialEq, Eq, Debug)]
pub enum Action {
    SpawnListener { id: u128, incoming_port: u16, destination: Destination },
    BroadcastOpen { id: u128, destination: Destination },
    BroadcastClose { id: u128 },
    NoAction,
}

/// The message for a created tunnel.
pub open spec fn spec_msg_created(id: u128, incoming_port: u16, ip: IpAddress, port: u16) -> Seq<
    char,
> {
    "Created tunnel "@ + spec_ser_uuid(id) + " on port "@ + spec_num_chars(incoming_port as nat, 10)
        + " to use "@ + spec_ser_ip(ip) + seq![':'] + spec_num_chars(port as nat, 10)
}

/// The message for a modified tunnel.
pub open spec fn spec_msg_changed(id: u128, ip: IpAddress, port: u16) -> Seq<char> {
    "Changed tunnel "@ + spec_ser_uuid(id) + " to use "@ + spec_ser_ip(ip) + seq![':']
        + spec_num_chars(port as nat, 10)
}

/// The message for a deleted tunnel.
pub open spec fn spec_msg_deleted(id: u128) -> Seq<char> {
    "Deleted tunnel: "@ + spec_ser_uuid(id)
}

/// The message for an id that is not present.
pub open spec fn spec_msg_not_found(id: u128) -> Seq<char> {
    "Id not found: "@ + spec_ser_uuid(id)
}

/// The message for a port that is already reserved.
pub open spec fn spec_msg_port_in_use(incoming_port: u16) -> Seq<char> {
    "The `incoming_port` already in use: "@ + spec_num_chars(incoming_port as nat, 10)
}

/// Build a message reply with the given status code.
fn message_reply(status: u16, text: String) -> (r: HttpReply)
    ensures
        r.status == status,
        r.body@ == spec_body_message(text@),
{
    let body = serialize_response(&ProxyResponse::Message(text));
    HttpReply { status, body }
}

/// Handle one authenticated, parsed command: verify its signature against
/// the configured key at time `now`, apply it to the registry, and return
/// the HTTP reply together with the action the caller must perform.
#[verifier::rlimit(30)]
pub fn process_command(state: &mut GlobalState, payload: &ProxyCommand, now: u64) -> (r: (
    HttpReply,
    Action,
))
    requires
        old(state).wf(),
    ensures
        final(state).wf(),
        final(state).verifying_key == old(state).verifying_key,
        ({
            let verified = spec_verify_at(
                *payload,
                spec_sig_bytes(old(state).verifying_key),
                now,
            );
            let reply = r.0;
            let action = r.1;
            if !verified {
                &&& final(state).tunnels@ == old(state).tunnels@
                &&& final(state).ports@ == old(state).ports@
                &&& reply.status == 401
                &&& reply.body@ == spec_body_message("Invalid signature"@)
                &&& action == Action::NoAction
            } else {
                match payload.command {
                    Command::Create { incoming_port, destination_port, destination_ip, id } => {
                        let dst = Destination { ip: destination_ip, port: destination_port };
                        let sc = spec_create(
                            old(state).tunnels@,
                            old(state).ports@,
                            id,
                            incoming_port,
                            dst,
                        );
                        &&& final(state).tunnels@ == sc.0
                        &&& final(state).ports@ == sc.1
                        &&& match sc.2 {
                            RegistryOutcome::Accepted => {
                                &&& reply.status == 202
                                &&& reply.body@ == spec_body_message(
                                    spec_msg_created(
                                        id,
                                        incoming_port,
                                        destination_ip,
                                        destination_port,
                                    ),
                                )
                                &&& action == (Action::SpawnListener {
                                    id,
                                    incoming_port,
                                    destination: dst,
                                })
                            },
                            RegistryOutcome::IdConflict => {
                                &&& reply.status == 409
                                &&& reply.body@ == spec_body_message(
                                    "Id already exists. Use the modify command instead."@,
                                )
                                &&& action == Action::NoAction
                            },
                            _ => {
                                &&& sc.2 == RegistryOutcome::PortConflict
                                &&& reply.status == 409
                                &&& reply.body@ == spec_body_message(
                                    spec_msg_port_in_use(incoming_port),
                                )
                                &&& action == Action::NoAction
                            },
                        }
                    },
                    Command::Modify { destination_port, destination_ip, id } => {
                        let dst = Destination { ip: destination_ip, port: destination_port };
                        let sm = spec_modify(old(state).tunnels@, id, dst);
                        &&& final(state).tunnels@ == sm.0
                        &&& final(state).ports@ == old(state).ports@
                        &&& match sm.1 {
                            RegistryOutcome::Accepted => {
                                &&& reply.status == 202
                                &&& reply.body@ == spec_body_message(
                                    spec_msg_changed(id, destination_ip, destination_port),
                                )
                                &&& action == (Action::BroadcastOpen { id, destination: dst })
                            },
                            _ => {
                                &&& sm.1 == RegistryOutcome::NotFound
                                &&& reply.status == 404
                                &&& reply.body@ == spec_body_message(spec_msg_not_found(id))
                                &&& action == Action::NoAction
                            },
                        }
                    },
                    Command::Delete { id } => {
                        let sd = spec_delete(old(state).tunnels@, old(state).ports@, id);
                        &&& final(state).tunnels@ == sd.0
                        &&& final(state).ports@ == sd.1
                        &&& match sd.2 {
                            RegistryOutcome::Accepted => {
                                &&& reply.status == 202
                                &&& reply.body@ == spec_body_message(spec_msg_deleted(id))
                                &&& action == (Action::BroadcastClose { id })
                            },
                            _ => {
                                &&& sd.2 == RegistryOutcome::NotFound
                                &&& reply.status == 404
                                &&& reply.body@ == spec_body_message(spec_msg_not_found(id))
                                &&& action == Action::NoAction
                            },
                        }
                    },
                    Command::Status => {
                        &&& final(state).tunnels@ == old(state).tunnels@
                        &&& final(state).ports@ == old(state).ports@
                        &&& reply.status == 200
                        &&& reply.body@ == spec_body_status(old(state).tunnels@)
                        &&& action == Action::NoAction
                    },
                }
            }
        }),
{
    if !payload.verify_signature_at(&state.verifying_key, now) {
        let mut text = String::new();
        text.append("Invalid signature");
        proof {
            assert(text@ =~= "Invalid signature"@);
        }
        return (message_reply(401, text), Action::NoAction);
    }
    match &payload.command {
        Command::Create { incoming_port, destination_port, destination_ip, id } => {
            let dst = Destination { ip: *destination_ip, port: *destination_port };
            match state.create(*id, *incoming_port, dst) {
                RegistryOutcome::Accepted => {
                    let mut text = String::new();
                    text.append("Created tunnel ");
                    push_uuid(&mut text, *id);
                    text.append(" on port ");
                    push_num_chars(&mut text, *incoming_port as u64, 10);
                    text.append(" to use ");
                    push_ip(&mut text, destination_ip);
                    push_char(&mut text, ':');
                    push_num_chars(&mut text, *destination_port as u64, 10);
                    proof {
                        assert(text@ =~= spec_msg_created(
                            *id,
                            *incoming_port,
                            *destination_ip,
                            *destination_port,
                        ));
                    }
                    (
                        message_reply(202, text),
                        Action::SpawnListener {
                            id: *id,
                            incoming_port: *incoming_port,
                            destination: dst,
                        },
                    )
                },
                RegistryOutcome::IdConflict => {
                    let mut text = String::new();
                    text.append("Id already exists. Use the modify command instead.");
                    proof {
                        assert(text@ =~= "Id already exists. Use the modify command instead."@);
                    }
                    (message_reply(409, text), Action::NoAction)
                },
                _ => {
                    let mut text = String::new();
                    text.append("The `incoming_port` already in use: ");
                    push_num_chars(&mut text, *incoming_port as u64, 10);
                    proof {
                        assert(text@ =~= spec_msg_port_in_use(*incoming_port));
                    }
                    (message_reply(409, text), Action::NoAction)
                },
            }
        },
        Command::Modify { destination_port, destination_ip, id } => {
            let dst = Destination { ip: *destination_ip, port: *destination_port };
            match state.modify(*id, dst) {
                RegistryOutcome::Accepted => {
                    let mut text = String::new();
                    text.append("Changed tunnel ");
                    push_uuid(&mut text, *id);
                    text.append(" to use ");
                    push_ip(&mut text, destination_ip);
                    push_char(&mut text, ':');
                    push_num_chars(&mut text, *destination_port as u64, 10);
                    proof {
                        assert(text@ =~= spec_msg_changed(*id, *destination_ip, *destination_port));
                    }
                    (message_reply(202, text), Action::BroadcastOpen { id: *id, destination: dst })
                },
                _ => {
                    let mut text = String::new();
                    text.append("Id not found: ");
                    push_uuid(&mut text, *id);
                    proof {
                        assert(text@ =~= spec_msg_not_found(*id));
                    }
                    (message_reply(404, text), Action::NoAction)
                },
            }
        },
        Command::Delete { id } => {
            match state.delete(*id) {
                RegistryOutcome::Accepted => {
                    let mut text = String::new();
                    text.append("Deleted tunnel: ");
                    push_uuid(&mut text, *id);
                    proof {
                        assert(text@ =~= spec_msg_deleted(*id));
                    }
                    (message_reply(202, text), Action::BroadcastClose { id: *id })
                },
                _ => {
                    let mut text = String::new();
                    text.append("Id not found: ");
                    push_uuid(&mut text, *id);
                    proof {
                        assert(text@ =~= spec_msg_not_found(*id));
                    }
                    (message_reply(404, text), Action::NoAction)
                },
            }
        },
        Command::Status => {
            let tunnels = state.status();
            let body = serialize_response(&ProxyResponse::Status { tunnels });
            (HttpReply { status: 200, body }, Action::NoAction)
        },
    }
}

} // verus!
