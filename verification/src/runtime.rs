//! The proxy runtime's decisions: what the listener loop and the transfer
//! pipeline do on each event. The loops themselves perform network work and
//! live outside the library; they feed every event through these functions
//! and perform the returned action, so the decision logic is verified here.

use vstd::prelude::*;
use crate::net::Destination;

verus! {

/// A message on a tunnel's control channel (latest-value broadcast).
#[derive(Clone, Copy, PartialEq, Eq, Debug)]
pub enum ProxyControlMessage {
    Open { destination: Destination },
    Close,
}

/// What a listener loop observes in one round: an accepted connection, a
/// failed accept, or a change of the control value.
#[derive(Clone, Copy, PartialEq, Eq, Debug)]
pub enum ListenerEvent {
    Accepted,
    AcceptFailed,
    ControlChanged { message: ProxyControlMessage },
}

/// What a listener loop does next.
#[derive(Clone, Copy, PartialEq, Eq, Debug)]
pub enum ListenerStep {
    SpawnTransfer,
    KeepListening,
    Shutdown,
}

/// The listener's decision on an event: accepted connections get a transfer
/// task, accept errors are ignored, a new destination is noted without any
/// action of the listener's own, and `Close` shuts the listener down.
pub open spec fn spec_listener_step(event: ListenerEvent) -> ListenerStep {
    match event {
        ListenerEvent::Accepted => ListenerStep::SpawnTransfer,
        ListenerEvent::AcceptFailed => ListenerStep::KeepListening,
        ListenerEvent::ControlChanged { message: ProxyControlMessage::Open { .. } } =>
            ListenerStep::KeepListening,
        ListenerEvent::ControlChanged { message: ProxyControlMessage::Close } =>
            ListenerStep::Shutdown,
    }
}

/// Decide the listener loop's next step for one event.
pub fn listener_step(event: &ListenerEvent) -> (r: ListenerStep)
    ensures
        r == spec_listener_step(*event),
{
    match event {
        ListenerEvent::Accepted => ListenerStep::SpawnTransfer,
        ListenerEvent::AcceptFailed => ListenerStep::KeepListening,
        ListenerEvent::ControlChanged { message: ProxyControlMessage::Open { .. } } =>
            ListenerStep::KeepListening,
        ListenerEvent::ControlChanged { message: ProxyControlMessage::Close } =>
            ListenerStep::Shutdown,
    }
}

/// What a transfer pipeline observes while racing its two byte-copy
/// directions against the control channel.
#[derive(Clone, Copy, PartialEq, Eq, Debug)]
pub enum TransferEvent {
    DialFailed,
    CopyFinished { client_to_server_ok: bool, server_to_client_ok: bool },
    ControlChanged { message: ProxyControlMessage },
}

/// What a transfer pipeline does next.
#[derive(Clone, Copy, PartialEq, Eq, Debug)]
pub enum TransferStep {
    Dial { destination: Destination },
    ExitClean,
    ExitError,
    DropOutboundAndRedial,
}

/// The decision at the top of the transfer loop, on the current control
/// value: dial the current destination, or exit cleanly on `Close`.
pub open spec fn spec_transfer_begin(message: ProxyControlMessage) -> TransferStep {
    match message {
        ProxyControlMessage::Open { destination } => TransferStep::Dial { destination },
        ProxyControlMessage::Close => TransferStep::ExitClean,
    }
}

/// Decide whether a transfer dials, and where, from the control value.
pub fn transfer_begin(message: &ProxyControlMessage) -> (r: TransferStep)
    ensures
        r == spec_transfer_begin(*message),
{
    match message {
        ProxyControlMessage::Open { destination } => TransferStep::Dial {
            destination: *destination,
        },
        ProxyControlMessage::Close => TransferStep::ExitClean,
    }
}

/// The decision after racing the copies against the control channel: both
/// directions done cleanly means a clean exit, any copy or dial error ends
/// the transfer with the error, a new destination drops the outbound socket
/// and redials, and `Close` exits cleanly.
pub open spec fn spec_transfer_race(event: TransferEvent) -> TransferStep {
    match event {
        TransferEvent::DialFailed => TransferStep::ExitError,
        TransferEvent::CopyFinished { client_to_server_ok, server_to_client_ok } => {
            if client_to_server_ok && server_to_client_ok {
                TransferStep::ExitClean
            } else {
                TransferStep::ExitError
            }
        },
        TransferEvent::ControlChanged { message: ProxyControlMessage::Open { .. } } =>
            TransferStep::DropOutboundAndRedial,
        TransferEvent::ControlChanged { message: ProxyControlMessage::Close } =>
            TransferStep::ExitClean,
    }
}

/// Decide the transfer pipeline's next step for one race outcome.
pub fn transfer_race(event: &TransferEvent) -> (r: TransferStep)
    ensures
        r == spec_transfer_race(*event),
{
    match event {
        TransferEvent::DialFailed => TransferStep::ExitError,
        TransferEvent::CopyFinished { client_to_server_ok, server_to_client_ok } => {
            if *client_to_server_ok && *server_to_client_ok {
                TransferStep::ExitClean
            } else {
                TransferStep::ExitError
            }
        },
        TransferEvent::ControlChanged { message: ProxyControlMessage::Open { .. } } =>
            TransferStep::DropOutboundAndRedial,
        TransferEvent::ControlChanged { message: ProxyControlMessage::Close } =>
            TransferStep::ExitClean,
    }
}

/// A `Close` on the control channel always ends the task that sees it: the
/// listener shuts down and a transfer exits cleanly, whether it is about to
/// dial or mid-copy.
pub proof fn lemma_close_ends_tasks()
    ensures
        spec_listener_step(
            ListenerEvent::ControlChanged { message: ProxyControlMessage::Close },
        ) == ListenerStep::Shutdown,
        spec_transfer_begin(ProxyControlMessage::Close) == TransferStep::ExitClean,
        spec_transfer_race(
            TransferEvent::ControlChanged { message: ProxyControlMessage::Close },
        ) == TransferStep::ExitClean,
{
}

} // verus!
