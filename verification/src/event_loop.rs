//! The event loop's decisions, taken out of the loop.
//!
//! The driver wakes on a timer tick or on a cancellation signal,
//! polls the client on ticks, and hands whatever happened to
//! `loop_step`, which decides the next state and the one action to
//! perform. A malformed event never stops the loop: its tick is
//! skipped. Cancellation stops the loop and asks for a best-effort
//! detach before control returns.

use vstd::prelude::*;
use crate::client::station_info_command;
use crate::events::{Event, EventModel, spec_parse};
use crate::mac::mac_str;

verus! {

/// The loop's state: it runs until cancelled, then stops for good.
#[derive(Debug, Clone, Copy, PartialEq, Eq, Structural)]
pub enum LoopState {
    Running,
    Stopped,
}

/// What the driver woke up on: a timer tick, carrying what one poll
/// of the client returned, or the external cancellation signal.
pub enum Wakeup {
    Tick { payload: Option<String> },
    Cancel,
}

/// The one action the driver performs after a step.
#[derive(Debug, PartialEq, Eq)]
pub enum LoopAction {
    /// Nothing this tick: no event, an event needing no follow-up, or
    /// a malformed event that is skipped.
    Idle,
    /// A station connected: issue this station-details command as the
    /// next request.
    Query { command: String },
    /// The loop is stopping: detach, best-effort, before returning.
    Detach,
}

/// One step of the event loop. On cancellation the loop stops and
/// detaches. On a tick, a payload that parses to a station
/// connection asks for that station's details; every other outcome —
/// no payload, another event, or a parse failure — leaves the loop
/// idle and running.
pub fn loop_step(state: LoopState, wakeup: Wakeup) -> (r: (LoopState, LoopAction))
    ensures
        state is Stopped ==> r.0 is Stopped && r.1 is Idle,
        state is Running ==> match wakeup {
            Wakeup::Cancel => r.0 is Stopped && r.1 is Detach,
            Wakeup::Tick { payload } => r.0 is Running && match payload {
                None => r.1 is Idle,
                Some(s) => match spec_parse(s@) {
                    Ok(ev) => match ev {
                        EventModel::StationConnected { mac } => (r.1 matches LoopAction::Query {
                            command,
                        } && command@ == "STA "@ + mac_str(mac)),
                        _ => r.1 is Idle,
                    },
                    Err(_) => r.1 is Idle,
                },
            },
        },
{
    match state {
        LoopState::Stopped => (LoopState::Stopped, LoopAction::Idle),
        LoopState::Running => match wakeup {
            Wakeup::Cancel => (LoopState::Stopped, LoopAction::Detach),
            Wakeup::Tick { payload: None } => (LoopState::Running, LoopAction::Idle),
            Wakeup::Tick { payload: Some(s) } => match Event::from_string(s.as_str()) {
                Ok(Event::StationConnected { mac }) => {
                    let command = station_info_command(&mac);
                    (LoopState::Running, LoopAction::Query { command })
                },
                _ => (LoopState::Running, LoopAction::Idle),
            },
        },
    }
}

} // verus!
