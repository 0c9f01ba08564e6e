//! The decisions of the single consumer of decoded events: it turns each event into a
//! span for export and stops once the channel is closed or the run is cancelled.
use vstd::prelude::*;
use crate::event::BPFEvent;
use crate::span::{ClockSample, SpanRecord, span_of, to_span};

verus! {

/// How many decoded events the channel between the probes and the consumer holds; a
/// producer that finds it full waits, so no event is dropped.
pub const EVENT_CHANNEL_CAPACITY: usize = 100;

/// Where the consumer stands.
#[derive(Clone, Copy, Debug, PartialEq, Eq, Structural)]
pub enum ControllerState {
    /// Waiting, with the channel open and empty.
    Idle,
    /// Handling events as they arrive.
    Draining,
    /// The channel was closed or the run cancelled; nothing more is handled.
    Closed,
}

/// What the channel, or the cancellation signal, handed the consumer.
pub enum ChannelEvent {
    Received(BPFEvent),
    /// The channel is open and holds no event.
    Empty,
    /// Every producer is gone.
    Disconnected,
    Cancelled,
}

/// What the consumer asks its driver to do next.
pub enum ControllerAction {
    /// Hand this span to the export sink, then deliver the next channel event.
    Export(SpanRecord),
    /// Wait for the next channel event.
    Wait,
    /// End the run.
    Stop,
}

/// The state that follows `s` on channel event `ev`.
pub open spec fn next_state(s: ControllerState, ev: ChannelEvent) -> ControllerState {
    match s {
        ControllerState::Closed => ControllerState::Closed,
        _ => match ev {
            ChannelEvent::Received(_) => ControllerState::Draining,
            ChannelEvent::Empty => ControllerState::Idle,
            ChannelEvent::Disconnected => ControllerState::Closed,
            ChannelEvent::Cancelled => ControllerState::Closed,
        },
    }
}

/// The consumer of the event channel.
pub struct Controller {
    state: ControllerState,
    clock: ClockSample,
}

impl Controller {
    /// Where the consumer stands.
    pub closed spec fn state_of(&self) -> ControllerState {
        self.state
    }

    /// The startup correlation sample.
    pub closed spec fn clock_of(&self) -> ClockSample {
        self.clock
    }

    /// A consumer that converts times with `clock`, the startup correlation sample.
    pub fn new(clock: ClockSample) -> (r: Controller)
        ensures
            r.state_of() == ControllerState::Idle,
            r.clock_of() == clock,
    {
        Controller { state: ControllerState::Idle, clock }
    }

    /// The current state.
    pub fn state(&self) -> (r: ControllerState)
        ensures
            r == self.state_of(),
    {
        self.state
    }

    /// Takes one channel event and says what to do: export the span of a received event,
    /// wait on an empty channel, stop once the channel is closed or the run cancelled.
    /// Nothing is handled after the stop.
    pub fn step(&mut self, ev: ChannelEvent) -> (r: ControllerAction)
        ensures
            final(self).state_of() == next_state(old(self).state_of(), ev),
            final(self).clock_of() == old(self).clock_of(),
            old(self).state_of() == ControllerState::Closed ==> r is Stop,
            old(self).state_of() != ControllerState::Closed ==> match ev {
                ChannelEvent::Received(e) => r matches ControllerAction::Export(s) && span_of(
                    old(self).clock_of(),
                    e,
                    s,
                ),
                ChannelEvent::Empty => r is Wait,
                ChannelEvent::Disconnected => r is Stop,
                ChannelEvent::Cancelled => r is Stop,
            },
    {
        if self.state == ControllerState::Closed {
            return ControllerAction::Stop;
        }
        match ev {
            ChannelEvent::Received(e) => {
                self.state = ControllerState::Draining;
                ControllerAction::Export(to_span(&self.clock, &e))
            },
            ChannelEvent::Empty => {
                self.state = ControllerState::Idle;
                ControllerAction::Wait
            },
            ChannelEvent::Disconnected => {
                self.state = ControllerState::Closed;
                ControllerAction::Stop
            },
            ChannelEvent::Cancelled => {
                self.state = ControllerState::Closed;
                ControllerAction::Stop
            },
        }
    }
}

} // verus!
