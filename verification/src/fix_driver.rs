//! The decisions of a FIX market data session while it reads: what to do
//! with each thing the connection reports.
use vstd::prelude::*;
use crate::fix_session::{
    FixSession, FixSessionView, advanced, has_standard_ids, heartbeat_message, is_timestamp_text,
};
use crate::fix_stream::{drain_frames, take_all_frames};

verus! {

/// What the connection reported since the last step.
pub enum ConnectionEvent {
    /// Bytes arrived.
    Received(Vec<u8>),
    /// Nothing arrived within the wait.
    TimedOut,
    /// The counterparty closed the connection.
    Closed,
    /// Reading failed.
    Failed,
}

/// What the session does next.
pub enum SessionAction {
    /// Handle these complete messages, in order.
    Process(Vec<Vec<u8>>),
    /// Send this Heartbeat to keep the connection alive.
    SendHeartbeat(String),
    /// Stop reading.
    Stop,
    /// Stop reading: the system clock cannot be read to date a Heartbeat.
    ClockUnavailable,
}

/// The abstract state of a reading session: the session and the bytes
/// received that do not yet form a complete message.
pub struct FixLoopView {
    pub session: FixSessionView,
    pub pending: Seq<u8>,
}

/// A FIX session that is reading market data.
pub struct FixSessionLoop {
    session: FixSession,
    pending: Vec<u8>,
}

impl View for FixSessionLoop {
    type V = FixLoopView;

    closed spec fn view(&self) -> FixLoopView {
        FixLoopView { session: self.session@, pending: self.pending@ }
    }
}

impl FixSessionLoop {
    /// Starts reading on `session`, with nothing received yet.
    pub fn new(session: FixSession) -> (l: Self)
        ensures
            l@ == (FixLoopView { session: session@, pending: seq![] }),
    {
        FixSessionLoop { session, pending: Vec::new() }
    }

    /// The session.
    pub fn session(&self) -> (s: &FixSession)
        ensures
            s@ == self@.session,
            has_standard_ids(self@.session),
    {
        proof {
            use_type_invariant(&self.session);
        }
        &self.session
    }

    /// One step: received bytes join the pending ones and every message
    /// they complete is handed out; a silent wait sends a Heartbeat at the
    /// current time (or stops, when the clock cannot be read); a closed or
    /// failed connection stops the session.
    pub fn step(&mut self, event: ConnectionEvent) -> (action: SessionAction)
        requires
            event is TimedOut ==> old(self)@.session.msg_seq_num < u32::MAX,
        ensures
            match event {
                ConnectionEvent::Received(bytes) => {
                    let drained = drain_frames(old(self)@.pending + bytes@);
                    &&& action matches SessionAction::Process(frames) && frames@.map_values(
                        |f: Vec<u8>| f@,
                    ) == drained.0
                    &&& final(self)@ == (FixLoopView { pending: drained.1, ..old(self)@ })
                },
                ConnectionEvent::TimedOut => match action {
                    SessionAction::SendHeartbeat(m) => {
                        &&& exists|ts: Seq<char>| #[trigger]
                            is_timestamp_text(ts) && m@ == heartbeat_message(
                                old(self)@.session,
                                ts,
                            )
                        &&& final(self)@ == (FixLoopView {
                            session: advanced(old(self)@.session),
                            ..old(self)@
                        })
                    },
                    SessionAction::ClockUnavailable => final(self)@ == old(self)@,
                    _ => false,
                },
                _ => action is Stop && final(self)@ == old(self)@,
            },
    {
        match event {
            ConnectionEvent::Received(bytes) => {
                let mut k: usize = 0;
                let ghost start = self.pending@;
                let ghost session = self.session@;
                while k < bytes.len()
                    invariant
                        k <= bytes@.len(),
                        self.session@ == session,
                        self.pending@ == start + bytes@.subrange(0, k as int),
                    decreases bytes@.len() - k,
                {
                    self.pending.push(bytes[k]);
                    assert(start + bytes@.subrange(0, k + 1) =~= (start + bytes@.subrange(
                        0,
                        k as int,
                    )).push(bytes@[k as int]));
                    k = k + 1;
                }
                assert(bytes@.subrange(0, bytes@.len() as int) =~= bytes@);
                let frames = take_all_frames(&mut self.pending);
                SessionAction::Process(frames)
            },
            ConnectionEvent::TimedOut => match self.session.build_heartbeat() {
                Some(heartbeat) => SessionAction::SendHeartbeat(heartbeat),
                None => SessionAction::ClockUnavailable,
            },
            ConnectionEvent::Closed => SessionAction::Stop,
            ConnectionEvent::Failed => SessionAction::Stop,
        }
    }
}

} // verus!
