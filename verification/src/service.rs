//! What is told to those who follow a session while it runs.
use vstd::prelude::*;

use crate::session_log::{envelope_models, visible, EnvelopeModel, EventEnvelope};
use crate::text_map::TextMap;

verus! {

/// The limits of a running service. Durations are in milliseconds.
#[derive(Clone, Copy, Debug, PartialEq, Eq, Structural)]
pub struct ServiceOptions {
    pub tool_timeout_ms: u64,
    pub tool_concurrency: usize,
    pub deadline_command_capacity: usize,
    pub deadline_wake_capacity: usize,
    pub live_event_capacity: usize,
    pub compression_retry_interval_ms: u64,
}

impl Default for ServiceOptions {
    fn default() -> (r: ServiceOptions)
        ensures
            r.tool_timeout_ms == 3_600_000,
            r.tool_concurrency == 64,
            r.deadline_command_capacity == 4096,
            r.deadline_wake_capacity == 4096,
            r.live_event_capacity == 256,
            r.compression_retry_interval_ms == 30_000,
    {
        ServiceOptions {
            tool_timeout_ms: 3_600_000,
            tool_concurrency: 64,
            deadline_command_capacity: 4096,
            deadline_wake_capacity: 4096,
            live_event_capacity: 256,
            compression_retry_interval_ms: 30_000,
        }
    }
}

/// Something that those who follow a session are told.
#[derive(Debug)]
pub enum LiveSessionEvent {
    Durable(EventEnvelope),
    TextDelta { session_id: String, generation: u64, step_id: String, text: String },
}

/// The sessions that are followed, with the number of the stream that serves each. A stream lives
/// as long as somebody holds it.
#[derive(Debug)]
pub struct LiveEventHub {
    capacity: usize,
    streams: TextMap<u64>,
    next_stream: u64,
}

impl LiveEventHub {
    pub closed spec fn spec_capacity(&self) -> usize {
        self.capacity
    }

    pub closed spec fn spec_streams(&self) -> Map<Seq<char>, u64> {
        self.streams@
    }

    /// The number of the next stream, larger than all that are known.
    pub closed spec fn spec_next(&self) -> u64 {
        self.next_stream
    }

    pub closed spec fn well_formed(&self) -> bool {
        &&& self.streams.well_formed()
        &&& self.capacity > 0
        &&& forall|id: Seq<char>| #[trigger]
            self.streams@.contains_key(id) ==> self.streams@[id] < self.next_stream
    }

    /// A hub whose streams hold `capacity` events, at least one.
    pub fn new(capacity: usize) -> (r: LiveEventHub)
        ensures
            r.well_formed(),
            r.spec_capacity() == (if capacity == 0 {
                1
            } else {
                capacity
            }),
            r.spec_streams() == Map::<Seq<char>, u64>::empty(),
            r.spec_next() == 0,
    {
        LiveEventHub {
            capacity: if capacity == 0 {
                1
            } else {
                capacity
            },
            streams: TextMap::new(),
            next_stream: 0,
        }
    }

    /// The stream that serves a session now, if one was ever made for it.
    pub fn known_stream(&self, session_id: &str) -> (r: Option<u64>)
        requires
            self.well_formed(),
        ensures
            match r {
                Some(stream) => self.spec_streams().contains_key(session_id@)
                    && self.spec_streams()[session_id@] == stream,
                None => !self.spec_streams().contains_key(session_id@),
            },
    {
        match self.streams.get(session_id) {
            Some(stream) => Some(*stream),
            None => None,
        }
    }

    /// The stream to follow a session by: the one that serves it if it is `alive`, else a fresh
    /// one.
    pub fn subscribe(&mut self, session_id: &str, alive: bool) -> (r: u64)
        requires
            old(self).well_formed(),
            old(self).spec_next() < u64::MAX,
        ensures
            final(self).well_formed(),
            final(self).spec_capacity() == old(self).spec_capacity(),
            final(self).spec_streams() == old(self).spec_streams().insert(session_id@, r),
            alive && old(self).spec_streams().contains_key(session_id@) ==> r == old(
                self,
            ).spec_streams()[session_id@] && final(self).spec_next() == old(self).spec_next(),
            !(alive && old(self).spec_streams().contains_key(session_id@)) ==> r == old(
                self,
            ).spec_next() && final(self).spec_next() == old(self).spec_next() + 1,
    {
        if alive {
            if let Some(stream) = self.known_stream(session_id) {
                proof {
                    assert(self.streams@ =~= self.streams@.insert(session_id@, stream));
                }
                return stream;
            }
        }
        let stream: u64 = self.next_stream;
        self.next_stream = stream + 1;
        let _ = self.streams.insert(session_id, stream);
        stream
    }

    /// The stream to tell something of a session to. One that is not `alive` is forgotten.
    pub fn stream(&mut self, session_id: &str, alive: bool) -> (r: Option<u64>)
        requires
            old(self).well_formed(),
        ensures
            final(self).well_formed(),
            final(self).spec_capacity() == old(self).spec_capacity(),
            final(self).spec_next() == old(self).spec_next(),
            match r {
                Some(stream) => {
                    &&& alive && old(self).spec_streams().contains_key(session_id@)
                    &&& stream == old(self).spec_streams()[session_id@]
                    &&& final(self).spec_streams() == old(self).spec_streams()
                },
                None => {
                    &&& !(alive && old(self).spec_streams().contains_key(session_id@))
                    &&& final(self).spec_streams() == old(self).spec_streams().remove(session_id@)
                },
            },
    {
        if alive {
            if let Some(stream) = self.known_stream(session_id) {
                return Some(stream);
            }
        }
        let _ = self.streams.remove(session_id);
        None
    }
}

/// What those who follow a session are told of a piece of text.
pub fn text_delta(session_id: &str, generation: u64, step_id: &str, text: &str) -> (r:
    LiveSessionEvent)
    ensures
        match r {
            LiveSessionEvent::TextDelta {
                session_id: session,
                generation: number,
                step_id: step,
                text: piece,
            } => session@ == session_id@ && number == generation && step@ == step_id@ && piece@
                == text@,
            LiveSessionEvent::Durable(_) => false,
        },
{
    LiveSessionEvent::TextDelta {
        session_id: session_id.to_owned(),
        generation,
        step_id: step_id.to_owned(),
        text: text.to_owned(),
    }
}

/// What those who follow a session are told of a batch that was appended: its visible events, in
/// order.
pub fn persisted(events: &Vec<EventEnvelope>) -> (r: Vec<EventEnvelope>)
    ensures
        envelope_models(r@) == visible(envelope_models(events@)),
{
    let ghost all = envelope_models(events@);
    let mut out: Vec<EventEnvelope> = Vec::new();
    let mut i: usize = 0;
    proof {
        assert(all.take(0) =~= Seq::<EnvelopeModel>::empty());
        assert(envelope_models(out@) =~= Seq::<EnvelopeModel>::empty());
    }
    while i < events.len()
        invariant
            i <= events.len(),
            all == envelope_models(events@),
            envelope_models(out@) == visible(all.take(i as int)),
        decreases events.len() - i,
    {
        proof {
            assert(all.take(i + 1).drop_last() =~= all.take(i as int));
            assert(all.take(i + 1).last() == events@[i as int]@);
        }
        if events[i].event.visible {
            let copy = events[i].clone();
            let ghost before = envelope_models(out@);
            out.push(copy);
            proof {
                assert(envelope_models(out@) =~= before.push(copy@));
            }
        }
        i = i + 1;
    }
    proof {
        assert(all.take(all.len() as int) =~= all);
    }
    out
}

} // verus!
