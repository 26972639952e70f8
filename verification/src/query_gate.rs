//! Gates at which the reads of single sessions are held up, and counts of reads.
use vstd::prelude::*;

use crate::text_map::TextMap;

verus! {

/// The sessions whose reads are held up, and how many reads of each wait.
#[derive(Debug)]
pub struct PauseGate {
    paused_sessions: TextMap<()>,
    blocked: TextMap<usize>,
}

/// What a gate holds up.
pub struct GateModel {
    pub paused: Set<Seq<char>>,
    pub blocked: Map<Seq<char>, usize>,
}

impl View for PauseGate {
    type V = GateModel;

    closed spec fn view(&self) -> GateModel {
        GateModel { paused: self.paused_sessions@.dom(), blocked: self.blocked@ }
    }
}

/// How many reads of a session wait.
pub open spec fn waiting(gate: GateModel, session_id: Seq<char>) -> usize {
    if gate.blocked.contains_key(session_id) {
        gate.blocked[session_id]
    } else {
        0
    }
}

/// A gate at which one more read waits.
pub open spec fn one_more(gate: GateModel, session_id: Seq<char>) -> GateModel {
    GateModel {
        blocked: gate.blocked.insert(session_id, (waiting(gate, session_id) + 1) as usize),
        ..gate
    }
}

/// A gate at which one read less waits; sessions without any are forgotten.
pub open spec fn one_less(gate: GateModel, session_id: Seq<char>) -> GateModel {
    GateModel {
        blocked: if !gate.blocked.contains_key(session_id) {
            gate.blocked
        } else if waiting(gate, session_id) <= 1 {
            gate.blocked.remove(session_id)
        } else {
            gate.blocked.insert(session_id, (waiting(gate, session_id) - 1) as usize)
        },
        ..gate
    }
}

/// A pause of the reads of one session, until it is given back to its gate.
#[derive(Debug)]
pub struct QueryPause {
    session_id: String,
}

impl QueryPause {
    pub closed spec fn session(&self) -> Seq<char> {
        self.session_id@
    }
}

impl PauseGate {
    pub closed spec fn well_formed(&self) -> bool {
        self.paused_sessions.well_formed() && self.blocked.well_formed()
    }

    pub fn new() -> (r: PauseGate)
        ensures
            r.well_formed(),
            r@ == (GateModel { paused: Set::empty(), blocked: Map::empty() }),
    {
        let out = PauseGate { paused_sessions: TextMap::new(), blocked: TextMap::new() };
        proof {
            assert(out@.paused =~= Set::<Seq<char>>::empty());
        }
        out
    }

    /// Holds up the reads of a session, which must not be held up already.
    pub fn pause(&mut self, session_id: &str) -> (r: QueryPause)
        requires
            old(self).well_formed(),
            !old(self)@.paused.contains(session_id@),
        ensures
            final(self).well_formed(),
            final(self)@ == (GateModel {
                paused: old(self)@.paused.insert(session_id@),
                ..old(self)@
            }),
            r.session() == session_id@,
    {
        let ghost before = self@.paused;
        let _ = self.paused_sessions.insert(session_id, ());
        proof {
            assert(self@.paused =~= before.insert(session_id@));
        }
        QueryPause { session_id: session_id.to_owned() }
    }

    /// Lets the reads of the session through again.
    pub fn release(&mut self, pause: QueryPause)
        requires
            old(self).well_formed(),
        ensures
            final(self).well_formed(),
            final(self)@ == (GateModel {
                paused: old(self)@.paused.remove(pause.session()),
                ..old(self)@
            }),
    {
        let ghost before = self@.paused;
        let _ = self.paused_sessions.remove(&pause.session_id);
        proof {
            assert(self@.paused =~= before.remove(pause.session()));
        }
    }

    /// Whether the reads of a session are held up.
    pub fn is_paused(&self, session_id: &str) -> (r: bool)
        requires
            self.well_formed(),
        ensures
            r == self@.paused.contains(session_id@),
    {
        self.paused_sessions.contains_key(session_id)
    }

    /// How many reads of a session wait.
    pub fn blocked(&self, session_id: &str) -> (r: usize)
        requires
            self.well_formed(),
        ensures
            r == waiting(self@, session_id@),
    {
        match self.blocked.get(session_id) {
            Some(count) => *count,
            None => 0,
        }
    }

    /// A read arrives: says whether it has to wait, and counts it if so.
    pub fn arrive(&mut self, session_id: &str) -> (r: bool)
        requires
            old(self).well_formed(),
            waiting(old(self)@, session_id@) < usize::MAX,
        ensures
            final(self).well_formed(),
            r == old(self)@.paused.contains(session_id@),
            final(self)@ == if r {
                one_more(old(self)@, session_id@)
            } else {
                old(self)@
            },
    {
        if !self.is_paused(session_id) {
            return false;
        }
        let count = self.blocked(session_id);
        let _ = self.blocked.insert(session_id, count + 1);
        true
    }

    /// A read that waited goes on.
    pub fn leave(&mut self, session_id: &str)
        requires
            old(self).well_formed(),
        ensures
            final(self).well_formed(),
            final(self)@ == one_less(old(self)@, session_id@),
    {
        let count = match self.blocked.get(session_id) {
            Some(count) => *count,
            None => {
                return ;
            },
        };
        if count <= 1 {
            let _ = self.blocked.remove(session_id);
        } else {
            let _ = self.blocked.insert(session_id, count - 1);
        }
    }
}

/// A read that waited and went on leaves no trace: as many wait for every session as before it
/// came, and the same sessions are held up.
pub proof fn reads_that_go_on_leave_no_trace(
    gate: GateModel,
    session_id: Seq<char>,
    other: Seq<char>,
)
    requires
        waiting(gate, session_id) < usize::MAX,
    ensures
        waiting(one_less(one_more(gate, session_id), session_id), other) == waiting(gate, other),
        one_less(one_more(gate, session_id), session_id).paused == gate.paused,
{
}

/// How often something was asked of each session.
#[derive(Debug)]
pub struct CallCounts {
    counts: TextMap<usize>,
}

impl View for CallCounts {
    type V = Map<Seq<char>, usize>;

    closed spec fn view(&self) -> Map<Seq<char>, usize> {
        self.counts@
    }
}

/// How often something was asked of a session.
pub open spec fn calls(counts: Map<Seq<char>, usize>, session_id: Seq<char>) -> usize {
    if counts.contains_key(session_id) {
        counts[session_id]
    } else {
        0
    }
}

impl CallCounts {
    pub closed spec fn well_formed(&self) -> bool {
        self.counts.well_formed()
    }

    pub fn new() -> (r: CallCounts)
        ensures
            r.well_formed(),
            r@ == Map::<Seq<char>, usize>::empty(),
    {
        CallCounts { counts: TextMap::new() }
    }

    pub fn of(&self, session_id: &str) -> (r: usize)
        requires
            self.well_formed(),
        ensures
            r == calls(self@, session_id@),
    {
        match self.counts.get(session_id) {
            Some(count) => *count,
            None => 0,
        }
    }

    pub fn count(&mut self, session_id: &str)
        requires
            old(self).well_formed(),
            calls(old(self)@, session_id@) < usize::MAX,
        ensures
            final(self).well_formed(),
            final(self)@ == old(self)@.insert(
                session_id@,
                (calls(old(self)@, session_id@) + 1) as usize,
            ),
    {
        let count = self.of(session_id);
        let _ = self.counts.insert(session_id, count + 1);
    }
}

/// A read that waits counts for its own session, one that goes on counts no more, and nothing else
/// changes with either.
pub proof fn waiting_reads_are_counted(gate: GateModel, session_id: Seq<char>, other: Seq<char>)
    requires
        waiting(gate, session_id) < usize::MAX,
        other != session_id,
    ensures
        waiting(one_more(gate, session_id), session_id) == waiting(gate, session_id) + 1,
        waiting(one_more(gate, session_id), other) == waiting(gate, other),
        one_more(gate, session_id).paused == gate.paused,
        waiting(gate, session_id) > 0 ==> waiting(one_less(gate, session_id), session_id) == waiting(
            gate,
            session_id,
        ) - 1,
        waiting(gate, session_id) == 0 ==> waiting(one_less(gate, session_id), session_id) == 0,
        waiting(one_less(gate, session_id), other) == waiting(gate, other),
        one_less(gate, session_id).paused == gate.paused,
        !gate.blocked.contains_key(session_id) ==> waiting(gate, session_id) == 0,
{
}

/// What was asked of a session is counted for it alone.
pub proof fn calls_are_counted(
    counts: Map<Seq<char>, usize>,
    session_id: Seq<char>,
    other: Seq<char>,
    count: usize,
)
    ensures
        calls(counts.insert(session_id, count), session_id) == count,
        other != session_id ==> calls(counts.insert(session_id, count), other) == calls(
            counts,
            other,
        ),
        calls(Map::empty(), session_id) == 0,
{
}

} // verus!
