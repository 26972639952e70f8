//! How a session is rebuilt from its log: from the newest snapshot that can be used, and from the
//! commits behind it.
use vstd::prelude::*;

use crate::json::optional_text;
use crate::session_log::{
    commit_models, envelope_models, is_snapshot, window_models, windows_of, Commit, EnvelopeModel,
    EventEnvelope, OriginModel, QueryError, SnapshotWindow, WindowModel, WindowOrigin,
};
use crate::text::{join3, same, texts};

verus! {

/// A session that was rebuilt: its state, and what was odd on the way.
#[derive(Debug)]
pub struct Recovery<S> {
    pub state: S,
    pub diagnostics: Vec<String>,
}

#[derive(Debug)]
pub enum RecoveryError {
    Query(QueryError),
    Invalid { session_id: String, message: String },
}

/// What matters of a state that was restored from a snapshot.
#[derive(Debug)]
pub struct RestoredState {
    pub session_id: String,
    pub created: bool,
}

/// Why a snapshot is of no use to a session, if it is of none.
pub open spec fn snapshot_fault(
    session_id: Seq<char>,
    event_id: Seq<char>,
    restored: Result<RestoredState, String>,
) -> Option<Seq<char>> {
    match restored {
        Ok(state) => if state.session_id@ != session_id {
            Some(
                "snapshot "@ + event_id + " belongs to session "@ + state.session_id@
                    + " instead of "@ + session_id,
            )
        } else if !state.created {
            Some("snapshot "@ + event_id + " does not contain a created session state"@)
        } else {
            None
        },
        Err(error) => Some("snapshot "@ + event_id + " was not usable: "@ + error@),
    }
}

/// Judges a snapshot from what restoring it gave.
pub fn restore_snapshot(
    session_id: &str,
    event_id: &str,
    restored: &Result<RestoredState, String>,
) -> (r: Option<String>)
    ensures
        optional_text(r) == snapshot_fault(session_id@, event_id@, *restored),
{
    match restored {
        Ok(state) => {
            if !same(&state.session_id, session_id) {
                let mut message = join3("snapshot ", event_id, " belongs to session ");
                message.append(&state.session_id);
                message.append(" instead of ");
                message.append(session_id);
                return Some(message);
            }
            if !state.created {
                return Some(
                    join3("snapshot ", event_id, " does not contain a created session state"),
                );
            }
            None
        },
        Err(error) => {
            let mut message = join3("snapshot ", event_id, " was not usable: ");
            message.append(error);
            Some(message)
        },
    }
}

/// What is said of an event that could not be applied.
pub fn fold_fault(event_id: &str, error: &str) -> (r: String)
    ensures
        r@ == "event "@ + event_id@ + " could not be folded: "@ + error@,
{
    let mut message = join3("event ", event_id, " could not be folded: ");
    message.append(error);
    message
}

/// What to do after a window.
#[derive(Debug)]
pub enum WindowStep {
    /// Start from the snapshot of the window, and apply these commits.
    FoldSnapshot(Vec<Commit>),
    /// Start from an empty session, and apply these commits.
    FoldStart(Vec<Commit>),
    /// Look at the window before.
    Older,
    /// Start from an empty session, and apply all commits of the log.
    Forward,
}

/// The windows of a session, taken from the newest on, until one can be started from.
#[derive(Debug)]
pub struct WindowSearch {
    newer: Vec<Commit>,
    diagnostics: Vec<String>,
}

impl WindowSearch {
    /// The commits of the windows that were passed over.
    pub closed spec fn newer(&self) -> Seq<Seq<EnvelopeModel>> {
        commit_models(self.newer@)
    }

    /// Why windows were passed over.
    pub closed spec fn spec_diagnostics(&self) -> Seq<Seq<char>> {
        texts(self.diagnostics@)
    }

    pub fn new() -> (r: WindowSearch)
        ensures
            r.newer().len() == 0,
            r.spec_diagnostics().len() == 0,
    {
        WindowSearch { newer: Vec::new(), diagnostics: Vec::new() }
    }

    /// Takes the next window. `restored` is what restoring its snapshot gave, if it starts with
    /// one. Commits of passed windows follow those of the window.
    pub fn take_window(
        &mut self,
        session_id: &str,
        window: SnapshotWindow,
        restored: &Result<RestoredState, String>,
    ) -> (r: WindowStep)
        ensures
            match window@.origin {
                OriginModel::Snapshot(snapshot) => match snapshot_fault(
                    session_id@,
                    snapshot.event_id,
                    *restored,
                ) {
                    None => {
                        &&& r matches WindowStep::FoldSnapshot(commits)
                        &&& commit_models(commits@) == window@.commits + old(self).newer()
                        &&& final(self).spec_diagnostics() == old(self).spec_diagnostics()
                    },
                    Some(fault) => {
                        &&& r is Older
                        &&& final(self).newer() == window@.commits + old(self).newer()
                        &&& final(self).spec_diagnostics() == old(self).spec_diagnostics().push(
                            fault,
                        )
                    },
                },
                OriginModel::SessionStart => {
                    &&& r matches WindowStep::FoldStart(commits)
                    &&& commit_models(commits@) == window@.commits + old(self).newer()
                    &&& final(self).spec_diagnostics() == old(self).spec_diagnostics()
                },
                OriginModel::Unanchored => {
                    &&& r is Forward
                    &&& final(self).spec_diagnostics() == old(self).spec_diagnostics()
                },
            },
    {
        let mut commits = window.commits;
        let ghost behind = self.newer@;
        commits.append(&mut self.newer);
        proof {
            assert(commit_models(commits@) =~= commit_models(window.commits@) + commit_models(
                behind,
            ));
        }
        match window.origin {
            WindowOrigin::Snapshot(snapshot) => match restore_snapshot(
                session_id,
                &snapshot.event_id,
                restored,
            ) {
                None => WindowStep::FoldSnapshot(commits),
                Some(fault) => {
                    let ghost before = texts(self.diagnostics@);
                    self.diagnostics.push(fault);
                    proof {
                        assert(texts(self.diagnostics@) =~= before.push(fault@));
                    }
                    self.newer = commits;
                    WindowStep::Older
                },
            },
            WindowOrigin::SessionStart => WindowStep::FoldStart(commits),
            WindowOrigin::Unanchored => WindowStep::Forward,
        }
    }

    /// What there is to say of a session that was started from a window: what the reader said, why
    /// windows were passed over, and what applying the commits said.
    pub fn diagnostics(self, read: Vec<String>, folded: Vec<String>) -> (r: Vec<String>)
        ensures
            texts(r@) == texts(read@) + self.spec_diagnostics() + texts(folded@),
    {
        let mut out = read;
        let mut own = self.diagnostics;
        let mut last = folded;
        out.append(&mut own);
        out.append(&mut last);
        proof {
            assert(texts(out@) =~= texts(read@) + texts(self.diagnostics@) + texts(folded@));
        }
        out
    }
}

/// A rebuilt session, unless it was never created.
pub fn finish<S>(session_id: &str, state: S, created: bool, diagnostics: Vec<String>) -> (r: Result<
    Recovery<S>,
    RecoveryError,
>)
    ensures
        match r {
            Ok(recovery) => created && recovery.state == state && recovery.diagnostics
                == diagnostics,
            Err(RecoveryError::Invalid { session_id: id, message }) => !created && id@
                == session_id@ && message@ == "session has no complete SessionCreated event"@,
            Err(_) => false,
        },
{
    if !created {
        return Err(
            RecoveryError::Invalid {
                session_id: session_id.to_owned(),
                message: "session has no complete SessionCreated event".to_owned(),
            },
        );
    }
    Ok(Recovery { state, diagnostics })
}

/// Where a search through `windows` ends: the snapshot to start from, or none for an empty session,
/// and the commits to apply. `usable` says which snapshots can be used, `newer` are the commits of
/// windows that were passed.
pub open spec fn searched(
    windows: Seq<WindowModel>,
    newer: Seq<Seq<EnvelopeModel>>,
    usable: spec_fn(EnvelopeModel) -> bool,
) -> Option<(Option<EnvelopeModel>, Seq<Seq<EnvelopeModel>>)>
    decreases windows.len(),
{
    if windows.len() == 0 {
        None
    } else {
        let commits = windows[0].commits + newer;
        match windows[0].origin {
            OriginModel::Snapshot(snapshot) => if usable(snapshot) {
                Some((Some(snapshot), commits))
            } else {
                searched(windows.drop_first(), commits, usable)
            },
            OriginModel::SessionStart => Some((None, commits)),
            OriginModel::Unanchored => None,
        }
    }
}

/// The commits that are more than a snapshot.
pub open spec fn plain_commits(commits: Seq<Seq<EnvelopeModel>>) -> Seq<Seq<EnvelopeModel>>
    decreases commits.len(),
{
    if commits.len() == 0 {
        Seq::empty()
    } else if is_snapshot(commits[0]) {
        plain_commits(commits.drop_first())
    } else {
        seq![commits[0]] + plain_commits(commits.drop_first())
    }
}

/// Whether the last usable snapshot of `commits` stands at `at`.
pub open spec fn is_last_usable(
    commits: Seq<Seq<EnvelopeModel>>,
    usable: spec_fn(EnvelopeModel) -> bool,
    at: int,
) -> bool {
    &&& 0 <= at < commits.len()
    &&& is_snapshot(commits[at])
    &&& usable(commits[at][0])
    &&& forall|i: int| at < i < commits.len() && is_snapshot(#[trigger] commits[i]) ==> !usable(
        commits[i][0],
    )
}

proof fn lemma_search(
    commits: Seq<Seq<EnvelopeModel>>,
    count: int,
    inner: Seq<Seq<EnvelopeModel>>,
    newer: Seq<Seq<EnvelopeModel>>,
    usable: spec_fn(EnvelopeModel) -> bool,
)
    requires
        0 <= count <= commits.len(),
        inner + newer == plain_commits(commits.skip(count)),
        forall|i: int|
            count <= i < commits.len() && is_snapshot(#[trigger] commits[i]) ==> !usable(
                commits[i][0],
            ),
    ensures
        match searched(windows_of(commits.take(count), inner), newer, usable) {
            Some((Some(snapshot), fold)) => exists|at: int|
                #[trigger] is_last_usable(commits, usable, at) && commits[at][0] == snapshot
                    && fold == plain_commits(commits.skip(at + 1)),
            Some((None, fold)) => fold == plain_commits(commits) && forall|i: int|
                0 <= i < commits.len() && is_snapshot(#[trigger] commits[i]) ==> !usable(
                    commits[i][0],
                ),
            None => forall|i: int|
                0 <= i < commits.len() && is_snapshot(#[trigger] commits[i]) ==> !usable(
                    commits[i][0],
                ),
        },
    decreases count,
{
    let head = commits.take(count);
    if count == 0 {
        assert(commits.skip(0) =~= commits);
        if inner.len() > 0 {
            let windows = windows_of(head, inner);
            assert(windows[0].commits == inner);
        }
    } else {
        let last = commits[count - 1];
        assert(head.last() == last);
        assert(head.drop_last() =~= commits.take(count - 1));
        assert(commits.skip(count - 1)[0] == last);
        assert(commits.skip(count - 1).drop_first() =~= commits.skip(count));
        if is_snapshot(last) {
            let rest = windows_of(commits.take(count - 1), Seq::empty());
            let windows = windows_of(head, inner);
            assert(windows.drop_first() =~= rest);
            assert(windows[0].commits == inner);
            if usable(last[0]) {
                assert(is_last_usable(commits, usable, count - 1));
            } else {
                assert(Seq::<Seq<EnvelopeModel>>::empty() + (inner + newer) =~= inner + newer);
                lemma_search(commits, count - 1, Seq::empty(), inner + newer, usable);
            }
        } else {
            assert((seq![last] + inner) + newer =~= seq![last] + (inner + newer));
            lemma_search(commits, count - 1, seq![last] + inner, newer, usable);
        }
    }
}

/// A session is rebuilt from its last usable snapshot and from every commit behind it, in the order
/// of the log; snapshots that are of no use are left out. A session without a usable snapshot is
/// rebuilt from its start, from all of its commits.
pub proof fn search_finds_the_last_usable_snapshot(
    commits: Seq<Seq<EnvelopeModel>>,
    usable: spec_fn(EnvelopeModel) -> bool,
)
    ensures
        match searched(windows_of(commits, Seq::empty()), Seq::empty(), usable) {
            Some((Some(snapshot), fold)) => exists|at: int|
                #[trigger] is_last_usable(commits, usable, at) && commits[at][0] == snapshot
                    && fold == plain_commits(commits.skip(at + 1)),
            Some((None, fold)) => fold == plain_commits(commits) && forall|i: int|
                0 <= i < commits.len() && is_snapshot(#[trigger] commits[i]) ==> !usable(
                    commits[i][0],
                ),
            None => forall|i: int|
                0 <= i < commits.len() && is_snapshot(#[trigger] commits[i]) ==> !usable(
                    commits[i][0],
                ),
        },
{
    let none = Seq::<Seq<EnvelopeModel>>::empty();
    assert(commits.skip(commits.len() as int) =~= none);
    assert(commits.take(commits.len() as int) =~= commits);
    assert(none + none =~= none);
    lemma_search(commits, commits.len() as int, none, none, usable);
}

/// What rebuilding a session starts from.
#[derive(Debug)]
pub enum RecoveryStart {
    Snapshot(EventEnvelope),
    /// An empty session.
    Empty,
    /// An empty session, to which all commits of the log are applied.
    Forward,
}

/// How a session is rebuilt.
#[derive(Debug)]
pub struct RecoveryPlan {
    pub start: RecoveryStart,
    pub commits: Vec<Commit>,
    pub diagnostics: Vec<String>,
}

/// What rebuilding a session starts from.
pub enum StartModel {
    Snapshot(EnvelopeModel),
    Empty,
    Forward,
}

/// How a session is rebuilt.
pub struct PlanModel {
    pub start: StartModel,
    pub commits: Seq<Seq<EnvelopeModel>>,
    pub diagnostics: Seq<Seq<char>>,
}

impl View for RecoveryPlan {
    type V = PlanModel;

    open spec fn view(&self) -> PlanModel {
        PlanModel {
            start: match self.start {
                RecoveryStart::Snapshot(snapshot) => StartModel::Snapshot(snapshot@),
                RecoveryStart::Empty => StartModel::Empty,
                RecoveryStart::Forward => StartModel::Forward,
            },
            commits: commit_models(self.commits@),
            diagnostics: texts(self.diagnostics@),
        }
    }
}

/// How a session is rebuilt from its windows, the newest first. `restored` is what restoring the
/// snapshot of each gave; `newer` and `diagnostics` are of the windows that were passed over. Where
/// the windows give no start, everything is read from the start of the log, and what was said of
/// the snapshots is forgotten.
pub open spec fn planned(
    session_id: Seq<char>,
    windows: Seq<WindowModel>,
    restored: Seq<Result<RestoredState, String>>,
    newer: Seq<Seq<EnvelopeModel>>,
    diagnostics: Seq<Seq<char>>,
) -> PlanModel
    decreases windows.len(),
{
    let forward = PlanModel {
        start: StartModel::Forward,
        commits: Seq::empty(),
        diagnostics: Seq::empty(),
    };
    if windows.len() == 0 {
        forward
    } else {
        let commits = windows[0].commits + newer;
        match windows[0].origin {
            OriginModel::Snapshot(snapshot) => match snapshot_fault(
                session_id,
                snapshot.event_id,
                restored[0],
            ) {
                None => PlanModel { start: StartModel::Snapshot(snapshot), commits, diagnostics },
                Some(fault) => planned(
                    session_id,
                    windows.drop_first(),
                    restored.drop_first(),
                    commits,
                    diagnostics.push(fault),
                ),
            },
            OriginModel::SessionStart => PlanModel {
                start: StartModel::Empty,
                commits,
                diagnostics,
            },
            OriginModel::Unanchored => forward,
        }
    }
}

/// How a session is rebuilt from its windows, the newest first. `restored` is what restoring the
/// snapshot of each gave.
pub fn recover(
    session_id: &str,
    windows: Vec<SnapshotWindow>,
    restored: &Vec<Result<RestoredState, String>>,
) -> (r: RecoveryPlan)
    requires
        windows@.len() == restored@.len(),
    ensures
        r@ == planned(
            session_id@,
            window_models(windows@),
            restored@,
            Seq::empty(),
            Seq::empty(),
        ),
{
    let mut search = WindowSearch::new();
    let ghost all = window_models(windows@);
    let mut rest = windows;
    let mut i: usize = 0;
    proof {
        assert(restored@.skip(0) =~= restored@);
        assert(search.newer() =~= Seq::<Seq<EnvelopeModel>>::empty());
        assert(search.spec_diagnostics() =~= Seq::<Seq<char>>::empty());
    }
    while rest.len() > 0
        invariant
            i + rest.len() == restored.len(),
            all == window_models(windows@),
            planned(session_id@, all, restored@, Seq::empty(), Seq::empty()) == planned(
                session_id@,
                window_models(rest@),
                restored@.skip(i as int),
                search.newer(),
                search.spec_diagnostics(),
            ),
        decreases rest@.len(),
    {
        let ghost before = rest@;
        let window = rest.remove(0);
        proof {
            assert(window_models(before).drop_first() =~= window_models(rest@));
            assert(window_models(before)[0] == window@);
            assert(restored@.skip(i as int).drop_first() =~= restored@.skip(i + 1));
        }
        let start = match &window.origin {
            WindowOrigin::Snapshot(snapshot) => RecoveryStart::Snapshot(snapshot.clone()),
            WindowOrigin::SessionStart => RecoveryStart::Empty,
            WindowOrigin::Unanchored => RecoveryStart::Forward,
        };
        match search.take_window(session_id, window, &restored[i]) {
            WindowStep::FoldSnapshot(commits) => {
                return RecoveryPlan { start, commits, diagnostics: search.diagnostics };
            },
            WindowStep::FoldStart(commits) => {
                return RecoveryPlan { start, commits, diagnostics: search.diagnostics };
            },
            WindowStep::Forward => {
                return forward_plan();
            },
            WindowStep::Older => {},
        }
        i = i + 1;
    }
    forward_plan()
}

fn forward_plan() -> (r: RecoveryPlan)
    ensures
        r@ == (PlanModel {
            start: StartModel::Forward,
            commits: Seq::empty(),
            diagnostics: Seq::empty(),
        }),
{
    let plan = RecoveryPlan {
        start: RecoveryStart::Forward,
        commits: Vec::new(),
        diagnostics: Vec::new(),
    };
    proof {
        assert(plan@.commits =~= Seq::<Seq<EnvelopeModel>>::empty());
        assert(plan@.diagnostics =~= Seq::<Seq<char>>::empty());
    }
    plan
}

/// What applying an event of the log came to.
#[derive(Debug)]
pub enum FoldOutcome {
    /// The event is a snapshot, and this is what restoring it gave.
    Restored(Result<RestoredState, String>),
    /// The event was applied, or could not be.
    Applied(Option<String>),
}

/// What follows for the session that is rebuilt: whether it is replaced by the snapshot, and what
/// there is to say.
pub open spec fn folded(session_id: Seq<char>, event_id: Seq<char>, outcome: FoldOutcome) -> (
    bool,
    Option<Seq<char>>,
) {
    match outcome {
        FoldOutcome::Restored(restored) => {
            let fault = snapshot_fault(session_id, event_id, restored);
            (fault is None, fault)
        },
        FoldOutcome::Applied(error) => (
            false,
            match error {
                Some(error) => Some("event "@ + event_id + " could not be folded: "@ + error@),
                None => None,
            },
        ),
    }
}

/// What follows from an event for the session that is rebuilt.
pub fn apply_envelope(session_id: &str, event_id: &str, outcome: &FoldOutcome) -> (r: (
    bool,
    Option<String>,
))
    ensures
        (r.0, optional_text(r.1)) == folded(session_id@, event_id@, *outcome),
{
    match outcome {
        FoldOutcome::Restored(restored) => {
            let fault = restore_snapshot(session_id, event_id, restored);
            (fault.is_none(), fault)
        },
        FoldOutcome::Applied(error) => match error {
            Some(error) => (false, Some(fold_fault(event_id, error))),
            None => (false, None),
        },
    }
}

/// The events of commits, in order.
pub open spec fn events_of(commits: Seq<Seq<EnvelopeModel>>) -> Seq<EnvelopeModel>
    decreases commits.len(),
{
    if commits.len() == 0 {
        Seq::empty()
    } else {
        events_of(commits.drop_last()) + commits.last()
    }
}

/// The events that are applied, in order: all of each commit, one commit after the other.
pub fn fold_commits(commits: Vec<Commit>) -> (r: Vec<EventEnvelope>)
    ensures
        envelope_models(r@) == events_of(commit_models(commits@)),
{
    let mut out: Vec<EventEnvelope> = Vec::new();
    let ghost all = commit_models(commits@);
    let mut rest = commits;
    let ghost mut count: int = 0;
    proof {
        assert(all.take(0) =~= Seq::<Seq<EnvelopeModel>>::empty());
        assert(envelope_models(out@) =~= Seq::<EnvelopeModel>::empty());
        assert(all.skip(0) =~= all);
    }
    while rest.len() > 0
        invariant
            0 <= count <= all.len(),
            commit_models(rest@) == all.skip(count),
            envelope_models(out@) == events_of(all.take(count)),
        decreases rest@.len(),
    {
        let ghost before = envelope_models(out@);
        let ghost held = rest@;
        let commit = rest.remove(0);
        proof {
            assert(commit_models(held).len() == held.len());
            assert(commit_models(held)[0] == commit@);
            assert(commit_models(rest@) =~= commit_models(held).drop_first());
            assert(all.skip(count).drop_first() =~= all.skip(count + 1));
            assert(all.skip(count)[0] == all[count]);
            assert(all.take(count + 1).drop_last() =~= all.take(count));
        }
        let mut events = commit.events;
        let ghost added = events@;
        out.append(&mut events);
        proof {
            assert(envelope_models(out@) =~= before + envelope_models(added));
            count = count + 1;
        }
    }
    proof {
        assert(all.take(all.len() as int) =~= all);
    }
    out
}

/// What there is to say of events that were applied, in order.
pub open spec fn remarks(
    session_id: Seq<char>,
    events: Seq<EnvelopeModel>,
    outcomes: Seq<FoldOutcome>,
) -> Seq<Seq<char>>
    decreases events.len(),
{
    if events.len() == 0 {
        Seq::empty()
    } else {
        let before = remarks(session_id, events.drop_last(), outcomes.drop_last());
        match folded(session_id, events.last().event_id, outcomes.last()) {
            (_, Some(remark)) => before.push(remark),
            (_, None) => before,
        }
    }
}

/// The last of the events whose snapshot takes the place of the session that is rebuilt.
pub open spec fn replaced_at(
    session_id: Seq<char>,
    events: Seq<EnvelopeModel>,
    outcomes: Seq<FoldOutcome>,
) -> Option<int>
    decreases events.len(),
{
    if events.len() == 0 {
        None
    } else {
        match folded(session_id, events.last().event_id, outcomes.last()) {
            (true, _) => Some(events.len() - 1),
            (false, _) => replaced_at(session_id, events.drop_last(), outcomes.drop_last()),
        }
    }
}

/// What applying events came to: the last one whose snapshot takes the place of the session, and
/// what there is to say. `outcomes` is what applying each event came to.
pub fn fold_events(
    session_id: &str,
    events: &Vec<EventEnvelope>,
    outcomes: &Vec<FoldOutcome>,
) -> (r: (Option<usize>, Vec<String>))
    requires
        events@.len() == outcomes@.len(),
    ensures
        match (r.0, replaced_at(session_id@, envelope_models(events@), outcomes@)) {
            (Some(at), Some(expected)) => at == expected,
            (None, None) => true,
            _ => false,
        },
        texts(r.1@) == remarks(session_id@, envelope_models(events@), outcomes@),
{
    let ghost all = envelope_models(events@);
    let mut replaced: Option<usize> = None;
    let mut said: Vec<String> = Vec::new();
    let mut i: usize = 0;
    proof {
        assert(all.take(0) =~= Seq::<EnvelopeModel>::empty());
        assert(texts(said@) =~= Seq::<Seq<char>>::empty());
    }
    while i < events.len()
        invariant
            i <= events.len(),
            events@.len() == outcomes@.len(),
            all == envelope_models(events@),
            match (replaced, replaced_at(session_id@, all.take(i as int), outcomes@.take(i as int))) {
                (Some(at), Some(expected)) => at == expected,
                (None, None) => true,
                _ => false,
            },
            texts(said@) == remarks(session_id@, all.take(i as int), outcomes@.take(i as int)),
        decreases events.len() - i,
    {
        proof {
            assert(all.take(i + 1).drop_last() =~= all.take(i as int));
            assert(all.take(i + 1).last() == events@[i as int]@);
            assert(outcomes@.take(i + 1).drop_last() =~= outcomes@.take(i as int));
            assert(outcomes@.take(i + 1).last() == outcomes@[i as int]);
        }
        let (replaces, remark) = apply_envelope(session_id, &events[i].event_id, &outcomes[i]);
        if replaces {
            replaced = Some(i);
        }
        if let Some(remark) = remark {
            let ghost before = texts(said@);
            said.push(remark);
            proof {
                assert(texts(said@) =~= before.push(remark@));
            }
        }
        i = i + 1;
    }
    proof {
        assert(all.take(all.len() as int) =~= all);
        assert(outcomes@.take(all.len() as int) =~= outcomes@);
    }
    (replaced, said)
}

/// The session that was rebuilt as planned, with what the reader of the log said, why snapshots
/// were passed over, and what applying the commits said, in this order.
pub fn conclude<S>(
    session_id: &str,
    plan: RecoveryPlan,
    read: Vec<String>,
    folded: Vec<String>,
    state: S,
    created: bool,
) -> (r: Result<Recovery<S>, RecoveryError>)
    ensures
        match r {
            Ok(recovery) => {
                &&& created
                &&& recovery.state == state
                &&& texts(recovery.diagnostics@) == texts(read@) + plan@.diagnostics + texts(
                    folded@,
                )
            },
            Err(RecoveryError::Invalid { session_id: id, message }) => !created && id@
                == session_id@ && message@ == "session has no complete SessionCreated event"@,
            Err(_) => false,
        },
{
    let search = WindowSearch { newer: Vec::new(), diagnostics: plan.diagnostics };
    finish(session_id, state, created, search.diagnostics(read, folded))
}

/// Where it is known which snapshots can be used, the plan is what the search through the windows
/// comes to.
pub proof fn plans_follow_the_search(
    session_id: Seq<char>,
    windows: Seq<WindowModel>,
    restored: Seq<Result<RestoredState, String>>,
    newer: Seq<Seq<EnvelopeModel>>,
    diagnostics: Seq<Seq<char>>,
    usable: spec_fn(EnvelopeModel) -> bool,
)
    requires
        windows.len() == restored.len(),
        forall|i: int|
            0 <= i < windows.len() && (#[trigger] windows[i]).origin is Snapshot ==> (usable(
                windows[i].origin->Snapshot_0,
            ) <==> snapshot_fault(
                session_id,
                windows[i].origin->Snapshot_0.event_id,
                restored[i],
            ) is None),
    ensures
        ({
            let plan = planned(session_id, windows, restored, newer, diagnostics);
            match searched(windows, newer, usable) {
                Some((Some(snapshot), commits)) => plan.start == StartModel::Snapshot(snapshot)
                    && plan.commits == commits,
                Some((None, commits)) => plan.start is Empty && plan.commits == commits,
                None => plan.start is Forward,
            }
        }),
    decreases windows.len(),
{
    if windows.len() > 0 {
        let rest = windows.drop_first();
        assert forall|i: int| 0 <= i < rest.len() && (#[trigger] rest[i]).origin is Snapshot implies (
        usable(rest[i].origin->Snapshot_0) <==> snapshot_fault(
            session_id,
            rest[i].origin->Snapshot_0.event_id,
            restored.drop_first()[i],
        ) is None) by {
            assert(rest[i] == windows[i + 1]);
        }
        if windows[0].origin is Snapshot {
            let snapshot = windows[0].origin->Snapshot_0;
            let fault = snapshot_fault(session_id, snapshot.event_id, restored[0]);
            if fault is Some {
                plans_follow_the_search(
                    session_id,
                    rest,
                    restored.drop_first(),
                    windows[0].commits + newer,
                    diagnostics.push(fault->0),
                    usable,
                );
            }
        }
    }
}

/// A snapshot can be used exactly where it was restored, belongs to the session and holds a session
/// that was created. One that cannot be used is named.
pub proof fn usable_snapshots_belong_to_the_session(
    session_id: Seq<char>,
    event_id: Seq<char>,
    restored: Result<RestoredState, String>,
)
    ensures
        snapshot_fault(session_id, event_id, restored) is None <==> (restored matches Ok(state)
            && state.session_id@ == session_id && state.created),
        restored matches Err(error) ==> snapshot_fault(session_id, event_id, restored) == Some(
            "snapshot "@ + event_id + " was not usable: "@ + error@,
        ),
        restored matches Ok(state) ==> (state.session_id@ != session_id ==> snapshot_fault(
            session_id,
            event_id,
            restored,
        ) == Some(
            "snapshot "@ + event_id + " belongs to session "@ + state.session_id@ + " instead of "@
                + session_id,
        )),
        restored matches Ok(state) ==> (state.session_id@ == session_id && !state.created
            ==> snapshot_fault(session_id, event_id, restored) == Some(
            "snapshot "@ + event_id + " does not contain a created session state"@,
        )),
{
}

/// The commits that are applied are all but the snapshots, in their order, and all events of each
/// are.
pub proof fn all_but_snapshots_are_applied(commits: Seq<Seq<EnvelopeModel>>)
    ensures
        plain_commits(commits) == commits.filter(
            |commit: Seq<EnvelopeModel>| !(commit.len() == 1 && commit[0].event.payload is Snapshot),
        ),
    decreases commits.len(),
{
    let plain = |commit: Seq<EnvelopeModel>| !(commit.len() == 1 && commit[0].event.payload is
        Snapshot);
    reveal(Seq::filter);
    if commits.len() > 0 {
        let rest = commits.drop_first();
        all_but_snapshots_are_applied(rest);
        assert(seq![commits[0]] + rest =~= commits);
        vstd::seq::Seq::filter_distributes_over_add(seq![commits[0]], rest, plain);
        assert(seq![commits[0]].drop_last() =~= Seq::empty());
        assert(Seq::<Seq<EnvelopeModel>>::empty().filter(plain) =~= Seq::empty());
        if plain(commits[0]) {
            assert(seq![commits[0]].filter(plain) =~= seq![commits[0]]);
        } else {
            assert(seq![commits[0]].filter(plain) =~= Seq::empty());
            assert(Seq::<Seq<EnvelopeModel>>::empty() + rest.filter(plain) =~= rest.filter(plain));
        }
    }
}

/// The events of two lists of commits are those of the first, then those of the second, and those of
/// one commit are its events.
pub proof fn events_keep_the_order_of_commits(
    first: Seq<Seq<EnvelopeModel>>,
    second: Seq<Seq<EnvelopeModel>>,
    commit: Seq<EnvelopeModel>,
)
    ensures
        events_of(first + second) == events_of(first) + events_of(second),
        events_of(seq![commit]) == commit,
    decreases second.len(),
{
    assert(seq![commit].drop_last() =~= Seq::<Seq<EnvelopeModel>>::empty());
    assert(events_of(Seq::empty()) =~= Seq::<EnvelopeModel>::empty());
    assert(events_of(seq![commit]) =~= commit);
    if second.len() == 0 {
        assert(first + second =~= first);
        assert(events_of(first) + events_of(second) =~= events_of(first));
    } else {
        events_keep_the_order_of_commits(first, second.drop_last(), commit);
        assert((first + second).drop_last() =~= first + second.drop_last());
        assert(events_of(first) + (events_of(second.drop_last()) + second.last()) =~= events_of(
            first,
        ) + events_of(second.drop_last()) + second.last());
    }
}

/// The session is replaced by the last snapshot that can be used, and by no other event; an event
/// that could not be applied is passed over with a remark.
pub proof fn last_usable_snapshot_replaces(
    session_id: Seq<char>,
    events: Seq<EnvelopeModel>,
    outcomes: Seq<FoldOutcome>,
)
    requires
        events.len() == outcomes.len(),
    ensures
        match replaced_at(session_id, events, outcomes) {
            Some(at) => {
                &&& 0 <= at < events.len()
                &&& replaces(session_id, outcomes[at])
                &&& forall|i: int|
                    at < i < events.len() ==> !replaces(session_id, #[trigger] outcomes[i])
            },
            None => forall|i: int|
                0 <= i < events.len() ==> !replaces(session_id, #[trigger] outcomes[i]),
        },
    decreases events.len(),
{
    if events.len() > 0 {
        let (fewer, before) = (events.drop_last(), outcomes.drop_last());
        last_usable_snapshot_replaces(session_id, fewer, before);
        assert forall|i: int| 0 <= i < before.len() implies #[trigger] outcomes[i] == before[i] by {}
        let last = events.len() - 1;
        assert(outcomes[last] == outcomes.last());
        if !replaces(session_id, outcomes.last()) {
            match replaced_at(session_id, fewer, before) {
                Some(at) => {
                    assert forall|i: int| at < i < events.len() implies !replaces(
                        session_id,
                        #[trigger] outcomes[i],
                    ) by {
                        if i < last {
                            assert(!replaces(session_id, before[i]));
                        }
                    }
                },
                None => {
                    assert forall|i: int| 0 <= i < events.len() implies !replaces(
                        session_id,
                        #[trigger] outcomes[i],
                    ) by {
                        if i < last {
                            assert(!replaces(session_id, before[i]));
                        }
                    }
                },
            }
        }
    }
}

/// Whether an event is a snapshot that can be used for the session.
pub open spec fn replaces(session_id: Seq<char>, outcome: FoldOutcome) -> bool {
    outcome matches FoldOutcome::Restored(Ok(state)) && state.session_id@ == session_id
        && state.created
}

/// An event that was applied is not remarked on, and one that could not be is, with its identity and
/// with what was wrong.
pub proof fn failures_are_remarked_on(
    session_id: Seq<char>,
    event_id: Seq<char>,
    outcome: FoldOutcome,
)
    ensures
        folded(session_id, event_id, outcome).0 == replaces(session_id, outcome),
        outcome matches FoldOutcome::Applied(None) ==> folded(session_id, event_id, outcome).1 is None,
        outcome matches FoldOutcome::Applied(Some(error)) ==> folded(
            session_id,
            event_id,
            outcome,
        ).1 == Some("event "@ + event_id + " could not be folded: "@ + error@),
        outcome is Restored ==> (folded(session_id, event_id, outcome).1 is Some <==> !replaces(
            session_id,
            outcome,
        )),
{
}

/// What there is to say of two lists of events is what there is to say of the first, then of the
/// second.
pub proof fn remarks_keep_the_order_of_events(
    session_id: Seq<char>,
    first: Seq<EnvelopeModel>,
    second: Seq<EnvelopeModel>,
    early: Seq<FoldOutcome>,
    late: Seq<FoldOutcome>,
)
    requires
        first.len() == early.len(),
        second.len() == late.len(),
    ensures
        remarks(session_id, first + second, early + late) == remarks(session_id, first, early)
            + remarks(session_id, second, late),
        second.len() == 1 ==> remarks(session_id, second, late) == match folded(
            session_id,
            second[0].event_id,
            late[0],
        ).1 {
            Some(remark) => seq![remark],
            None => Seq::empty(),
        },
    decreases second.len(),
{
    if second.len() == 0 {
        assert(first + second =~= first && early + late =~= early);
        assert(remarks(session_id, first, early) + remarks(session_id, second, late) =~= remarks(
            session_id,
            first,
            early,
        ));
    } else {
        remarks_keep_the_order_of_events(
            session_id,
            first,
            second.drop_last(),
            early,
            late.drop_last(),
        );
        assert((first + second).drop_last() =~= first + second.drop_last());
        assert((early + late).drop_last() =~= early + late.drop_last());
        let a = remarks(session_id, first, early);
        let b = remarks(session_id, second.drop_last(), late.drop_last());
        match folded(session_id, second.last().event_id, late.last()).1 {
            Some(remark) => {
                assert((a + b).push(remark) =~= a + b.push(remark));
            },
            None => {},
        }
        if second.len() == 1 {
            assert(b =~= Seq::empty());
            match folded(session_id, second[0].event_id, late[0]).1 {
                Some(remark) => {
                    assert(remarks(session_id, second, late) =~= seq![remark]);
                },
                None => {
                    assert(remarks(session_id, second, late) =~= Seq::empty());
                },
            }
        }
    }
}

/// A session whose log starts with something other than a snapshot, and of which no snapshot can be
/// used, is rebuilt from an empty session and from all that happened, in order.
pub proof fn sessions_without_snapshots_start_empty(
    commits: Seq<Seq<EnvelopeModel>>,
    usable: spec_fn(EnvelopeModel) -> bool,
)
    requires
        commits.len() > 0,
        !is_snapshot(commits[0]),
        forall|i: int|
            0 <= i < commits.len() && is_snapshot(#[trigger] commits[i]) ==> !usable(commits[i][0]),
    ensures
        searched(windows_of(commits, Seq::empty()), Seq::empty(), usable) == Some(
            (
                None::<EnvelopeModel>,
                commits.filter(
                    |commit: Seq<EnvelopeModel>|
                        !(commit.len() == 1 && commit[0].event.payload is Snapshot),
                ),
            ),
        ),
{
    search_finds_the_last_usable_snapshot(commits, usable);
    all_but_snapshots_are_applied(commits);
    lemma_search_ends(commits, Seq::empty(), Seq::empty(), usable);
    match searched(windows_of(commits, Seq::empty()), Seq::empty(), usable) {
        Some((Some(snapshot), fold)) => {
            let at = choose|at: int|
                #[trigger] is_last_usable(commits, usable, at) && commits[at][0] == snapshot
                    && fold == plain_commits(commits.skip(at + 1));
            assert(is_snapshot(commits[at]));
        },
        _ => {},
    }
}

proof fn lemma_search_ends(
    commits: Seq<Seq<EnvelopeModel>>,
    inner: Seq<Seq<EnvelopeModel>>,
    newer: Seq<Seq<EnvelopeModel>>,
    usable: spec_fn(EnvelopeModel) -> bool,
)
    requires
        commits.len() == 0 ==> inner.len() > 0,
        commits.len() > 0 ==> !is_snapshot(commits[0]),
    ensures
        searched(windows_of(commits, inner), newer, usable) is Some,
    decreases commits.len(),
{
    let windows = windows_of(commits, inner);
    if commits.len() > 0 {
        let rest = commits.drop_last();
        if is_snapshot(commits.last()) {
            assert(rest.len() > 0 && rest[0] == commits[0]);
            let none = Seq::<Seq<EnvelopeModel>>::empty();
            assert(windows.drop_first() =~= windows_of(rest, none));
            lemma_search_ends(rest, none, windows[0].commits + newer, usable);
        } else {
            if rest.len() > 0 {
                assert(rest[0] == commits[0]);
            }
            lemma_search_ends(rest, seq![commits.last()] + inner, newer, usable);
        }
    }
}

/// A window that starts with a snapshot of use starts the session there; one whose snapshot is of no
/// use is passed over, and what is wrong with it is said behind what was said before; the start of
/// the session starts it empty. In each case the commits of the window come before those of the
/// newer windows. Where there is no start everything is read again and nothing is said.
pub proof fn windows_are_tried_from_the_newest(
    session_id: Seq<char>,
    window: WindowModel,
    older: Seq<WindowModel>,
    restored: Result<RestoredState, String>,
    others: Seq<Result<RestoredState, String>>,
    newer: Seq<Seq<EnvelopeModel>>,
    said: Seq<Seq<char>>,
)
    ensures
        ({
            let plan = planned(
                session_id,
                seq![window] + older,
                seq![restored] + others,
                newer,
                said,
            );
            match window.origin {
                OriginModel::Snapshot(snapshot) => {
                    let fault = snapshot_fault(session_id, snapshot.event_id, restored);
                    &&& fault is None ==> plan.start == StartModel::Snapshot(snapshot)
                        && plan.commits == window.commits + newer && plan.diagnostics == said
                    &&& fault is Some ==> plan == planned(
                        session_id,
                        older,
                        others,
                        window.commits + newer,
                        said.push(fault->0),
                    )
                },
                OriginModel::SessionStart => plan.start is Empty && plan.commits == window.commits
                    + newer && plan.diagnostics == said,
                OriginModel::Unanchored => plan.start is Forward && plan.diagnostics.len() == 0,
            }
        }),
        planned(session_id, Seq::empty(), others, newer, said).start is Forward,
        planned(session_id, Seq::empty(), others, newer, said).diagnostics.len() == 0,
{
    assert((seq![window] + older).drop_first() =~= older);
    assert((seq![restored] + others).drop_first() =~= others);
}

} // verus!
