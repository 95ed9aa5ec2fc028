//! The blackboard: the gaps of the current workspace (append-only, each with
//! a lifecycle state), the evidence recorded against them, and the intent.
use vstd::prelude::*;

use super::artifact_guard::Constraints;
use crate::text::str_eq;

verus! {

/// A gap is named by its position on the board; positions never change.
pub type GapId = usize;

/// Lifecycle of a gap: `Blocked` until its dependencies close, `Ready` to be
/// dispatched, `Assigned` while being worked on, `Gated` while waiting for a
/// human, `Closed` when resolved.
#[derive(Clone, Copy, Debug, PartialEq, Eq, Structural)]
pub enum GapState {
    Blocked,
    Ready,
    Assigned,
    Gated,
    Closed,
}

/// Whether a gap is solved by a script or by a reactive agent.
#[derive(Clone, Copy, Debug, PartialEq, Eq, Structural)]
pub enum GapType {
    Proactive,
    Reactive,
}

/// An atomic task of the plan.
#[derive(Clone, Debug)]
pub struct Gap {
    pub name: String,
    pub description: String,
    pub gap_type: GapType,
    /// Names of the gaps this one depends on.
    pub dependencies: Vec<String>,
    pub constraints: Option<Constraints>,
    pub expected_output: Option<String>,
}

/// What an attempt recorded.
#[derive(Debug)]
pub enum EvidenceContent {
    /// The scanner rejected the artifact, for this reason.
    GuardRejected(String),
    /// A human denied the gated artifact, which was gated for this reason.
    GuardDenied(String),
    /// The output of running the artifact, as JSON text.
    Output(String),
    /// The gap was not run: the dependency of this name ended in failure.
    DependencyFailed(String),
}

/// How an attempt ended.
#[derive(Debug)]
pub enum EvidenceStatus {
    Success,
    Failure { reason: String },
    Partial,
}

/// The record of one attempt at a gap.
#[derive(Debug)]
pub struct Evidence {
    pub gap_id: GapId,
    /// 1-based attempt number.
    pub attempt: u32,
    pub content: EvidenceContent,
    pub status: EvidenceStatus,
}

/// Why a board operation failed.
#[derive(Debug, PartialEq, Eq)]
pub enum BoardError {
    /// A gap of this name is already on the board.
    DuplicateGap(String),
    /// No gap has this id.
    UnknownGap(GapId),
}

/// The workspace.
#[derive(Debug)]
pub struct Blackboard {
    gaps: Vec<Gap>,
    states: Vec<GapState>,
    evidence: Vec<Vec<Evidence>>,
    intent: Option<String>,
}

/// The mathematical form of a board.
pub struct BoardView {
    pub gaps: Seq<Gap>,
    pub states: Seq<GapState>,
    pub evidence: Seq<Seq<Evidence>>,
    pub intent: Option<String>,
}

impl View for Blackboard {
    type V = BoardView;

    closed spec fn view(&self) -> BoardView {
        BoardView {
            gaps: self.gaps@,
            states: self.states@,
            evidence: self.evidence@.map_values(|v: Vec<Evidence>| v@),
            intent: self.intent,
        }
    }
}

// ---------------------------------------------------------------------------
// Specifications
// ---------------------------------------------------------------------------

/// No two gaps share a name.
pub open spec fn names_distinct(gaps: Seq<Gap>) -> bool {
    forall|i: int, j: int|
        0 <= i < gaps.len() && 0 <= j < gaps.len() && i != j ==> gaps[i].name@ != gaps[j].name@
}

/// Some gap has this name.
pub open spec fn has_name(gaps: Seq<Gap>, name: Seq<char>) -> bool {
    exists|j: int| 0 <= j < gaps.len() && (#[trigger] gaps[j]).name@ == name
}

/// The last attempt recorded against a gap failed.
pub open spec fn ended_in_failure(evs: Seq<Evidence>) -> bool {
    evs.len() > 0 && evs.last().status is Failure
}

/// For each gap, whether its last attempt failed.
pub open spec fn failure_flags(evidence: Seq<Seq<Evidence>>) -> Seq<bool> {
    evidence.map_values(|evs: Seq<Evidence>| ended_in_failure(evs))
}

/// The gap of this name exists and is closed without its last attempt
/// having failed.
pub open spec fn dep_succeeded(
    gaps: Seq<Gap>,
    states: Seq<GapState>,
    failed: Seq<bool>,
    name: Seq<char>,
) -> bool {
    exists|j: int|
        0 <= j < gaps.len() && (#[trigger] gaps[j]).name@ == name && states[j] == GapState::Closed
            && !failed[j]
}

/// The gap of this name exists and is closed on a failure.
pub open spec fn dep_failed(
    gaps: Seq<Gap>,
    states: Seq<GapState>,
    failed: Seq<bool>,
    name: Seq<char>,
) -> bool {
    exists|j: int|
        0 <= j < gaps.len() && (#[trigger] gaps[j]).name@ == name && states[j] == GapState::Closed
            && failed[j]
}

/// Every dependency of gap `i` names a gap that closed without failing.
pub open spec fn deps_succeeded(
    gaps: Seq<Gap>,
    states: Seq<GapState>,
    failed: Seq<bool>,
    i: int,
) -> bool {
    forall|k: int|
        0 <= k < gaps[i].dependencies@.len() ==> dep_succeeded(
            gaps,
            states,
            failed,
            (#[trigger] gaps[i].dependencies@[k])@,
        )
}

/// The first dependency of gap `i`, at or after position `k` of its list,
/// that names a gap closed on a failure.
pub open spec fn first_failed_dep(
    gaps: Seq<Gap>,
    states: Seq<GapState>,
    failed: Seq<bool>,
    i: int,
    k: int,
) -> Option<int>
    decreases gaps[i].dependencies@.len() - k,
{
    if k < 0 || k >= gaps[i].dependencies@.len() {
        None
    } else if dep_failed(gaps, states, failed, gaps[i].dependencies@[k]@) {
        Some(k)
    } else {
        first_failed_dep(gaps, states, failed, i, k + 1)
    }
}

/// Gap `i` is blocked on a dependency that closed on a failure, so it can
/// never run.
pub open spec fn doomed(gaps: Seq<Gap>, states: Seq<GapState>, failed: Seq<bool>, i: int) -> bool {
    states[i] == GapState::Blocked && first_failed_dep(gaps, states, failed, i, 0) is Some
}

/// One round of failure propagation, on the states: every doomed gap closes.
pub open spec fn round_states(gaps: Seq<Gap>, states: Seq<GapState>, failed: Seq<bool>) -> Seq<
    GapState,
> {
    Seq::new(
        states.len(),
        |i: int|
            if doomed(gaps, states, failed, i) {
                GapState::Closed
            } else {
                states[i]
            },
    )
}

/// One round of failure propagation, on the failure flags: every doomed gap
/// ends in failure.
pub open spec fn round_failed(gaps: Seq<Gap>, states: Seq<GapState>, failed: Seq<bool>) -> Seq<
    bool,
> {
    Seq::new(failed.len(), |i: int| doomed(gaps, states, failed, i) || failed[i])
}

/// States and failure flags after `k` rounds of failure propagation.
pub open spec fn rounds(gaps: Seq<Gap>, states: Seq<GapState>, failed: Seq<bool>, k: nat) -> (
    Seq<GapState>,
    Seq<bool>,
)
    decreases k,
{
    if k == 0 {
        (states, failed)
    } else {
        let (s, f) = rounds(gaps, states, failed, (k - 1) as nat);
        (round_states(gaps, s, f), round_failed(gaps, s, f))
    }
}

/// States and failure flags once failure has propagated: one round per gap.
pub open spec fn settled(gaps: Seq<Gap>, states: Seq<GapState>, failed: Seq<bool>) -> (
    Seq<GapState>,
    Seq<bool>,
) {
    rounds(gaps, states, failed, states.len())
}

/// The state a gap starts in: ready without dependencies, blocked otherwise.
pub open spec fn initial_state(g: Gap) -> GapState {
    if g.dependencies@.len() == 0 {
        GapState::Ready
    } else {
        GapState::Blocked
    }
}

/// The states after promotion: a blocked gap whose dependencies all closed
/// without failing becomes ready; every other state stays.
pub open spec fn promoted(gaps: Seq<Gap>, states: Seq<GapState>, failed: Seq<bool>) -> Seq<
    GapState,
> {
    Seq::new(
        states.len(),
        |i: int|
            if states[i] == GapState::Blocked && deps_succeeded(gaps, states, failed, i) {
                GapState::Ready
            } else {
                states[i]
            },
    )
}

/// The attempt number after `n` recorded attempts (saturating).
pub open spec fn next_attempt(n: nat) -> u32 {
    if n < u32::MAX {
        (n + 1) as u32
    } else {
        u32::MAX
    }
}

/// `ev` records that gap `i` was closed because its dependency `dep` failed.
pub open spec fn dependency_failure(ev: Evidence, i: int, attempts: nat, dep: Seq<char>) -> bool {
    &&& ev.gap_id == i
    &&& ev.attempt == next_attempt(attempts)
    &&& ev.content matches EvidenceContent::DependencyFailed(n) && n@ == dep
    &&& ev.status matches EvidenceStatus::Failure { reason } && reason@ == "dependency failed: "@
        + dep
}

/// The states once failure has propagated and unblocked gaps are promoted.
pub open spec fn after_promotion(b: BoardView) -> Seq<GapState> {
    let (s, f) = settled(b.gaps, b.states, failure_flags(b.evidence));
    promoted(b.gaps, s, f)
}

/// `evs`, gap `i`'s evidence after propagation closed it, is its evidence
/// before with one record more, which names the first of its dependencies
/// that failed (under the settled states `s` and failure flags `f`).
pub open spec fn dependency_record(
    old: BoardView,
    s: Seq<GapState>,
    f: Seq<bool>,
    evs: Seq<Evidence>,
    i: int,
) -> bool {
    &&& first_failed_dep(old.gaps, s, f, i, 0) is Some
    &&& evs.drop_last() == old.evidence[i]
    &&& evs.len() == old.evidence[i].len() + 1
    &&& dependency_failure(
        evs.last(),
        i,
        old.evidence[i].len(),
        old.gaps[i].dependencies@[first_failed_dep(old.gaps, s, f, i, 0)->0]@,
    )
}

/// The records failure propagation adds to `old`'s evidence: each gap it
/// closes gets one record naming the first of its dependencies that failed;
/// every other gap's evidence stays.
pub open spec fn propagation_records(old: BoardView, evidence: Seq<Seq<Evidence>>) -> bool {
    let (s, f) = settled(old.gaps, old.states, failure_flags(old.evidence));
    &&& evidence.len() == old.evidence.len()
    &&& forall|i: int|
        0 <= i < old.evidence.len() && s[i] == old.states[i] ==> #[trigger] evidence[i]
            == old.evidence[i]
    &&& forall|i: int|
        0 <= i < old.evidence.len() && s[i] != old.states[i] ==> #[trigger] dependency_record(
            old,
            s,
            f,
            evidence[i],
            i,
        )
}

/// The board after failure propagation and promotion: doomed gaps are closed,
/// each with one record naming the first of its dependencies that failed;
/// then blocked gaps whose dependencies all succeeded become ready.
pub open spec fn propagated_and_promoted(old: BoardView, new: BoardView) -> bool {
    &&& new.gaps == old.gaps
    &&& new.intent == old.intent
    &&& new.states == after_promotion(old)
    &&& propagation_records(old, new.evidence)
}

/// The states after draining: every ready gap becomes assigned.
pub open spec fn drained(states: Seq<GapState>) -> Seq<GapState> {
    Seq::new(
        states.len(),
        |i: int|
            if states[i] == GapState::Ready {
                GapState::Assigned
            } else {
                states[i]
            },
    )
}

/// The ids of the ready gaps, in increasing order.
pub open spec fn ready_ids(states: Seq<GapState>, n: int) -> Seq<GapId>
    decreases n,
{
    if n <= 0 {
        seq![]
    } else if states[n - 1] == GapState::Ready {
        ready_ids(states, n - 1).push((n - 1) as usize)
    } else {
        ready_ids(states, n - 1)
    }
}

/// At most the first `limit` items of `s`.
pub open spec fn first_n(s: Seq<GapId>, limit: int) -> Seq<GapId> {
    if s.len() <= limit {
        s
    } else {
        s.take(limit)
    }
}

/// The states after dispatching at most `limit` ready gaps, lowest ids
/// first: those become assigned, the other ready gaps stay ready.
pub open spec fn drained_up_to(states: Seq<GapState>, limit: int) -> Seq<GapState> {
    Seq::new(
        states.len(),
        |i: int|
            if states[i] == GapState::Ready && ready_ids(states, i).len() < limit {
                GapState::Assigned
            } else {
                states[i]
            },
    )
}

/// Every gap is closed.
pub open spec fn all_closed_spec(states: Seq<GapState>) -> bool {
    forall|i: int| 0 <= i < states.len() ==> states[i] == GapState::Closed
}

impl BoardView {
    /// The board's parts agree in length and gap names are unique.
    pub open spec fn wf(self) -> bool {
        &&& self.states.len() == self.gaps.len()
        &&& self.evidence.len() == self.gaps.len()
        &&& names_distinct(self.gaps)
    }

    /// The board is unchanged but for the states.
    pub open spec fn same_but_states(self, other: BoardView) -> bool {
        &&& self.gaps == other.gaps
        &&& self.evidence == other.evidence
        &&& self.intent == other.intent
    }
}

// ---------------------------------------------------------------------------
// Gaps
// ---------------------------------------------------------------------------

impl Gap {
    pub fn new(
        name: String,
        description: String,
        gap_type: GapType,
        dependencies: Vec<String>,
        constraints: Option<Constraints>,
        expected_output: Option<String>,
    ) -> (g: Gap)
        ensures
            g.name == name,
            g.description == description,
            g.gap_type == gap_type,
            g.dependencies == dependencies,
            g.constraints == constraints,
            g.expected_output == expected_output,
    {
        Gap { name, description, gap_type, dependencies, constraints, expected_output }
    }
}

// ---------------------------------------------------------------------------
// The board
// ---------------------------------------------------------------------------

impl Blackboard {
    /// The board is well formed: its parts agree and gap names are unique.
    #[verifier::type_invariant]
    pub open spec fn wf(&self) -> bool {
        self@.wf()
    }

    /// An empty board.
    pub fn new() -> (b: Blackboard)
        ensures
            b@.wf(),
            b@.gaps.len() == 0,
            b@.intent is None,
    {
        let b = Blackboard { gaps: Vec::new(), states: Vec::new(), evidence: Vec::new(), intent: None };
        proof {
            assert(b@.evidence =~= Seq::<Seq<Evidence>>::empty());
        }
        b
    }

    /// Number of gaps on the board.
    pub fn len(&self) -> (n: usize)
        ensures
            n == self@.gaps.len(),
    {
        self.gaps.len()
    }

    /// The id of the gap with this name.
    pub fn get_gap_id_by_name(&self, name: &str) -> (r: Option<GapId>)
        ensures
            r matches Some(i) ==> i < self@.gaps.len() && self@.gaps[i as int].name@ == name@,
            r is None <==> !has_name(self@.gaps, name@),
    {
        proof {
            use_type_invariant(&*self);
        }
        let mut i: usize = 0;
        while i < self.gaps.len()
            invariant
                i <= self.gaps@.len(),
                forall|j: int| 0 <= j < i ==> self.gaps@[j].name@ != name@,
            decreases self.gaps@.len() - i,
        {
            if str_eq(self.gaps[i].name.as_str(), name) {
                return Some(i);
            }
            i += 1;
        }
        None
    }

    /// The gap with this id.
    pub fn get_gap(&self, id: GapId) -> (r: Option<&Gap>)
        ensures
            r matches Some(g) ==> id < self@.gaps.len() && *g == self@.gaps[id as int],
            r is None <==> id >= self@.gaps.len(),
    {
        if id < self.gaps.len() {
            Some(&self.gaps[id])
        } else {
            None
        }
    }

    /// The state of the gap with this id.
    pub fn state_of(&self, id: GapId) -> (r: Option<GapState>)
        ensures
            r matches Some(s) ==> id < self@.gaps.len() && s == self@.states[id as int],
            r is None <==> id >= self@.gaps.len(),
    {
        proof {
            use_type_invariant(&*self);
        }
        if id < self.states.len() {
            Some(self.states[id])
        } else {
            None
        }
    }

    /// The attempts recorded against the gap with this id, in order.
    pub fn get_evidence(&self, id: GapId) -> (evs: &Vec<Evidence>)
        requires
            id < self@.gaps.len(),
        ensures
            evs@ == self@.evidence[id as int],
    {
        proof {
            use_type_invariant(&*self);
        }
        &self.evidence[id]
    }

    /// The current intent.
    pub fn get_intent(&self) -> (r: &Option<String>)
        ensures
            *r == self@.intent,
    {
        &self.intent
    }

    /// Replaces the intent.
    pub fn set_intent(&mut self, intent: String)
        ensures
            final(self)@.intent == Some(intent),
            final(self)@.gaps == old(self)@.gaps,
            final(self)@.states == old(self)@.states,
            final(self)@.evidence == old(self)@.evidence,
    {
        proof {
            use_type_invariant(&*self);
        }
        self.intent = Some(intent);
    }

    /// Moves the board out, leaving an empty one in its place.
    fn take(&mut self) -> (b: Blackboard)
        ensures
            b@ == old(self)@,
            b@.wf(),
    {
        let mut b = Blackboard { gaps: Vec::new(), states: Vec::new(), evidence: Vec::new(), intent: None };
        proof {
            assert(b@.evidence =~= Seq::<Seq<Evidence>>::empty());
        }
        std::mem::swap(self, &mut b);
        proof {
            use_type_invariant(&b);
        }
        b
    }

    /// Adds a gap, in its initial state, and returns its id. A gap whose name
    /// is already on the board is refused and the board left unchanged.
    pub fn insert_gap(&mut self, gap: Gap) -> (r: Result<GapId, BoardError>)
        ensures
            has_name(old(self)@.gaps, gap.name@) <==> r is Err,
            r matches Err(e) ==> e == BoardError::DuplicateGap(gap.name) && final(self)@ == old(
                self,
            )@,
            r matches Ok(id) ==> {
                &&& id == old(self)@.gaps.len()
                &&& final(self)@.gaps == old(self)@.gaps.push(gap)
                &&& final(self)@.states == old(self)@.states.push(initial_state(gap))
                &&& final(self)@.evidence == old(self)@.evidence.push(Seq::empty())
                &&& final(self)@.intent == old(self)@.intent
            },
    {
        proof {
            use_type_invariant(&*self);
        }
        match self.get_gap_id_by_name(gap.name.as_str()) {
            Some(_) => {
                return Err(BoardError::DuplicateGap(gap.name));
            },
            None => {},
        }
        let id = self.gaps.len();
        let state = if gap.dependencies.len() == 0 {
            GapState::Ready
        } else {
            GapState::Blocked
        };
        let Blackboard { mut gaps, mut states, mut evidence, intent } = self.take();
        gaps.push(gap);
        states.push(state);
        evidence.push(Vec::new());
        proof {
            assert(evidence@.map_values(|v: Vec<Evidence>| v@) =~= old(self)@.evidence.push(
                Seq::empty(),
            ));
            assert(names_distinct(gaps@));
        }
        *self = Blackboard { gaps, states, evidence, intent };
        Ok(id)
    }

    /// Sets the state of a gap.
    pub fn set_gap_state(&mut self, id: GapId, state: GapState) -> (r: Result<(), BoardError>)
        ensures
            final(self)@.same_but_states(old(self)@),
            r is Err <==> id >= old(self)@.gaps.len(),
            r matches Err(e) ==> e == BoardError::UnknownGap(id) && final(self)@.states == old(
                self,
            )@.states,
            r is Ok ==> final(self)@.states == old(self)@.states.update(id as int, state),
    {
        proof {
            use_type_invariant(&*self);
        }
        if id >= self.states.len() {
            return Err(BoardError::UnknownGap(id));
        }
        let Blackboard { gaps, mut states, evidence, intent } = self.take();
        states.set(id, state);
        *self = Blackboard { gaps, states, evidence, intent };
        Ok(())
    }

    /// Records an attempt against the gap it names.
    pub fn append_evidence(&mut self, ev: Evidence)
        requires
            ev.gap_id < old(self)@.gaps.len(),
        ensures
            final(self)@.gaps == old(self)@.gaps,
            final(self)@.states == old(self)@.states,
            final(self)@.intent == old(self)@.intent,
            final(self)@.evidence == old(self)@.evidence.update(
                ev.gap_id as int,
                old(self)@.evidence[ev.gap_id as int].push(ev),
            ),
    {
        proof {
            use_type_invariant(&*self);
        }
        let id = ev.gap_id;
        let Blackboard { gaps, states, mut evidence, intent } = self.take();
        evidence[id].push(ev);
        proof {
            assert(evidence@.map_values(|v: Vec<Evidence>| v@) =~= old(self)@.evidence.update(
                id as int,
                old(self)@.evidence[id as int].push(ev),
            ));
        }
        *self = Blackboard { gaps, states, evidence, intent };
    }

    /// Whether the gap named `name` closed on a failure, and whether it
    /// closed without failing, under the given states and failure flags.
    fn dep_outcome(&self, states: &Vec<GapState>, failed: &Vec<bool>, name: &str) -> (r: (
        bool,
        bool,
    ))
        requires
            states@.len() == self@.gaps.len(),
            failed@.len() == self@.gaps.len(),
        ensures
            r.0 == dep_failed(self@.gaps, states@, failed@, name@),
            r.1 == dep_succeeded(self@.gaps, states@, failed@, name@),
    {
        proof {
            use_type_invariant(&*self);
        }
        match self.get_gap_id_by_name(name) {
            Some(j) => {
                let closed = states[j] == GapState::Closed;
                let f = failed[j];
                proof {
                    assert forall|x: int|
                        0 <= x < self@.gaps.len() && (#[trigger] self@.gaps[x]).name@ == name@
                            implies x == j by {
                        if x != j {
                            assert(self@.gaps[x].name@ != self@.gaps[j as int].name@);
                        }
                    }
                }
                (closed && f, closed && !f)
            },
            None => (false, false),
        }
    }

    /// The first dependency of gap `i` that names a gap closed on a failure.
    fn find_failed_dep(&self, i: usize, states: &Vec<GapState>, failed: &Vec<bool>) -> (r: Option<
        usize,
    >)
        requires
            i < self@.gaps.len(),
            states@.len() == self@.gaps.len(),
            failed@.len() == self@.gaps.len(),
        ensures
            r matches Some(k) ==> first_failed_dep(self@.gaps, states@, failed@, i as int, 0)
                == Some(k as int),
            r is None ==> first_failed_dep(self@.gaps, states@, failed@, i as int, 0) is None,
    {
        let deps = &self.gaps[i].dependencies;
        let mut k: usize = 0;
        while k < deps.len()
            invariant
                i < self@.gaps.len(),
                states@.len() == self@.gaps.len(),
                failed@.len() == self@.gaps.len(),
                *deps == self@.gaps[i as int].dependencies,
                k <= deps@.len(),
                first_failed_dep(self@.gaps, states@, failed@, i as int, 0) == first_failed_dep(
                    self@.gaps,
                    states@,
                    failed@,
                    i as int,
                    k as int,
                ),
            decreases deps@.len() - k,
        {
            let (bad, _) = self.dep_outcome(states, failed, deps[k].as_str());
            if bad {
                return Some(k);
            }
            k += 1;
        }
        None
    }

    /// Whether every dependency of gap `i` names a gap closed without failing.
    fn dependencies_succeeded(&self, i: usize, states: &Vec<GapState>, failed: &Vec<bool>) -> (b:
        bool)
        requires
            i < self@.gaps.len(),
            states@.len() == self@.gaps.len(),
            failed@.len() == self@.gaps.len(),
        ensures
            b == deps_succeeded(self@.gaps, states@, failed@, i as int),
    {
        let deps = &self.gaps[i].dependencies;
        let mut k: usize = 0;
        while k < deps.len()
            invariant
                i < self@.gaps.len(),
                states@.len() == self@.gaps.len(),
                failed@.len() == self@.gaps.len(),
                *deps == self@.gaps[i as int].dependencies,
                k <= deps@.len(),
                forall|x: int|
                    0 <= x < k ==> dep_succeeded(
                        self@.gaps,
                        states@,
                        failed@,
                        (#[trigger] deps@[x])@,
                    ),
            decreases deps@.len() - k,
        {
            let (_, good) = self.dep_outcome(states, failed, deps[k].as_str());
            if !good {
                return false;
            }
            k += 1;
        }
        true
    }

    /// For each gap, whether its last attempt failed.
    fn failure_flag_vec(&self) -> (f: Vec<bool>)
        ensures
            f@ == failure_flags(self@.evidence),
    {
        proof {
            use_type_invariant(&*self);
        }
        let mut f: Vec<bool> = Vec::new();
        for i in 0..self.evidence.len()
            invariant
                f@.len() == i,
                self.evidence@.len() == self@.evidence.len(),
                forall|j: int| 0 <= j < i ==> f@[j] == failure_flags(self@.evidence)[j],
        {
            let evs = &self.evidence[i];
            let ended = evs.len() > 0 && match evs[evs.len() - 1].status {
                EvidenceStatus::Failure { .. } => true,
                _ => false,
            };
            proof {
                assert(self@.evidence[i as int] == evs@);
            }
            f.push(ended);
        }
        proof {
            assert(f@ =~= failure_flags(self@.evidence));
        }
        f
    }

    /// One round of failure propagation.
    fn propagate_round(&self, states: &Vec<GapState>, failed: &Vec<bool>) -> (r: (
        Vec<GapState>,
        Vec<bool>,
    ))
        requires
            states@.len() == self@.gaps.len(),
            failed@.len() == self@.gaps.len(),
        ensures
            r.0@ == round_states(self@.gaps, states@, failed@),
            r.1@ == round_failed(self@.gaps, states@, failed@),
    {
        let mut s2: Vec<GapState> = Vec::new();
        let mut f2: Vec<bool> = Vec::new();
        for i in 0..states.len()
            invariant
                states@.len() == self@.gaps.len(),
                failed@.len() == self@.gaps.len(),
                s2@.len() == i,
                f2@.len() == i,
                forall|j: int|
                    0 <= j < i ==> s2@[j] == round_states(self@.gaps, states@, failed@)[j],
                forall|j: int|
                    0 <= j < i ==> f2@[j] == round_failed(self@.gaps, states@, failed@)[j],
        {
            let d = states[i] == GapState::Blocked && self.find_failed_dep(i, states, failed).is_some();
            if d {
                s2.push(GapState::Closed);
                f2.push(true);
            } else {
                s2.push(states[i]);
                f2.push(failed[i]);
            }
        }
        proof {
            assert(s2@ =~= round_states(self@.gaps, states@, failed@));
            assert(f2@ =~= round_failed(self@.gaps, states@, failed@));
        }
        (s2, f2)
    }

    /// Closes every blocked gap that depends, directly or through other
    /// blocked gaps, on a gap that closed on a failure, recording against it
    /// which dependency failed; then promotes every blocked gap whose
    /// dependencies all closed without failing to ready.
    pub fn promote_unblocked(&mut self)
        ensures
            propagated_and_promoted(old(self)@, final(self)@),
    {
        proof {
            use_type_invariant(&*self);
        }
        let ghost old_view = self@;
        let ghost f0 = failure_flags(old_view.evidence);
        let n = self.states.len();
        let mut s: Vec<GapState> = Vec::new();
        for i in 0..n
            invariant
                n == self@.states.len(),
                s@.len() == i,
                forall|j: int| 0 <= j < i ==> s@[j] == self@.states[j],
        {
            s.push(self.states[i]);
        }
        let mut f = self.failure_flag_vec();
        proof {
            assert(s@ =~= old_view.states);
        }
        for r in 0..n
            invariant
                self@ == old_view,
                self@.wf(),
                n == self@.states.len(),
                s@.len() == n,
                f@.len() == n,
                (s@, f@) == rounds(old_view.gaps, old_view.states, f0, r as nat),
        {
            let (s2, f2) = self.propagate_round(&s, &f);
            s = s2;
            f = f2;
        }
        let ghost fs = s@;
        let ghost ff = f@;
        proof {
            lemma_rounds(old_view.gaps, old_view.states, f0, n as nat);
        }
        for i in 0..n
            invariant
                self@.wf(),
                self@.gaps == old_view.gaps,
                self@.states == old_view.states,
                self@.intent == old_view.intent,
                n == self@.states.len(),
                s@ == fs,
                f@ == ff,
                fs.len() == n,
                ff.len() == n,
                (fs, ff) == settled(old_view.gaps, old_view.states, f0),
                forall|j: int|
                    0 <= j < n && fs[j] != old_view.states[j] ==> first_failed_dep(
                        old_view.gaps,
                        fs,
                        ff,
                        j,
                        0,
                    ) is Some,
                self@.evidence.len() == n,
                forall|j: int| i <= j < n ==> #[trigger] self@.evidence[j] == old_view.evidence[j],
                forall|j: int|
                    0 <= j < i && fs[j] == old_view.states[j] ==> #[trigger] self@.evidence[j]
                        == old_view.evidence[j],
                forall|j: int|
                    0 <= j < i && fs[j] != old_view.states[j] ==> #[trigger] dependency_record(
                        old_view,
                        fs,
                        ff,
                        self@.evidence[j],
                        j,
                    ),
        {
            proof {
                use_type_invariant(&*self);
            }
            if s[i] != self.states[i] {
                match self.find_failed_dep(i, &s, &f) {
                    Some(k) => {
                        proof {
                            lemma_first_failed_dep(old_view.gaps, fs, ff, i as int, 0);
                        }
                        let dep = self.gaps[i].dependencies[k].clone();
                        let mut reason = String::new();
                        crate::text::push_str(&mut reason, "dependency failed: ");
                        crate::text::push_str(&mut reason, dep.as_str());
                        let l = self.evidence[i].len();
                        let attempt: u32 = if l < 4294967295usize {
                            (l + 1) as u32
                        } else {
                            4294967295u32
                        };
                        let ghost before = self@;
                        self.append_evidence(
                            Evidence {
                                gap_id: i,
                                attempt,
                                content: EvidenceContent::DependencyFailed(dep),
                                status: EvidenceStatus::Failure { reason },
                            },
                        );
                        proof {
                            assert(self@.evidence[i as int].drop_last() =~= before.evidence[i as int]);
                            assert(before.evidence[i as int] == old_view.evidence[i as int]);
                            assert(l == old_view.evidence[i as int].len());
                            assert(attempt == next_attempt(l as nat));
                            assert(dep@ == old_view.gaps[i as int].dependencies@[k as int]@);
                            assert(self@.evidence[i as int].last().content matches EvidenceContent::DependencyFailed(n) && n@ == dep@);
                            assert(dependency_failure(self@.evidence[i as int].last(), i as int, l as nat, dep@));
                            assert(dependency_record(old_view, fs, ff, self@.evidence[i as int], i as int));
                            assert forall|j: int| 0 <= j < n && j != i implies #[trigger] self@.evidence[j]
                                == before.evidence[j] by {}
                        }
                    },
                    None => {},
                }
            }
        }
        proof {
            use_type_invariant(&*self);
        }
        let mut p: Vec<GapState> = Vec::new();
        for i in 0..n
            invariant
                self@.wf(),
                self@.gaps == old_view.gaps,
                n == self@.states.len(),
                s@ == fs,
                f@ == ff,
                fs.len() == n,
                ff.len() == n,
                p@.len() == i,
                forall|j: int| 0 <= j < i ==> p@[j] == promoted(old_view.gaps, fs, ff)[j],
        {
            let q = if s[i] == GapState::Blocked && self.dependencies_succeeded(i, &s, &f) {
                GapState::Ready
            } else {
                s[i]
            };
            p.push(q);
        }
        proof {
            assert(p@ =~= promoted(old_view.gaps, fs, ff));
        }
        let Blackboard { gaps, states: _, evidence, intent } = self.take();
        *self = Blackboard { gaps, states: p, evidence, intent };
    }

    /// Marks every ready gap assigned and returns their ids, in increasing order.
    pub fn drain_ready(&mut self) -> (ids: Vec<GapId>)
        ensures
            final(self)@.same_but_states(old(self)@),
            final(self)@.states == drained(old(self)@.states),
            ids@ == ready_ids(old(self)@.states, old(self)@.states.len() as int),
    {
        proof {
            use_type_invariant(&*self);
        }
        let ghost before = self@;
        let n = self.states.len();
        let mut ids: Vec<GapId> = Vec::new();
        let Blackboard { gaps, mut states, evidence, intent } = self.take();
        for i in 0..n
            invariant
                states@.len() == n,
                before.states.len() == n,
                ids@ == ready_ids(before.states, i as int),
                forall|j: int| 0 <= j < i ==> states@[j] == drained(before.states)[j],
                forall|j: int| i <= j < n ==> states@[j] == before.states[j],
        {
            if states[i] == GapState::Ready {
                ids.push(i);
                states.set(i, GapState::Assigned);
            }
        }
        proof {
            assert(states@ =~= drained(before.states));
        }
        *self = Blackboard { gaps, states, evidence, intent };
        ids
    }

    /// Marks at most `limit` ready gaps assigned, lowest ids first, and
    /// returns their ids in increasing order.
    pub fn drain_ready_up_to(&mut self, limit: usize) -> (ids: Vec<GapId>)
        ensures
            final(self)@.same_but_states(old(self)@),
            final(self)@.states == drained_up_to(old(self)@.states, limit as int),
            ids@ == first_n(
                ready_ids(old(self)@.states, old(self)@.states.len() as int),
                limit as int,
            ),
    {
        proof {
            use_type_invariant(&*self);
        }
        let ghost before = self@;
        let n = self.states.len();
        let mut ids: Vec<GapId> = Vec::new();
        let Blackboard { gaps, mut states, evidence, intent } = self.take();
        for i in 0..n
            invariant
                states@.len() == n,
                before.states.len() == n,
                ids@ == first_n(ready_ids(before.states, i as int), limit as int),
                forall|j: int| 0 <= j < i ==> states@[j] == drained_up_to(before.states, limit as int)[j],
                forall|j: int| i <= j < n ==> states@[j] == before.states[j],
        {
            let ghost prev = ready_ids(before.states, i as int);
            if states[i] == GapState::Ready {
                assert(ready_ids(before.states, i + 1) == prev.push(i));
                if ids.len() < limit {
                    ids.push(i);
                    states.set(i, GapState::Assigned);
                    proof {
                        assert(prev.len() < limit);
                        assert(ids@ =~= first_n(prev.push(i), limit as int));
                    }
                } else {
                    proof {
                        assert(prev.len() >= limit);
                        assert(first_n(prev.push(i), limit as int) =~= prev.take(limit as int));
                    }
                }
            } else {
                assert(ready_ids(before.states, i + 1) == prev);
            }
        }
        proof {
            assert(states@ =~= drained_up_to(before.states, limit as int));
        }
        *self = Blackboard { gaps, states, evidence, intent };
        ids
    }

    /// Whether every gap is closed.
    pub fn all_closed(&self) -> (b: bool)
        ensures
            b == all_closed_spec(self@.states),
    {
        proof {
            use_type_invariant(&*self);
        }
        let mut i: usize = 0;
        while i < self.states.len()
            invariant
                i <= self@.states.len(),
                forall|j: int| 0 <= j < i ==> self@.states[j] == GapState::Closed,
            decreases self@.states.len() - i,
        {
            if self.states[i] != GapState::Closed {
                return false;
            }
            i += 1;
        }
        true
    }
}

// ---------------------------------------------------------------------------
// Failure propagation
// ---------------------------------------------------------------------------

pub proof fn lemma_first_failed_dep(
    gaps: Seq<Gap>,
    states: Seq<GapState>,
    failed: Seq<bool>,
    i: int,
    k: int,
)
    requires
        0 <= i < gaps.len(),
        0 <= k <= gaps[i].dependencies@.len(),
    ensures
        first_failed_dep(gaps, states, failed, i, k) matches Some(m) ==> k <= m
            < gaps[i].dependencies@.len() && dep_failed(
            gaps,
            states,
            failed,
            gaps[i].dependencies@[m]@,
        ),
        first_failed_dep(gaps, states, failed, i, k) is None ==> forall|x: int|
            k <= x < gaps[i].dependencies@.len() ==> !dep_failed(
                gaps,
                states,
                failed,
                (#[trigger] gaps[i].dependencies@[x])@,
            ),
    decreases gaps[i].dependencies@.len() - k,
{
    if k < gaps[i].dependencies@.len() && !dep_failed(
        gaps,
        states,
        failed,
        gaps[i].dependencies@[k]@,
    ) {
        lemma_first_failed_dep(gaps, states, failed, i, k + 1);
    }
}

/// A gap with a failed dependency keeps one while gaps closed on a failure
/// stay so.
proof fn lemma_failed_dep_kept(
    gaps: Seq<Gap>,
    s: Seq<GapState>,
    f: Seq<bool>,
    s2: Seq<GapState>,
    f2: Seq<bool>,
    i: int,
)
    requires
        0 <= i < gaps.len(),
        s.len() == gaps.len(),
        f.len() == gaps.len(),
        s2.len() == gaps.len(),
        f2.len() == gaps.len(),
        forall|j: int|
            0 <= j < gaps.len() && s[j] == GapState::Closed && f[j] ==> s2[j] == GapState::Closed
                && f2[j],
        first_failed_dep(gaps, s, f, i, 0) is Some,
    ensures
        first_failed_dep(gaps, s2, f2, i, 0) is Some,
{
    lemma_first_failed_dep(gaps, s, f, i, 0);
    lemma_first_failed_dep(gaps, s2, f2, i, 0);
    let m = first_failed_dep(gaps, s, f, i, 0)->0;
    let name = gaps[i].dependencies@[m]@;
    let j = choose|j: int|
        0 <= j < gaps.len() && (#[trigger] gaps[j]).name@ == name && s[j] == GapState::Closed
            && f[j];
    assert(dep_failed(gaps, s2, f2, name));
}

/// What rounds of propagation change: only blocked gaps, each closed on a
/// failure with a failed dependency; a gap closed on a failure stays so.
pub proof fn lemma_rounds(gaps: Seq<Gap>, states: Seq<GapState>, failed: Seq<bool>, k: nat)
    requires
        states.len() == gaps.len(),
        failed.len() == gaps.len(),
    ensures
        ({
            let (s, f) = rounds(gaps, states, failed, k);
            &&& s.len() == gaps.len()
            &&& f.len() == gaps.len()
            &&& forall|j: int|
                0 <= j < gaps.len() && #[trigger] s[j] != states[j] ==> {
                    &&& states[j] == GapState::Blocked
                    &&& s[j] == GapState::Closed
                    &&& f[j]
                    &&& first_failed_dep(gaps, s, f, j, 0) is Some
                }
            &&& forall|j: int| 0 <= j < gaps.len() && s[j] == states[j] ==> #[trigger] f[j] == failed[j]
            &&& forall|j: int|
                0 <= j < gaps.len() && states[j] == GapState::Closed && failed[j] ==> #[trigger] s[j]
                    == GapState::Closed && f[j]
        }),
    decreases k,
{
    if k > 0 {
        lemma_rounds(gaps, states, failed, (k - 1) as nat);
        let (s, f) = rounds(gaps, states, failed, (k - 1) as nat);
        let s2 = round_states(gaps, s, f);
        let f2 = round_failed(gaps, s, f);
        assert(rounds(gaps, states, failed, k) == (s2, f2));
        assert forall|j: int|
            0 <= j < gaps.len() && s[j] == GapState::Closed && f[j] implies s2[j] == GapState::Closed
                && f2[j] by {}
        assert forall|j: int| 0 <= j < gaps.len() && #[trigger] s2[j] != states[j] implies {
            &&& states[j] == GapState::Blocked
            &&& s2[j] == GapState::Closed
            &&& f2[j]
            &&& first_failed_dep(gaps, s2, f2, j, 0) is Some
        } by {
            if s[j] != states[j] {
                lemma_failed_dep_kept(gaps, s, f, s2, f2, j);
            } else {
                assert(doomed(gaps, s, f, j));
                lemma_failed_dep_kept(gaps, s, f, s2, f2, j);
            }
        }
        assert forall|j: int| 0 <= j < gaps.len() && s2[j] == states[j] implies #[trigger] f2[j]
            == failed[j] by {
            if doomed(gaps, s, f, j) {
                assert(s2[j] == GapState::Closed);
            }
        }
    }
}

/// Number of blocked gaps among the first `n`.
pub open spec fn count_blocked(s: Seq<GapState>, n: int) -> int
    decreases n,
{
    if n <= 0 {
        0
    } else {
        count_blocked(s, n - 1) + if s[n - 1] == GapState::Blocked {
            1int
        } else {
            0
        }
    }
}

/// No gap is doomed: propagation has nothing left to do.
pub open spec fn propagation_done(gaps: Seq<Gap>, s: Seq<GapState>, f: Seq<bool>) -> bool {
    forall|i: int| 0 <= i < s.len() ==> !#[trigger] doomed(gaps, s, f, i)
}

proof fn lemma_count_blocked(s: Seq<GapState>, s2: Seq<GapState>, n: int)
    requires
        0 <= n <= s.len(),
        s2.len() == s.len(),
        forall|j: int| 0 <= j < n && s2[j] == GapState::Blocked ==> s[j] == GapState::Blocked,
    ensures
        0 <= count_blocked(s2, n) <= count_blocked(s, n) <= n,
        (exists|j: int| 0 <= j < n && s[j] == GapState::Blocked && s2[j] != GapState::Blocked)
            ==> count_blocked(s2, n) < count_blocked(s, n),
        count_blocked(s, n) == 0 ==> forall|j: int| 0 <= j < n ==> s[j] != GapState::Blocked,
    decreases n,
{
    if n > 0 {
        lemma_count_blocked(s, s2, n - 1);
    }
}

proof fn lemma_rounds_progress(gaps: Seq<Gap>, states: Seq<GapState>, failed: Seq<bool>, k: nat)
    requires
        states.len() == gaps.len(),
        failed.len() == gaps.len(),
    ensures
        ({
            let (s, f) = rounds(gaps, states, failed, k);
            propagation_done(gaps, s, f) || count_blocked(s, s.len() as int) + k <= count_blocked(
                states,
                states.len() as int,
            )
        }),
    decreases k,
{
    lemma_rounds(gaps, states, failed, k);
    if k > 0 {
        lemma_rounds_progress(gaps, states, failed, (k - 1) as nat);
        lemma_rounds(gaps, states, failed, (k - 1) as nat);
        let (s, f) = rounds(gaps, states, failed, (k - 1) as nat);
        let s2 = round_states(gaps, s, f);
        let f2 = round_failed(gaps, s, f);
        if propagation_done(gaps, s, f) {
            assert(s2 =~= s);
            assert(f2 =~= f);
        } else {
            let i = choose|i: int| 0 <= i < s.len() && #[trigger] doomed(gaps, s, f, i);
            lemma_count_blocked(s, s2, s.len() as int);
        }
    }
}

/// Settling propagates failure completely: afterwards no blocked gap has a
/// dependency that closed on a failure.
pub proof fn law_propagation_complete(gaps: Seq<Gap>, states: Seq<GapState>, failed: Seq<bool>)
    requires
        states.len() == gaps.len(),
        failed.len() == gaps.len(),
    ensures
        ({
            let (s, f) = settled(gaps, states, failed);
            propagation_done(gaps, s, f)
        }),
{
    let n = states.len();
    lemma_rounds_progress(gaps, states, failed, n);
    lemma_rounds(gaps, states, failed, n);
    let (s, f) = settled(gaps, states, failed);
    lemma_count_blocked(states, states, n as int);
    if !propagation_done(gaps, s, f) {
        lemma_count_blocked(s, s, n as int);
        let i = choose|i: int| 0 <= i < s.len() && #[trigger] doomed(gaps, s, f, i);
    }
}

proof fn lemma_closed_kept(gaps: Seq<Gap>, states: Seq<GapState>, failed: Seq<bool>, m: nat, k: nat, i: int)
    requires
        states.len() == gaps.len(),
        failed.len() == gaps.len(),
        0 <= i < gaps.len(),
        m <= k,
        rounds(gaps, states, failed, m).0[i] == GapState::Closed,
    ensures
        rounds(gaps, states, failed, k).0[i] == GapState::Closed,
    decreases k,
{
    if k > m {
        lemma_closed_kept(gaps, states, failed, m, (k - 1) as nat, i);
        lemma_rounds(gaps, states, failed, (k - 1) as nat);
    }
}

/// A blocked gap with a dependency that closed on a failure is closed by
/// propagation (which records the failed dependency against it) and so is
/// never made ready for dispatch.
pub proof fn law_failed_dependency_closes_dependent(b: BoardView, i: int, k: int)
    requires
        b.wf(),
        b.states.len() <= usize::MAX,
        0 <= i < b.gaps.len(),
        b.states[i] == GapState::Blocked,
        0 <= k < b.gaps[i].dependencies@.len(),
        dep_failed(b.gaps, b.states, failure_flags(b.evidence), b.gaps[i].dependencies@[k]@),
    ensures
        settled(b.gaps, b.states, failure_flags(b.evidence)).0[i] == GapState::Closed,
        after_promotion(b)[i] == GapState::Closed,
        !ready_ids(after_promotion(b), b.states.len() as int).contains(i as usize),
{
    let fl = failure_flags(b.evidence);
    lemma_first_failed_dep(b.gaps, b.states, fl, i, 0);
    assert(doomed(b.gaps, b.states, fl, i));
    assert(rounds(b.gaps, b.states, fl, 0) == (b.states, fl));
    assert(rounds(b.gaps, b.states, fl, 1).0[i] == GapState::Closed);
    lemma_closed_kept(b.gaps, b.states, fl, 1, b.states.len(), i);
    lemma_rounds(b.gaps, b.states, fl, b.states.len());
    law_drain_takes_every_ready_gap(after_promotion(b));
}

proof fn lemma_stays_blocked(gaps: Seq<Gap>, states: Seq<GapState>, failed: Seq<bool>, i: int, k: nat)
    requires
        states.len() == gaps.len(),
        failed.len() == gaps.len(),
        names_distinct(gaps),
        0 <= i < gaps.len(),
        states[i] == GapState::Blocked,
        deps_succeeded(gaps, states, failed, i),
    ensures
        rounds(gaps, states, failed, k).0[i] == GapState::Blocked,
        deps_succeeded(gaps, rounds(gaps, states, failed, k).0, rounds(gaps, states, failed, k).1, i),
    decreases k,
{
    lemma_rounds(gaps, states, failed, k);
    if k > 0 {
        lemma_stays_blocked(gaps, states, failed, i, (k - 1) as nat);
        lemma_rounds(gaps, states, failed, (k - 1) as nat);
        let (s, f) = rounds(gaps, states, failed, (k - 1) as nat);
        let s2 = round_states(gaps, s, f);
        let f2 = round_failed(gaps, s, f);
        lemma_first_failed_dep(gaps, s, f, i, 0);
        if first_failed_dep(gaps, s, f, i, 0) is Some {
            let m = first_failed_dep(gaps, s, f, i, 0)->0;
            let name = gaps[i].dependencies@[m]@;
            assert(dep_succeeded(gaps, s, f, name));
            let j = choose|j: int|
                0 <= j < gaps.len() && (#[trigger] gaps[j]).name@ == name && s[j] == GapState::Closed
                    && !f[j];
            let j2 = choose|j: int|
                0 <= j < gaps.len() && (#[trigger] gaps[j]).name@ == name && s[j] == GapState::Closed
                    && f[j];
            assert(j == j2);
        }
        assert(!doomed(gaps, s, f, i));
        assert forall|x: int| 0 <= x < gaps[i].dependencies@.len() implies dep_succeeded(
            gaps,
            s2,
            f2,
            (#[trigger] gaps[i].dependencies@[x])@,
        ) by {
            let name = gaps[i].dependencies@[x]@;
            assert(dep_succeeded(gaps, s, f, name));
            let j = choose|j: int|
                0 <= j < gaps.len() && (#[trigger] gaps[j]).name@ == name && s[j] == GapState::Closed
                    && !f[j];
            assert(!doomed(gaps, s, f, j));
            assert(s2[j] == GapState::Closed && !f2[j]);
        }
    }
}

/// A blocked gap whose dependencies are all closed with a successful last
/// attempt (earlier failed attempts, retried, do not count) is promoted to
/// ready, and propagation records nothing against it.
pub proof fn law_succeeded_dependencies_promote(b: BoardView, i: int)
    requires
        b.wf(),
        0 <= i < b.gaps.len(),
        b.states[i] == GapState::Blocked,
        forall|k: int|
            0 <= k < b.gaps[i].dependencies@.len() ==> exists|j: int|
                0 <= j < b.gaps.len() && (#[trigger] b.gaps[j]).name@ == (#[trigger] b.gaps[i].dependencies@[k])@
                    && b.states[j] == GapState::Closed && b.evidence[j].len() > 0
                    && b.evidence[j].last().status is Success,
    ensures
        after_promotion(b)[i] == GapState::Ready,
        forall|ev: Seq<Seq<Evidence>>| #[trigger] propagation_records(b, ev) ==> ev[i] == b.evidence[i],
{
    let fl = failure_flags(b.evidence);
    assert forall|k: int| 0 <= k < b.gaps[i].dependencies@.len() implies dep_succeeded(
        b.gaps,
        b.states,
        fl,
        (#[trigger] b.gaps[i].dependencies@[k])@,
    ) by {
        let j = choose|j: int|
            0 <= j < b.gaps.len() && (#[trigger] b.gaps[j]).name@ == b.gaps[i].dependencies@[k]@
                && b.states[j] == GapState::Closed && b.evidence[j].len() > 0
                && b.evidence[j].last().status is Success;
        assert(!fl[j]);
    }
    lemma_stays_blocked(b.gaps, b.states, fl, i, b.states.len());
    lemma_rounds(b.gaps, b.states, fl, b.states.len());
}

/// A blocked gap with a dependency closed on a failed last attempt is closed
/// by propagation and never made ready.
pub proof fn law_last_failure_dooms_dependent(b: BoardView, i: int, k: int, j: int)
    requires
        b.wf(),
        b.states.len() <= usize::MAX,
        0 <= i < b.gaps.len(),
        b.states[i] == GapState::Blocked,
        0 <= k < b.gaps[i].dependencies@.len(),
        0 <= j < b.gaps.len(),
        b.gaps[j].name@ == b.gaps[i].dependencies@[k]@,
        b.states[j] == GapState::Closed,
        b.evidence[j].len() > 0,
        b.evidence[j].last().status is Failure,
    ensures
        after_promotion(b)[i] == GapState::Closed,
        !ready_ids(after_promotion(b), b.states.len() as int).contains(i as usize),
{
    let fl = failure_flags(b.evidence);
    assert(fl[j]);
    assert(dep_failed(b.gaps, b.states, fl, b.gaps[i].dependencies@[k]@));
    law_failed_dependency_closes_dependent(b, i, k);
}

// ---------------------------------------------------------------------------
// Laws of scheduling
// ---------------------------------------------------------------------------

/// Promotion changes only blocked gaps whose dependencies all closed without
/// failing, and only to ready; draining changes only ready gaps, and only to
/// assigned. So scheduling never reopens a closed gap.
pub proof fn law_scheduling_moves_forward(gaps: Seq<Gap>, states: Seq<GapState>, failed: Seq<bool>)
    ensures
        forall|i: int|
            0 <= i < states.len() && #[trigger] promoted(gaps, states, failed)[i] != states[i] ==> {
                &&& states[i] == GapState::Blocked
                &&& promoted(gaps, states, failed)[i] == GapState::Ready
                &&& deps_succeeded(gaps, states, failed, i)
            },
        forall|i: int|
            0 <= i < states.len() && #[trigger] drained(states)[i] != states[i] ==> {
                &&& states[i] == GapState::Ready
                &&& drained(states)[i] == GapState::Assigned
            },
        forall|i: int|
            0 <= i < states.len() && states[i] == GapState::Closed ==> #[trigger] drained(
                promoted(gaps, states, failed),
            )[i] == GapState::Closed,
{
}

proof fn lemma_ready_ids(states: Seq<GapState>, n: int)
    requires
        0 <= n <= states.len(),
        states.len() <= usize::MAX,
    ensures
        forall|i: int| 0 <= i < n ==> (ready_ids(states, n).contains(i as usize) <==> states[i]
            == GapState::Ready),
        forall|k: int| 0 <= k < ready_ids(states, n).len() ==> ready_ids(states, n)[k] < n,
    decreases n,
{
    if n > 0 {
        lemma_ready_ids(states, n - 1);
        let prev = ready_ids(states, n - 1);
        assert forall|i: int| 0 <= i < n implies (ready_ids(states, n).contains(i as usize)
            <==> states[i] == GapState::Ready) by {
            if states[n - 1] == GapState::Ready {
                assert(ready_ids(states, n) == prev.push((n - 1) as usize));
                if i < n - 1 && ready_ids(states, n).contains(i as usize) {
                    let k = choose|k: int| 0 <= k < ready_ids(states, n).len() && ready_ids(states, n)[k] == i as usize;
                    if k < prev.len() {
                        assert(prev[k] == i as usize);
                    }
                }
                if i < n - 1 && prev.contains(i as usize) {
                    let k = choose|k: int| 0 <= k < prev.len() && prev[k] == i as usize;
                    assert(ready_ids(states, n)[k] == i as usize);
                }
                if i == n - 1 {
                    assert(ready_ids(states, n)[prev.len() as int] == i as usize);
                }
            } else {
                assert(ready_ids(states, n) == prev);
                if i == n - 1 && prev.contains(i as usize) {
                    let k = choose|k: int| 0 <= k < prev.len() && prev[k] == i as usize;
                    assert(prev[k] < n - 1);
                }
            }
        }
    }
}

/// After draining no gap is ready, and the ids handed out are exactly the
/// gaps that were ready.
pub proof fn law_drain_takes_every_ready_gap(states: Seq<GapState>)
    requires
        states.len() <= usize::MAX,
    ensures
        forall|i: int| 0 <= i < states.len() ==> #[trigger] drained(states)[i] != GapState::Ready,
        forall|i: int|
            0 <= i < states.len() ==> (ready_ids(states, states.len() as int).contains(i as usize)
                <==> #[trigger] states[i] == GapState::Ready),
{
    lemma_ready_ids(states, states.len() as int);
}

} // verus!
