//! The decisions of the orchestrator: how a plan is laid on the board, how
//! each gap task proceeds from scan verdict to execution and closure, when the
//! execution loop stops, how a model reply is unwrapped, and prompt rendering.
//! Waiting on models, humans and processes is left to the caller, which feeds
//! each outcome back into these functions.
use vstd::prelude::*;

use super::artifact_guard::{ScanVerdict, VerdictView};
use super::blackboard::{
    after_promotion, all_closed_spec, dep_failed, first_failed_dep, round_failed, rounds, dep_succeeded, deps_succeeded, doomed,
    drained_up_to, failure_flags, first_n, has_name, initial_state, law_propagation_complete,
    lemma_first_failed_dep, law_drain_takes_every_ready_gap, lemma_rounds, propagation_records, settled, ready_ids, BoardError, BoardView,
    Blackboard, Evidence, EvidenceContent, EvidenceStatus, Gap, GapId, GapState,
};
use crate::text::{
    chars_of, in_set, lemma_trim_idempotent, lemma_trim_start_concat, string_of, strip_prefixes,
    strip_prefixes_chars, strip_suffixes, strip_suffixes_chars, trim, trim_chars, trim_end_set,
    trim_set, trim_start_set, TrimSet,
};

verus! {

/// After this many recorded attempts a gap is force-closed.
pub const MAX_RETRIES: usize = 3;

/// At most this many gap tasks run at once.
pub const MAX_PARALLEL: usize = 4;

/// Errors of the orchestrator.
#[derive(Debug)]
pub enum MossError {
    /// A board operation failed.
    Board(BoardError),
    /// A blackboard or template failure, with its message.
    Blackboard(String),
    /// Gaps remain open but nothing is running that could close them.
    Deadlock,
}

// ---------------------------------------------------------------------------
// Laying a plan on the board
// ---------------------------------------------------------------------------

/// The model's plan for a query.
#[derive(Debug)]
pub struct Decomposition {
    /// The current (possibly refined) goal.
    pub intent: Option<String>,
    /// Whether the query continues the current board.
    pub is_follow_up: bool,
    /// The new gaps.
    pub gaps: Option<Vec<Gap>>,
}

/// The gaps of a plan, in order.
pub open spec fn planned_gaps(d: Decomposition) -> Seq<Gap> {
    match d.gaps {
        Some(v) => v@,
        None => seq![],
    }
}

/// Gap `i` of `specs` takes a name already on `base` or used by an earlier gap.
pub open spec fn clashes(base: Seq<Gap>, specs: Seq<Gap>, i: int) -> bool {
    has_name(base, specs[i].name@) || has_name(specs.take(i), specs[i].name@)
}

/// The first planned gap, at or after `k`, whose name clashes.
pub open spec fn first_clash_from(base: Seq<Gap>, specs: Seq<Gap>, k: int) -> Option<int>
    decreases specs.len() - k,
{
    if k < 0 || k >= specs.len() {
        None
    } else if clashes(base, specs, k) {
        Some(k)
    } else {
        first_clash_from(base, specs, k + 1)
    }
}

/// The board a plan starts from: the current one for a follow-up, else an empty one.
pub open spec fn base_view(old: BoardView, follow_up: bool) -> BoardView {
    if follow_up {
        old
    } else {
        BoardView { gaps: seq![], states: seq![], evidence: seq![], intent: None }
    }
}

/// The board after the first `m` planned gaps were added to `base` and the
/// plan's intent, if any, set.
pub open spec fn planned_view(base: BoardView, d: Decomposition, m: int) -> BoardView {
    let added = planned_gaps(d).take(m);
    BoardView {
        gaps: base.gaps + added,
        states: base.states + added.map_values(|g: Gap| initial_state(g)),
        evidence: base.evidence + Seq::new(m as nat, |i: int| Seq::<Evidence>::empty()),
        intent: if d.intent is Some {
            d.intent
        } else {
            base.intent
        },
    }
}

/// Lays a plan on the board: an unrelated query starts a fresh board, the
/// plan's intent replaces the board's, and the planned gaps are added in
/// order. A gap whose name is taken stops the insertion with an error; the
/// gaps before it stay on the board.
pub fn apply_decomposition(board: &mut Blackboard, d: Decomposition) -> (r: Result<(), MossError>)
    ensures
        ({
            let base = base_view(old(board)@, d.is_follow_up);
            let specs = planned_gaps(d);
            let k = first_clash_from(base.gaps, specs, 0);
            &&& (r is Err <==> k is Some)
            &&& r matches Err(e) ==> e == MossError::Board(
                BoardError::DuplicateGap(specs[k->0].name),
            )
            &&& final(board)@ == planned_view(
                base,
                d,
                if k is Some {
                    k->0
                } else {
                    specs.len() as int
                },
            )
        }),
{
    proof {
        use_type_invariant(&*board);
    }
    let ghost old_view = board@;
    if !d.is_follow_up {
        *board = Blackboard::new();
    }
    let ghost base = base_view(old_view, d.is_follow_up);
    proof {
        assert(board@.gaps =~= base.gaps);
        assert(board@.states =~= base.states);
        assert(board@.evidence =~= base.evidence);
    }
    let ghost specs = planned_gaps(d);
    match d.intent {
        Some(intent) => {
            board.set_intent(intent);
        },
        None => {},
    }
    let mut pending: Vec<Gap> = match d.gaps {
        Some(v) => v,
        None => Vec::new(),
    };
    let mut i: usize = 0;
    proof {
        assert(pending@ =~= specs.skip(0));
        assert(specs.len() == pending.len());
        assert(board@ =~= planned_view(base, d, 0)) by {
            assert(specs.take(0) =~= Seq::<Gap>::empty());
            assert(base.gaps + specs.take(0) =~= base.gaps);
            assert(base.states + specs.take(0).map_values(|g: Gap| initial_state(g)) =~= base.states);
            assert(base.evidence + Seq::new(0, |i: int| Seq::<Evidence>::empty()) =~= base.evidence);
        }
    }
    while pending.len() > 0
        invariant
            board@.wf(),
            i <= specs.len(),
            pending@ == specs.skip(i as int),
            board@ == planned_view(base, d, i as int),
            first_clash_from(base.gaps, specs, 0) == first_clash_from(base.gaps, specs, i as int),
            specs == planned_gaps(d),
            specs.len() <= usize::MAX,
            base == base_view(old(board)@, d.is_follow_up),
        decreases pending.len(),
    {
        let gap = pending.remove(0);
        let ghost before = board@;
        proof {
            assert(gap == specs[i as int]);
            assert(specs.skip(i as int).skip(1) =~= specs.skip(i + 1));
            assert(before.gaps =~= base.gaps + specs.take(i as int));
            assert(has_name(before.gaps, gap.name@) == clashes(base.gaps, specs, i as int)) by {
                let taken = specs.take(i as int);
                if has_name(base.gaps, gap.name@) {
                    let j = choose|j: int| 0 <= j < base.gaps.len() && (#[trigger] base.gaps[j]).name@ == gap.name@;
                    assert(before.gaps[j] == base.gaps[j]);
                }
                if has_name(taken, gap.name@) {
                    let j = choose|j: int| 0 <= j < taken.len() && (#[trigger] taken[j]).name@ == gap.name@;
                    assert(before.gaps[base.gaps.len() + j] == taken[j]);
                }
                if has_name(before.gaps, gap.name@) {
                    let j = choose|j: int| 0 <= j < before.gaps.len() && (#[trigger] before.gaps[j]).name@ == gap.name@;
                    if j < base.gaps.len() {
                        assert(base.gaps[j] == before.gaps[j]);
                    } else {
                        assert(taken[j - base.gaps.len()] == before.gaps[j]);
                    }
                }
            }
        }
        match board.insert_gap(gap) {
            Ok(_) => {
                proof {
                    use_type_invariant(&*board);
                }
            },
            Err(e) => {
                proof {
                    assert(clashes(base.gaps, specs, i as int));
                    assert(first_clash_from(base.gaps, specs, i as int) == Some(i as int));
                }
                return Err(MossError::Board(e));
            },
        }
        proof {
            let added = specs.take(i + 1);
            assert(added =~= specs.take(i as int).push(specs[i as int]));
            assert(board@.gaps =~= base.gaps + added);
            assert(added.map_values(|g: Gap| initial_state(g)) =~= specs.take(i as int).map_values(
                |g: Gap| initial_state(g),
            ).push(initial_state(specs[i as int])));
            assert(board@.states =~= base.states + added.map_values(|g: Gap| initial_state(g)));
            assert(board@.evidence =~= base.evidence + Seq::new(
                (i + 1) as nat,
                |i: int| Seq::<Evidence>::empty(),
            ));
        }
        i += 1;
    }
    proof {
        assert(specs.skip(i as int).len() == 0);
        assert(i == specs.len());
    }
    Ok(())
}

// ---------------------------------------------------------------------------
// One gap task
// ---------------------------------------------------------------------------

/// How a dispatched gap proceeds.
#[derive(Debug)]
pub enum Dispatch {
    /// It has used up its attempts and was closed.
    ForceClosed,
    /// It is compiled, told the reasons of its earlier failures.
    Compile { prior_failures: Vec<String> },
}

/// The reasons of the failed attempts, in order.
pub open spec fn failure_reasons(evs: Seq<Evidence>) -> Seq<Seq<char>>
    decreases evs.len(),
{
    if evs.len() == 0 {
        seq![]
    } else {
        failure_reasons(evs.drop_last()) + match evs.last().status {
            EvidenceStatus::Failure { reason } => seq![reason@],
            _ => seq![],
        }
    }
}

/// The failure reasons a compile is told of accumulate over the attempts: none
/// before any attempt; a failed attempt adds its reason after all earlier
/// ones; an attempt that did not fail adds nothing.
pub proof fn law_failure_reasons_accumulate(evs: Seq<Evidence>, ev: Evidence)
    ensures
        failure_reasons(Seq::<Evidence>::empty()) == Seq::<Seq<char>>::empty(),
        ev.status matches EvidenceStatus::Failure { reason } ==> failure_reasons(evs.push(ev))
            == failure_reasons(evs).push(reason@),
        !(ev.status is Failure) ==> failure_reasons(evs.push(ev)) == failure_reasons(evs),
{
    assert(evs.push(ev).drop_last() =~= evs);
    if ev.status is Failure {
        assert(failure_reasons(evs).push(ev.status->reason@) =~= failure_reasons(evs) + seq![ev.status->reason@]);
    } else {
        assert(failure_reasons(evs) + Seq::<Seq<char>>::empty() =~= failure_reasons(evs));
    }
}

/// A gap gets three attempts: it is force-closed once three are recorded.
pub proof fn law_retry_budget()
    ensures
        MAX_RETRIES == 3,
{
}

/// The texts of a list of strings.
pub open spec fn texts(v: Seq<String>) -> Seq<Seq<char>> {
    v.map_values(|s: String| s@)
}

fn clone_string(s: &String) -> (r: String)
    ensures
        r@ == s@,
{
    s.clone()
}

/// Starts an attempt at a dispatched gap: a gap with `MAX_RETRIES` attempts
/// recorded is closed; otherwise it is to be compiled, with the reasons of
/// its failed attempts.
pub fn begin_attempt(board: &mut Blackboard, id: GapId) -> (d: Dispatch)
    requires
        id < old(board)@.gaps.len(),
    ensures
        final(board)@.same_but_states(old(board)@),
        old(board)@.evidence[id as int].len() >= MAX_RETRIES ==> {
            &&& d is ForceClosed
            &&& final(board)@.states == old(board)@.states.update(id as int, GapState::Closed)
        },
        old(board)@.evidence[id as int].len() < MAX_RETRIES ==> {
            &&& d matches Dispatch::Compile { prior_failures }
            &&& texts(prior_failures@) == failure_reasons(old(board)@.evidence[id as int])
            &&& final(board)@.states == old(board)@.states
        },
{
    proof {
        use_type_invariant(&*board);
    }
    let evs = board.get_evidence(id);
    if evs.len() >= MAX_RETRIES {
        let _ = board.set_gap_state(id, GapState::Closed);
        return Dispatch::ForceClosed;
    }
    let mut prior: Vec<String> = Vec::new();
    for i in 0..evs.len()
        invariant
            texts(prior@) == failure_reasons(evs@.take(i as int)),
    {
        proof {
            assert(evs@.take(i + 1).drop_last() =~= evs@.take(i as int));
            assert(evs@.take(i + 1).last() == evs@[i as int]);
        }
        match &evs[i].status {
            EvidenceStatus::Failure { reason } => {
                prior.push(clone_string(reason));
                proof {
                    assert(texts(prior@) =~= failure_reasons(evs@.take(i as int)) + seq![reason@]);
                }
            },
            _ => {
                proof {
                    assert(failure_reasons(evs@.take(i + 1)) =~= failure_reasons(evs@.take(i as int))
                        + Seq::<Seq<char>>::empty());
                }
            },
        }
    }
    proof {
        assert(evs@.take(evs.len() as int) =~= evs@);
    }
    Dispatch::Compile { prior_failures: prior }
}

/// What follows a scan.
#[derive(Debug)]
pub enum AfterScan {
    /// The artifact is run.
    Execute,
    /// The gap was closed with a failure.
    Closed,
    /// The gap waits for a human to approve, for this reason.
    AwaitApproval { reason: String },
}

/// The board after a failed attempt was recorded against gap `id` and the gap closed.
pub open spec fn closed_with_failure(
    old: BoardView,
    new: BoardView,
    id: int,
    content: EvidenceContent,
    reason: Seq<char>,
) -> bool {
    let evs = old.evidence[id];
    let ev = new.evidence[id].last();
    &&& new.gaps == old.gaps
    &&& new.intent == old.intent
    &&& new.states == old.states.update(id, GapState::Closed)
    &&& new.evidence.len() == old.evidence.len()
    &&& forall|j: int| 0 <= j < old.evidence.len() && j != id ==> new.evidence[j] == old.evidence[j]
    &&& new.evidence[id].len() == evs.len() + 1
    &&& new.evidence[id].drop_last() == evs
    &&& ev.gap_id == id
    &&& ev.attempt == evs.len() + 1
    &&& ev.content == content
    &&& ev.status matches EvidenceStatus::Failure { reason: r } && r@ == reason
}

fn record_failure(board: &mut Blackboard, id: GapId, content: EvidenceContent, reason: String)
    requires
        id < old(board)@.gaps.len(),
        old(board)@.evidence[id as int].len() < u32::MAX,
    ensures
        closed_with_failure(old(board)@, final(board)@, id as int, content, reason@),
{
    proof {
        use_type_invariant(&*board);
    }
    let attempt = board.get_evidence(id).len() as u32 + 1;
    let ghost reason_view = reason@;
    board.append_evidence(
        Evidence { gap_id: id, attempt, content, status: EvidenceStatus::Failure { reason } },
    );
    let _ = board.set_gap_state(id, GapState::Closed);
    proof {
        assert(board@.evidence[id as int].drop_last() =~= old(board)@.evidence[id as int]);
    }
}

/// Acts on a scan verdict. Approval leads to execution; rejection closes the
/// gap with a failure naming the reason; gating puts the gap in `Gated` to
/// wait for a human.
pub fn after_scan(board: &mut Blackboard, id: GapId, verdict: ScanVerdict) -> (a: AfterScan)
    requires
        id < old(board)@.gaps.len(),
        old(board)@.evidence[id as int].len() < u32::MAX,
    ensures
        match verdict@ {
            VerdictView::Approved => (a is Execute) && final(board)@ == old(board)@,
            VerdictView::Rejected(reason) => (a is Closed) && closed_with_failure(
                old(board)@,
                final(board)@,
                id as int,
                EvidenceContent::GuardRejected(verdict->Rejected_reason),
                reason,
            ),
            VerdictView::Gated(reason) => {
                &&& a matches AfterScan::AwaitApproval { reason: r }
                &&& a->reason@ == reason
                &&& final(board)@.same_but_states(old(board)@)
                &&& final(board)@.states == old(board)@.states.update(id as int, GapState::Gated)
            },
        },
{
    proof {
        use_type_invariant(&*board);
    }
    match verdict {
        ScanVerdict::Approved => AfterScan::Execute,
        ScanVerdict::Rejected { reason } => {
            let r2 = clone_string(&reason);
            record_failure(board, id, EvidenceContent::GuardRejected(reason), r2);
            AfterScan::Closed
        },
        ScanVerdict::Gated { reason } => {
            let _ = board.set_gap_state(id, GapState::Gated);
            AfterScan::AwaitApproval { reason }
        },
    }
}

/// What follows a human's answer to a gate.
#[derive(Debug)]
pub enum AfterApproval {
    /// Approved: the gap is assigned again and the artifact run.
    Execute,
    /// Denied: the gap was closed with a failure.
    Closed,
}

/// Acts on a human's answer for a gap gated for `reason`.
pub fn after_approval(board: &mut Blackboard, id: GapId, reason: String, approved: bool) -> (a:
    AfterApproval)
    requires
        id < old(board)@.gaps.len(),
        old(board)@.evidence[id as int].len() < u32::MAX,
    ensures
        approved ==> {
            &&& a is Execute
            &&& final(board)@.same_but_states(old(board)@)
            &&& final(board)@.states == old(board)@.states.update(id as int, GapState::Assigned)
        },
        !approved ==> (a is Closed) && closed_with_failure(
            old(board)@,
            final(board)@,
            id as int,
            EvidenceContent::GuardDenied(reason),
            reason@,
        ),
{
    proof {
        use_type_invariant(&*board);
    }
    if approved {
        let _ = board.set_gap_state(id, GapState::Assigned);
        AfterApproval::Execute
    } else {
        let r2 = clone_string(&reason);
        record_failure(board, id, EvidenceContent::GuardDenied(reason), r2);
        AfterApproval::Closed
    }
}

/// The last attempt of a gap succeeded.
pub open spec fn last_succeeded(evs: Seq<Evidence>) -> bool {
    evs.len() > 0 && evs.last().status is Success
}

/// After the artifact ran (and recorded its evidence): a gap whose last
/// attempt succeeded is closed, any other goes back to `Ready` for a retry.
pub fn after_execution(board: &mut Blackboard, id: GapId) -> (s: GapState)
    requires
        id < old(board)@.gaps.len(),
    ensures
        final(board)@.same_but_states(old(board)@),
        s == (if last_succeeded(old(board)@.evidence[id as int]) {
            GapState::Closed
        } else {
            GapState::Ready
        }),
        final(board)@.states == old(board)@.states.update(id as int, s),
{
    proof {
        use_type_invariant(&*board);
    }
    let evs = board.get_evidence(id);
    let success = evs.len() > 0 && match evs[evs.len() - 1].status {
        EvidenceStatus::Success => true,
        _ => false,
    };
    let s = if success {
        GapState::Closed
    } else {
        GapState::Ready
    };
    let _ = board.set_gap_state(id, s);
    s
}

// ---------------------------------------------------------------------------
// The execution loop
// ---------------------------------------------------------------------------

/// How many more gap tasks may start while `running` are running.
pub open spec fn free_slots(running: int) -> int {
    if running < MAX_PARALLEL {
        MAX_PARALLEL - running
    } else {
        0
    }
}

/// One scheduling round: failure propagates to the gaps blocked on a failed
/// dependency, unblocked gaps are promoted, and ready gaps are dispatched,
/// lowest ids first, as far as the fan-out limit leaves room beside the
/// `running` tasks; the other ready gaps stay ready.
pub fn schedule(board: &mut Blackboard, running: usize) -> (ids: Vec<GapId>)
    ensures
        final(board)@.gaps == old(board)@.gaps,
        final(board)@.intent == old(board)@.intent,
        propagation_records(old(board)@, final(board)@.evidence),
        final(board)@.states == drained_up_to(
            after_promotion(old(board)@),
            free_slots(running as int),
        ),
        ids@ == first_n(
            ready_ids(after_promotion(old(board)@), old(board)@.states.len() as int),
            free_slots(running as int),
        ),
{
    proof {
        use_type_invariant(&*board);
    }
    proof {
        lemma_rounds(board@.gaps, board@.states, failure_flags(board@.evidence), board@.states.len());
    }
    board.promote_unblocked();
    let slots = if running < MAX_PARALLEL {
        MAX_PARALLEL - running
    } else {
        0
    };
    board.drain_ready_up_to(slots)
}

/// A scheduling round fills the free slots: with fewer than 4 tasks running
/// it dispatches as many ready gaps as there are, up to 4 less the running
/// ones, so every ready gap is dispatched when they all fit; with 4 or more
/// running it dispatches none.
pub proof fn law_schedule_fills_free_slots(b: BoardView, running: int)
    requires
        b.wf(),
        b.states.len() <= usize::MAX,
        0 <= running,
    ensures
        ({
            let p = after_promotion(b);
            let all = ready_ids(p, b.states.len() as int);
            let ids = first_n(all, free_slots(running));
            &&& running < 4 ==> ids.len() == (if all.len() <= 4 - running {
                all.len() as int
            } else {
                4 - running
            })
            &&& running >= 4 ==> ids.len() == 0
            &&& running < 4 && all.len() + running <= 4 ==> forall|i: int|
                0 <= i < b.states.len() && #[trigger] p[i] == GapState::Ready ==> ids.contains(i as usize)
        }),
{
    let fl = failure_flags(b.evidence);
    lemma_rounds(b.gaps, b.states, fl, b.states.len());
    let p = after_promotion(b);
    law_drain_takes_every_ready_gap(p);
}

/// What the loop does next.
#[derive(Debug, PartialEq, Eq)]
pub enum LoopStep {
    /// Wait for one running task to finish, then schedule again.
    AwaitTask,
    /// Every gap is closed.
    Finished,
}

/// The loop's next step given how many tasks are running: with none running
/// it is finished when every gap is closed and deadlocked otherwise.
pub fn loop_step(board: &Blackboard, running: usize) -> (r: Result<LoopStep, MossError>)
    ensures
        running > 0 ==> r == Ok::<LoopStep, MossError>(LoopStep::AwaitTask),
        running == 0 && all_closed_spec(board@.states) ==> r == Ok::<LoopStep, MossError>(
            LoopStep::Finished,
        ),
        running == 0 && !all_closed_spec(board@.states) ==> r matches Err(MossError::Deadlock),
{
    proof {
        use_type_invariant(&*board);
    }
    if running > 0 {
        Ok(LoopStep::AwaitTask)
    } else if board.all_closed() {
        Ok(LoopStep::Finished)
    } else {
        Err(MossError::Deadlock)
    }
}

/// A scheduling round hands out only gaps that are ready once failure has
/// propagated and unblocked gaps are promoted, never more than the fan-out
/// limit leaves room for, and never a gap that was closed.
pub proof fn law_closed_gaps_never_dispatched(b: BoardView, running: int)
    requires
        b.wf(),
        b.states.len() <= usize::MAX,
    ensures
        ({
            let p = after_promotion(b);
            let ids = first_n(ready_ids(p, b.states.len() as int), free_slots(running));
            &&& ids.len() <= free_slots(running)
            &&& forall|i: int| 0 <= i < b.states.len() && ids.contains(i as usize) ==> #[trigger] p[i] == GapState::Ready
            &&& forall|i: int|
                0 <= i < b.states.len() && #[trigger] b.states[i] == GapState::Closed ==> !ids.contains(
                    i as usize,
                )
        }),
{
    let (s, f) = settled(b.gaps, b.states, failure_flags(b.evidence));
    lemma_rounds(b.gaps, b.states, failure_flags(b.evidence), b.states.len());
    let p = after_promotion(b);
    assert(p.len() == b.states.len());
    law_drain_takes_every_ready_gap(p);
    let all = ready_ids(p, b.states.len() as int);
    let ids = first_n(all, free_slots(running));
    assert forall|i: int| 0 <= i < b.states.len() && ids.contains(i as usize) implies #[trigger] p[i]
        == GapState::Ready by {
        let k = choose|k: int| 0 <= k < ids.len() && ids[k] == i as usize;
        assert(all[k] == i as usize);
        assert(all.contains(i as usize));
    }
    assert forall|i: int|
        0 <= i < b.states.len() && #[trigger] b.states[i] == GapState::Closed implies !ids.contains(
            i as usize,
        ) by {
        assert(s[i] == b.states[i]);
        assert(p[i] == GapState::Closed);
    }
}

/// The gap of this name exists and is closed.
pub open spec fn dep_closed(gaps: Seq<Gap>, states: Seq<GapState>, name: Seq<char>) -> bool {
    exists|j: int|
        0 <= j < gaps.len() && (#[trigger] gaps[j]).name@ == name && states[j] == GapState::Closed
}

/// Every dependency of gap `i` names a closed gap.
pub open spec fn deps_closed(gaps: Seq<Gap>, states: Seq<GapState>, i: int) -> bool {
    forall|k: int|
        0 <= k < gaps[i].dependencies@.len() ==> dep_closed(
            gaps,
            states,
            (#[trigger] gaps[i].dependencies@[k])@,
        )
}

/// The gap is taken up or waiting to be: ready, assigned or gated.
pub open spec fn in_play(s: GapState) -> bool {
    s == GapState::Ready || s == GapState::Assigned || s == GapState::Gated
}

/// Every gap that is ready, assigned or gated has all its dependencies
/// closed: no gap is worked on before the gaps it depends on are done.
pub open spec fn dispatch_ordered(gaps: Seq<Gap>, states: Seq<GapState>) -> bool {
    forall|i: int| 0 <= i < states.len() && #[trigger] in_play(states[i]) ==> deps_closed(gaps, states, i)
}

/// A closed gap stays closed from `s` to `s2`, and a gap that comes into
/// play in `s2` either was in play in `s` or has its dependencies closed in `s2`.
proof fn lemma_ordered_step(gaps: Seq<Gap>, s: Seq<GapState>, s2: Seq<GapState>)
    requires
        s.len() == gaps.len(),
        s2.len() == gaps.len(),
        dispatch_ordered(gaps, s),
        forall|j: int| 0 <= j < s.len() && s[j] == GapState::Closed ==> #[trigger] s2[j] == GapState::Closed,
        forall|i: int|
            0 <= i < s.len() && #[trigger] in_play(s2[i]) ==> in_play(s[i]) || deps_closed(gaps, s2, i),
    ensures
        dispatch_ordered(gaps, s2),
{
    assert forall|i: int| 0 <= i < s2.len() && #[trigger] in_play(s2[i]) implies deps_closed(gaps, s2, i) by {
        if !deps_closed(gaps, s2, i) {
            assert(in_play(s[i]));
            assert forall|k: int| 0 <= k < gaps[i].dependencies@.len() implies dep_closed(
                gaps,
                s2,
                (#[trigger] gaps[i].dependencies@[k])@,
            ) by {
                assert(dep_closed(gaps, s, gaps[i].dependencies@[k]@));
                let j = choose|j: int|
                    0 <= j < gaps.len() && (#[trigger] gaps[j]).name@ == gaps[i].dependencies@[k]@
                        && s[j] == GapState::Closed;
                assert(s2[j] == GapState::Closed);
            }
        }
    }
}

/// Adding a gap keeps every gap in play behind its closed dependencies: the
/// new gap starts ready only when it has none.
pub proof fn law_insert_keeps_dispatch_order(gaps: Seq<Gap>, states: Seq<GapState>, g: Gap)
    requires
        states.len() == gaps.len(),
        dispatch_ordered(gaps, states),
    ensures
        dispatch_ordered(gaps.push(g), states.push(initial_state(g))),
{
    let g2 = gaps.push(g);
    let s2 = states.push(initial_state(g));
    assert forall|i: int| 0 <= i < s2.len() && #[trigger] in_play(s2[i]) implies deps_closed(g2, s2, i) by {
        if i < states.len() {
            assert(in_play(states[i]));
            assert forall|k: int| 0 <= k < g2[i].dependencies@.len() implies dep_closed(
                g2,
                s2,
                (#[trigger] g2[i].dependencies@[k])@,
            ) by {
                assert(g2[i] == gaps[i]);
                assert(dep_closed(gaps, states, gaps[i].dependencies@[k]@));
                let j = choose|j: int|
                    0 <= j < gaps.len() && (#[trigger] gaps[j]).name@ == gaps[i].dependencies@[k]@
                        && states[j] == GapState::Closed;
                assert(g2[j] == gaps[j]);
            }
        }
    }
}

/// A step of a gap task (closing it, gating it, assigning it again or sending
/// it back to ready for a retry) keeps every gap in play behind its closed
/// dependencies.
pub proof fn law_task_step_keeps_dispatch_order(
    gaps: Seq<Gap>,
    states: Seq<GapState>,
    id: int,
    next: GapState,
)
    requires
        states.len() == gaps.len(),
        dispatch_ordered(gaps, states),
        0 <= id < states.len(),
        in_play(states[id]),
        next != GapState::Blocked,
    ensures
        dispatch_ordered(gaps, states.update(id, next)),
{
    let s2 = states.update(id, next);
    assert forall|i: int| 0 <= i < states.len() && #[trigger] in_play(s2[i]) implies in_play(states[i])
        || deps_closed(gaps, s2, i) by {}
    lemma_ordered_step(gaps, states, s2);
}

/// A scheduling round keeps every gap in play behind its closed
/// dependencies; in particular each gap it dispatches has all its
/// dependencies closed.
pub proof fn law_schedule_keeps_dispatch_order(b: BoardView, running: int)
    requires
        b.wf(),
        b.states.len() <= usize::MAX,
        dispatch_ordered(b.gaps, b.states),
    ensures
        ({
            let p = after_promotion(b);
            let s2 = drained_up_to(p, free_slots(running));
            let ids = first_n(ready_ids(p, b.states.len() as int), free_slots(running));
            &&& dispatch_ordered(b.gaps, s2)
            &&& forall|i: int| 0 <= i < b.states.len() && ids.contains(i as usize) ==> #[trigger] deps_closed(b.gaps, s2, i)
        }),
{
    let fl = failure_flags(b.evidence);
    let (s, f) = settled(b.gaps, b.states, fl);
    lemma_rounds(b.gaps, b.states, fl, b.states.len());
    let p = after_promotion(b);
    let limit = free_slots(running);
    let s2 = drained_up_to(p, limit);
    assert forall|i: int| 0 <= i < b.states.len() && #[trigger] in_play(s2[i]) implies in_play(b.states[i])
        || deps_closed(b.gaps, s2, i) by {
        if !in_play(b.states[i]) {
            assert(in_play(p[i]));
            assert(s[i] == b.states[i] || s[i] == GapState::Closed);
            assert(p[i] == GapState::Ready && deps_succeeded(b.gaps, s, f, i));
            assert forall|k: int| 0 <= k < b.gaps[i].dependencies@.len() implies dep_closed(
                b.gaps,
                s2,
                (#[trigger] b.gaps[i].dependencies@[k])@,
            ) by {
                assert(dep_succeeded(b.gaps, s, f, b.gaps[i].dependencies@[k]@));
                let j = choose|j: int|
                    0 <= j < b.gaps.len() && (#[trigger] b.gaps[j]).name@ == b.gaps[i].dependencies@[k]@
                        && s[j] == GapState::Closed && !f[j];
                assert(p[j] == GapState::Closed);
                assert(s2[j] == GapState::Closed);
            }
        }
    }
    assert forall|j: int| 0 <= j < b.states.len() && b.states[j] == GapState::Closed implies #[trigger] s2[j]
        == GapState::Closed by {
        assert(s[j] == b.states[j]);
    }
    lemma_ordered_step(b.gaps, b.states, s2);
    law_closed_gaps_never_dispatched(b, running);
    let ids = first_n(ready_ids(p, b.states.len() as int), limit);
    assert forall|i: int| 0 <= i < b.states.len() && ids.contains(i as usize) implies #[trigger] deps_closed(
        b.gaps,
        s2,
        i,
    ) by {
        assert(p[i] == GapState::Ready);
        assert(in_play(s2[i]));
    }
}

/// When no task is running and no gap is assigned or gated, a scheduling
/// round either dispatches some gap, or leaves the board unchanged but for
/// propagated failures; then the loop finishes when every gap is closed, and
/// otherwise every gap left open is blocked on a dependency that is not
/// closed or names no gap on the board (a deadlock).
pub proof fn law_idle_loop_ends(b: BoardView)
    requires
        b.wf(),
        b.states.len() <= usize::MAX,
        forall|i: int|
            0 <= i < b.states.len() ==> #[trigger] b.states[i] != GapState::Assigned && b.states[i]
                != GapState::Gated,
    ensures
        ({
            let p = after_promotion(b);
            let ids = first_n(ready_ids(p, b.states.len() as int), free_slots(0));
            ids.len() == 0 ==> {
                &&& drained_up_to(p, free_slots(0)) == p
                &&& forall|i: int|
                    0 <= i < b.states.len() && #[trigger] p[i] != GapState::Closed ==> {
                        &&& p[i] == GapState::Blocked
                        &&& exists|k: int|
                            0 <= k < b.gaps[i].dependencies@.len() && !dep_closed(
                                b.gaps,
                                p,
                                (#[trigger] b.gaps[i].dependencies@[k])@,
                            )
                    }
            }
        }),
{
    let fl = failure_flags(b.evidence);
    let (s, f) = settled(b.gaps, b.states, fl);
    lemma_rounds(b.gaps, b.states, fl, b.states.len());
    law_propagation_complete(b.gaps, b.states, fl);
    let p = after_promotion(b);
    let n = b.states.len() as int;
    law_drain_takes_every_ready_gap(p);
    let all = ready_ids(p, n);
    let ids = first_n(all, free_slots(0));
    if ids.len() == 0 {
        assert(all.len() == 0);
        assert forall|i: int| 0 <= i < n implies p[i] != GapState::Ready by {
            if p[i] == GapState::Ready {
                assert(all.contains(i as usize));
                assert(all[0] == all[0]);
            }
        }
        assert(drained_up_to(p, free_slots(0)) =~= p);
        assert forall|i: int| 0 <= i < n && #[trigger] p[i] != GapState::Closed implies {
            &&& p[i] == GapState::Blocked
            &&& exists|k: int|
                0 <= k < b.gaps[i].dependencies@.len() && !dep_closed(
                    b.gaps,
                    p,
                    (#[trigger] b.gaps[i].dependencies@[k])@,
                )
        } by {
            assert(s[i] == b.states[i] || s[i] == GapState::Closed);
            assert(p[i] == GapState::Blocked);
            assert(!deps_succeeded(b.gaps, s, f, i));
            let k = choose|k: int|
                0 <= k < b.gaps[i].dependencies@.len() && !dep_succeeded(
                    b.gaps,
                    s,
                    f,
                    (#[trigger] b.gaps[i].dependencies@[k])@,
                );
            let name = b.gaps[i].dependencies@[k]@;
            if dep_closed(b.gaps, p, name) {
                let j = choose|j: int|
                    0 <= j < b.gaps.len() && (#[trigger] b.gaps[j]).name@ == name && p[j]
                        == GapState::Closed;
                assert(s[j] == GapState::Closed);
                assert(f[j]);
                assert(dep_failed(b.gaps, s, f, name));
                lemma_first_failed_dep(b.gaps, s, f, i, 0);
                assert(doomed(b.gaps, s, f, i));
            }
        }
    }
}

/// Two state lists that differ only at `g`, where neither is blocked,
/// closed or ready.
pub open spec fn differ_only_in_play_at(s: Seq<GapState>, s2: Seq<GapState>, g: int) -> bool {
    &&& s.len() == s2.len()
    &&& 0 <= g < s.len()
    &&& s[g] != GapState::Blocked && s[g] != GapState::Closed && s[g] != GapState::Ready
    &&& s2[g] != GapState::Blocked && s2[g] != GapState::Closed && s2[g] != GapState::Ready
    &&& forall|j: int| 0 <= j < s.len() && j != g ==> s[j] == s2[j]
}

proof fn lemma_first_failed_dep_same(
    gaps: Seq<Gap>,
    s: Seq<GapState>,
    s2: Seq<GapState>,
    f: Seq<bool>,
    g: int,
    i: int,
    k: int,
)
    requires
        s.len() == gaps.len(),
        differ_only_in_play_at(s, s2, g),
        0 <= i < gaps.len(),
    ensures
        first_failed_dep(gaps, s, f, i, k) == first_failed_dep(gaps, s2, f, i, k),
    decreases gaps[i].dependencies@.len() - k,
{
    if 0 <= k < gaps[i].dependencies@.len() {
        let name = gaps[i].dependencies@[k]@;
        if dep_failed(gaps, s, f, name) {
            let j = choose|j: int|
                0 <= j < gaps.len() && (#[trigger] gaps[j]).name@ == name && s[j] == GapState::Closed
                    && f[j];
            assert(s2[j] == s[j]);
        }
        if dep_failed(gaps, s2, f, name) {
            let j = choose|j: int|
                0 <= j < gaps.len() && (#[trigger] gaps[j]).name@ == name && s2[j] == GapState::Closed
                    && f[j];
            assert(s2[j] == s[j]);
        }
        lemma_first_failed_dep_same(gaps, s, s2, f, g, i, k + 1);
    }
}

proof fn lemma_rounds_same(
    gaps: Seq<Gap>,
    states: Seq<GapState>,
    states2: Seq<GapState>,
    failed: Seq<bool>,
    g: int,
    k: nat,
)
    requires
        states.len() == gaps.len(),
        failed.len() == gaps.len(),
        differ_only_in_play_at(states, states2, g),
    ensures
        differ_only_in_play_at(
            rounds(gaps, states, failed, k).0,
            rounds(gaps, states2, failed, k).0,
            g,
        ),
        rounds(gaps, states, failed, k).0[g] == states[g],
        rounds(gaps, states2, failed, k).0[g] == states2[g],
        rounds(gaps, states, failed, k).1 == rounds(gaps, states2, failed, k).1,
    decreases k,
{
    lemma_rounds(gaps, states, failed, k);
    lemma_rounds(gaps, states2, failed, k);
    if k > 0 {
        lemma_rounds_same(gaps, states, states2, failed, g, (k - 1) as nat);
        let (s, f) = rounds(gaps, states, failed, (k - 1) as nat);
        let (s2, f2) = rounds(gaps, states2, failed, (k - 1) as nat);
        lemma_rounds(gaps, states, failed, (k - 1) as nat);
        assert forall|i: int| 0 <= i < s.len() implies #[trigger] doomed(gaps, s, f, i) == doomed(
            gaps,
            s2,
            f2,
            i,
        ) by {
            lemma_first_failed_dep_same(gaps, s, s2, f, g, i, 0);
        }
        assert(round_failed(gaps, s, f) =~= round_failed(gaps, s2, f2));
    }
}

/// A gap waiting for a human's approval holds back nothing but its own slot:
/// scheduling treats it exactly as a gap still running, so gaps that do not
/// depend on it are promoted and dispatched while it waits.
pub proof fn law_gated_gap_holds_back_nothing(b: BoardView, g: int, running: int)
    requires
        b.wf(),
        b.states.len() <= usize::MAX,
        0 <= g < b.states.len(),
        b.states[g] == GapState::Gated,
    ensures
        ({
            let b2 = BoardView { states: b.states.update(g, GapState::Assigned), ..b };
            &&& after_promotion(b) == after_promotion(b2).update(g, GapState::Gated)
            &&& first_n(ready_ids(after_promotion(b), b.states.len() as int), free_slots(running))
                == first_n(ready_ids(after_promotion(b2), b.states.len() as int), free_slots(running))
        }),
{
    let b2 = BoardView { states: b.states.update(g, GapState::Assigned), ..b };
    let fl = failure_flags(b.evidence);
    let n = b.states.len();
    lemma_rounds_same(b.gaps, b.states, b2.states, fl, g, n);
    let (s, f) = settled(b.gaps, b.states, fl);
    let (s2, f2) = settled(b2.gaps, b2.states, fl);
    let p = after_promotion(b);
    let p2 = after_promotion(b2);
    lemma_rounds(b.gaps, b.states, fl, n);
    assert(b2.states.len() == n);
    assert(differ_only_in_play_at(s, s2, g));
    assert(f == f2);
    assert forall|i: int| 0 <= i < n implies #[trigger] deps_succeeded(b.gaps, s, f, i)
        == deps_succeeded(b.gaps, s2, f2, i) by {
        assert forall|name: Seq<char>| #[trigger] dep_succeeded(b.gaps, s, f, name) == dep_succeeded(
            b.gaps,
            s2,
            f2,
            name,
        ) by {
            if dep_succeeded(b.gaps, s, f, name) {
                let j = choose|j: int|
                    0 <= j < b.gaps.len() && (#[trigger] b.gaps[j]).name@ == name && s[j]
                        == GapState::Closed && !f[j];
                assert(j != g);
                assert(s2[j] == s[j]);
            }
            if dep_succeeded(b.gaps, s2, f2, name) {
                let j = choose|j: int|
                    0 <= j < b.gaps.len() && (#[trigger] b.gaps[j]).name@ == name && s2[j]
                        == GapState::Closed && !f2[j];
                assert(j != g);
                assert(s2[j] == s[j]);
            }
        }
    }
    assert(p =~= p2.update(g, GapState::Gated));
    lemma_ready_ids_same(p, p2, g, n as int);
}

proof fn lemma_ready_ids_same(s: Seq<GapState>, s2: Seq<GapState>, g: int, n: int)
    requires
        s.len() == s2.len(),
        0 <= n <= s.len(),
        s[g] != GapState::Ready,
        s2[g] != GapState::Ready,
        forall|j: int| 0 <= j < s.len() && j != g ==> s[j] == s2[j],
    ensures
        ready_ids(s, n) == ready_ids(s2, n),
    decreases n,
{
    if n > 0 {
        lemma_ready_ids_same(s, s2, g, n - 1);
    }
}

// ---------------------------------------------------------------------------
// Model replies and prompts
// ---------------------------------------------------------------------------

/// A model reply with surrounding whitespace and Markdown code fences removed:
/// leading "```json" and "```" runs, then trailing "```" runs.
pub open spec fn strip_json_fences(raw: Seq<char>) -> Seq<char> {
    trim(
        strip_suffixes(
            strip_prefixes(strip_prefixes(trim(raw), "```json"@), "```"@),
            "```"@,
        ),
    )
}

/// Removes the Markdown code fences a model may wrap its JSON in.
pub fn strip_fences(raw: &str) -> (json: String)
    ensures
        json@ == strip_json_fences(raw@),
{
    let t = trim_chars(&chars_of(raw), TrimSet::Whitespace);
    let a = strip_prefixes_chars(&t, &chars_of("```json"));
    let b = strip_prefixes_chars(&a, &chars_of("```"));
    let c = strip_suffixes_chars(&b, &chars_of("```"));
    string_of(&trim_chars(&c, TrimSet::Whitespace))
}

/// JSON wrapped in a fenced `json` block is unwrapped: "```json\n" + body +
/// "\n```" gives the body without its surrounding whitespace; and a reply
/// that is not fenced (after trimming it neither starts nor ends with "```")
/// gives the same, so a fenced and a bare reply of one body read alike.
pub proof fn law_fenced_json_unwrapped(body: Seq<char>)
    ensures
        strip_json_fences("```json"@ + seq!['\n'] + body + seq!['\n'] + "```"@) == trim(body),
        !(3 <= trim(body).len() && trim(body).take(3) == "```"@) && !(3 <= trim(body).len()
            && trim(body).skip(trim(body).len() - 3) == "```"@) ==> strip_json_fences(body)
            == trim(body),
{
    reveal_strlit("```json");
    reveal_strlit("```");
    let open = "```json"@;
    let close = "```"@;
    let raw = open + seq!['\n'] + body + seq!['\n'] + close;
    let ws = TrimSet::Whitespace;
    // The raw text has no surrounding whitespace.
    assert(raw[0] == '`');
    assert(raw.last() == '`');
    assert(trim_start_set(raw, ws) == raw);
    assert(trim_end_set(raw, ws) == raw);
    assert(trim(raw) == raw);
    // One "```json" prefix goes; what follows starts with a newline.
    let a = seq!['\n'] + body + seq!['\n'] + close;
    assert(raw.take(7) =~= open);
    assert(raw.skip(7) =~= a);
    assert(a[0] == '\n');
    if 7 <= a.len() && a.take(7) == open {
        assert(a.take(7)[0] == open[0]);
    }
    assert(strip_prefixes(a, open) == a);
    assert(strip_prefixes(raw, open) == a);
    if 3 <= a.len() && a.take(3) == close {
        assert(a.take(3)[0] == close[0]);
    }
    assert(strip_prefixes(a, close) == a);
    // One "```" suffix goes; what precedes ends with a newline.
    let b = seq!['\n'] + body + seq!['\n'];
    assert(a.skip(a.len() - 3) =~= close);
    assert(a.take(a.len() - 3) =~= b);
    assert(b.last() == '\n');
    if 3 <= b.len() && b.skip(b.len() - 3) == close {
        assert(b.skip(b.len() - 3).last() == close.last());
    }
    assert(strip_suffixes(b, close) == b);
    assert(strip_suffixes(a, close) == b);
    // Trimming removes the two newlines and the body's own surrounding whitespace.
    let nl = seq!['\n'];
    assert(in_set(ws, '\n'));
    assert(b.drop_first() =~= body + nl);
    assert(trim_start_set(b, ws) == trim_start_set(body + nl, ws));
    lemma_trim_start_concat(body, nl, ws);
    let ts = trim_start_set(body, ws);
    if ts.len() > 0 {
        assert((ts + nl).drop_last() =~= ts);
        assert(trim_end_set(ts + nl, ws) == trim_end_set(ts, ws));
    } else {
        assert(trim_start_set(nl, ws) == trim_start_set(nl.drop_first(), ws));
        assert(nl.drop_first() =~= Seq::<char>::empty());
    }
    assert(trim_set(b, ws) == trim(body));
    // A bare reply: only the trimming applies.
    let t = trim(body);
    if !(3 <= t.len() && t.take(3) == close) && !(3 <= t.len() && t.skip(t.len() - 3) == close) {
        if 7 <= t.len() && t.take(7) == open {
            assert(t.take(3) =~= t.take(7).take(3));
            assert(open.take(3) =~= close);
        }
        assert(strip_prefixes(t, open) == t);
        assert(strip_prefixes(t, close) == t);
        assert(strip_suffixes(t, close) == t);
        lemma_trim_idempotent(body, ws);
    }
}

/// The board's intent, or "unknown intent" when it has none.
pub open spec fn intent_text(b: BoardView) -> Seq<char> {
    match b.intent {
        Some(s) => s@,
        None => "unknown intent"@,
    }
}

/// The intent a synthesis is asked about.
pub fn intent_or_unknown(board: &Blackboard) -> (t: String)
    ensures
        t@ == intent_text(board@),
{
    match board.get_intent() {
        Some(s) => clone_string(s),
        None => "unknown intent".to_owned(),
    }
}

} // verus!
