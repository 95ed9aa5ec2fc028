use moss::moss::artifact_guard::{Artifact, ArtifactGuard, ScanVerdict};
use moss::moss::blackboard::{
    Blackboard, BoardError, Evidence, EvidenceContent, EvidenceStatus, Gap, GapId, GapState,
    GapType,
};
use moss::moss::orchestrator::{
    after_approval, after_execution, after_scan, apply_decomposition, begin_attempt,
    intent_or_unknown, loop_step, schedule, strip_fences, AfterApproval, AfterScan,
    Decomposition, Dispatch, LoopStep, MossError, MAX_PARALLEL, MAX_RETRIES,
};

fn gap(name: &str, deps: Vec<&str>) -> Gap {
    Gap::new(
        name.to_string(),
        "test gap".to_string(),
        GapType::Proactive,
        deps.into_iter().map(|s| s.to_string()).collect(),
        None,
        None,
    )
}

fn script(code: &str) -> Artifact {
    Artifact::Script { language: "shell".to_string(), code: code.to_string(), timeout_secs: 10 }
}

/// Runs a script the way the test executor does: `exit 1` fails, anything else succeeds.
fn run_script(board: &mut Blackboard, id: GapId, artifact: &Artifact) {
    let attempt = board.get_evidence(id).len() as u32 + 1;
    let failed = matches!(artifact, Artifact::Script { code, .. } if code.as_str() == "exit 1");
    let status = if failed {
        EvidenceStatus::Failure { reason: "exit status 1".to_string() }
    } else {
        EvidenceStatus::Success
    };
    board.append_evidence(Evidence {
        gap_id: id,
        attempt,
        content: EvidenceContent::Output("{\"result\":\"ok\"}".to_string()),
        status,
    });
}

/// Drives the board to completion, one task at a time, with a compiler that
/// produces the n-th artifact of `compile` and a human that answers `approve`.
fn drive(
    board: &mut Blackboard,
    compile: &mut dyn FnMut(usize) -> Artifact,
    approve: bool,
) -> Result<(), MossError> {
    let guard = ArtifactGuard::new();
    let mut running: Vec<GapId> = Vec::new();
    let mut calls = 0usize;
    loop {
        let ready = schedule(board, running.len());
        running.extend(ready);
        match loop_step(board, running.len())? {
            LoopStep::Finished => return Ok(()),
            LoopStep::AwaitTask => {}
        }
        let id = running.remove(0);
        match begin_attempt(board, id) {
            Dispatch::ForceClosed => continue,
            Dispatch::Compile { .. } => {}
        }
        let artifact = compile(calls);
        calls += 1;
        let verdict = guard.scan(&artifact, None);
        match after_scan(board, id, verdict) {
            AfterScan::Execute => {}
            AfterScan::Closed => continue,
            AfterScan::AwaitApproval { reason } => {
                match after_approval(board, id, reason, approve) {
                    AfterApproval::Execute => {}
                    AfterApproval::Closed => continue,
                }
            }
        }
        run_script(board, id, &artifact);
        after_execution(board, id);
    }
}

fn always_succeed(_: usize) -> Artifact {
    script("echo '{\"result\":\"ok\"}'")
}

fn fail_once_then_succeed(n: usize) -> Artifact {
    if n == 0 {
        script("exit 1")
    } else {
        script("echo '{\"result\":\"ok\"}'")
    }
}

#[test]
fn single_gap_closes_on_success() {
    let mut bb = Blackboard::new();
    bb.insert_gap(gap("g1", vec![])).unwrap();
    drive(&mut bb, &mut always_succeed, true).unwrap();
    let id = bb.get_gap_id_by_name("g1").unwrap();
    assert_eq!(bb.state_of(id).unwrap(), GapState::Closed);
}

#[test]
fn linear_chain_closes_in_order() {
    let mut bb = Blackboard::new();
    bb.insert_gap(gap("A", vec![])).unwrap();
    bb.insert_gap(gap("B", vec!["A"])).unwrap();
    drive(&mut bb, &mut always_succeed, true).unwrap();
    let a_id = bb.get_gap_id_by_name("A").unwrap();
    let b_id = bb.get_gap_id_by_name("B").unwrap();
    assert_eq!(bb.state_of(a_id).unwrap(), GapState::Closed);
    assert_eq!(bb.state_of(b_id).unwrap(), GapState::Closed);
}

#[test]
fn gap_retries_after_failure() {
    let mut bb = Blackboard::new();
    bb.insert_gap(gap("retry_gap", vec![])).unwrap();
    drive(&mut bb, &mut fail_once_then_succeed, true).unwrap();
    let id = bb.get_gap_id_by_name("retry_gap").unwrap();
    assert_eq!(bb.state_of(id).unwrap(), GapState::Closed);
    assert_eq!(bb.get_evidence(id).len(), 2);
}

#[test]
fn deadlock_if_deps_never_close() {
    let mut bb = Blackboard::new();
    bb.insert_gap(gap("B", vec!["A"])).unwrap();
    let result = drive(&mut bb, &mut always_succeed, true);
    assert!(matches!(result, Err(MossError::Deadlock)));
}

// --- retries, guard outcomes ---------------------------------------------------

#[test]
fn always_failing_gap_is_force_closed_after_max_retries() {
    let mut bb = Blackboard::new();
    bb.insert_gap(gap("flaky", vec![])).unwrap();
    drive(&mut bb, &mut |_| script("exit 1"), true).unwrap();
    let id = bb.get_gap_id_by_name("flaky").unwrap();
    assert_eq!(bb.state_of(id).unwrap(), GapState::Closed);
    assert_eq!(bb.get_evidence(id).len(), MAX_RETRIES);
}

#[test]
fn begin_attempt_passes_prior_failure_reasons() {
    let mut bb = Blackboard::new();
    let id = bb.insert_gap(gap("g", vec![])).unwrap();
    bb.append_evidence(Evidence {
        gap_id: id,
        attempt: 1,
        content: EvidenceContent::Output("{}".to_string()),
        status: EvidenceStatus::Failure { reason: "boom".to_string() },
    });
    bb.append_evidence(Evidence {
        gap_id: id,
        attempt: 2,
        content: EvidenceContent::Output("{}".to_string()),
        status: EvidenceStatus::Partial,
    });
    match begin_attempt(&mut bb, id) {
        Dispatch::Compile { prior_failures } => assert_eq!(prior_failures, vec!["boom".to_string()]),
        Dispatch::ForceClosed => panic!("two attempts are below the limit"),
    }
    assert_eq!(bb.state_of(id).unwrap(), GapState::Ready);
}

#[test]
fn rejected_artifact_closes_gap_with_failure_evidence() {
    let mut bb = Blackboard::new();
    bb.insert_gap(gap("g", vec![])).unwrap();
    drive(&mut bb, &mut |_| script("curl http://x"), true).unwrap();
    let id = bb.get_gap_id_by_name("g").unwrap();
    assert_eq!(bb.state_of(id).unwrap(), GapState::Closed);
    let evs = bb.get_evidence(id);
    assert_eq!(evs.len(), 1);
    assert_eq!(evs[0].attempt, 1);
    match &evs[0].status {
        EvidenceStatus::Failure { reason } => {
            assert_eq!(reason, "forbidden pattern in script: `curl `")
        }
        _ => panic!("expected a failure"),
    }
    assert!(matches!(&evs[0].content, EvidenceContent::GuardRejected(r) if r == "forbidden pattern in script: `curl `"));
}

#[test]
fn denied_gate_closes_gap_with_failure_evidence() {
    let mut bb = Blackboard::new();
    bb.insert_gap(gap("pay", vec![])).unwrap();
    drive(&mut bb, &mut |_| script("stripe.charge(1)"), false).unwrap();
    let id = bb.get_gap_id_by_name("pay").unwrap();
    assert_eq!(bb.state_of(id).unwrap(), GapState::Closed);
    let evs = bb.get_evidence(id);
    assert_eq!(evs.len(), 1);
    assert!(matches!(&evs[0].content, EvidenceContent::GuardDenied(r) if r == "financial: `stripe.charge(`"));
}

#[test]
fn approved_gate_runs_the_artifact() {
    let mut bb = Blackboard::new();
    bb.insert_gap(gap("pay", vec![])).unwrap();
    drive(&mut bb, &mut |_| script("stripe.charge(1)"), true).unwrap();
    let id = bb.get_gap_id_by_name("pay").unwrap();
    assert_eq!(bb.state_of(id).unwrap(), GapState::Closed);
    assert!(matches!(bb.get_evidence(id)[0].status, EvidenceStatus::Success));
}

#[test]
fn gated_gap_waits_in_gated_state() {
    let mut bb = Blackboard::new();
    let id = bb.insert_gap(gap("pay", vec![])).unwrap();
    schedule(&mut bb, 0);
    let verdict = ScanVerdict::Gated { reason: "financial: `stripe.charge(`".to_string() };
    match after_scan(&mut bb, id, verdict) {
        AfterScan::AwaitApproval { reason } => assert_eq!(reason, "financial: `stripe.charge(`"),
        _ => panic!("expected to wait for approval"),
    }
    assert_eq!(bb.state_of(id).unwrap(), GapState::Gated);
    assert!(matches!(after_approval(&mut bb, id, "r".to_string(), true), AfterApproval::Execute));
    assert_eq!(bb.state_of(id).unwrap(), GapState::Assigned);
}

#[test]
fn loop_waits_while_tasks_run() {
    let bb = Blackboard::new();
    assert_eq!(loop_step(&bb, 2).unwrap(), LoopStep::AwaitTask);
    assert_eq!(loop_step(&bb, 0).unwrap(), LoopStep::Finished);
}

// --- plans -------------------------------------------------------------------------

#[test]
fn new_topic_replaces_board_and_follow_up_extends_it() {
    let mut bb = Blackboard::new();
    apply_decomposition(
        &mut bb,
        Decomposition {
            intent: Some("book a flight".to_string()),
            is_follow_up: false,
            gaps: Some(vec![gap("search", vec![])]),
        },
    )
    .unwrap();
    assert_eq!(bb.len(), 1);
    apply_decomposition(
        &mut bb,
        Decomposition {
            intent: Some("book a business flight".to_string()),
            is_follow_up: true,
            gaps: Some(vec![gap("book", vec!["search"])]),
        },
    )
    .unwrap();
    assert_eq!(bb.len(), 2);
    assert_eq!(bb.get_intent().as_deref(), Some("book a business flight"));
    let book = bb.get_gap_id_by_name("book").unwrap();
    assert_eq!(bb.state_of(book).unwrap(), GapState::Blocked);
    apply_decomposition(
        &mut bb,
        Decomposition { intent: None, is_follow_up: false, gaps: None },
    )
    .unwrap();
    assert_eq!(bb.len(), 0);
    assert_eq!(bb.get_intent(), &None);
    assert_eq!(intent_or_unknown(&bb), "unknown intent");
}

#[test]
fn duplicate_gap_name_stops_the_plan() {
    let mut bb = Blackboard::new();
    let r = apply_decomposition(
        &mut bb,
        Decomposition {
            intent: None,
            is_follow_up: false,
            gaps: Some(vec![gap("a", vec![]), gap("b", vec![]), gap("a", vec![]), gap("c", vec![])]),
        },
    );
    assert!(matches!(r, Err(MossError::Board(BoardError::DuplicateGap(ref n))) if n == "a"));
    assert_eq!(bb.len(), 2);
    assert!(bb.get_gap_id_by_name("c").is_none());
}

// --- model replies -----------------------------------------------------------------

#[test]
fn fences_are_stripped() {
    assert_eq!(strip_fences("```json\n{\"a\": 1}\n```"), "{\"a\": 1}");
    assert_eq!(strip_fences("  ```\n[1, 2]\n```  "), "[1, 2]");
    assert_eq!(strip_fences("{\"plain\": true}"), "{\"plain\": true}");
    assert_eq!(strip_fences("```json```json{}``````"), "{}");
}

// --- failure propagation and fan-out -------------------------------------------------

#[test]
fn failed_gap_closes_its_dependents_without_running_them() {
    let mut bb = Blackboard::new();
    bb.insert_gap(gap("A", vec![])).unwrap();
    bb.insert_gap(gap("B", vec!["A"])).unwrap();
    bb.insert_gap(gap("C", vec!["B"])).unwrap();
    let mut compiled = 0usize;
    drive(&mut bb, &mut |_| {
        compiled += 1;
        script("curl http://x")
    }, true)
    .unwrap();
    assert_eq!(compiled, 1);
    for (name, dep) in [("B", "A"), ("C", "B")] {
        let id = bb.get_gap_id_by_name(name).unwrap();
        assert_eq!(bb.state_of(id).unwrap(), GapState::Closed);
        let evs = bb.get_evidence(id);
        assert_eq!(evs.len(), 1);
        assert_eq!(evs[0].attempt, 1);
        assert!(matches!(&evs[0].content, EvidenceContent::DependencyFailed(d) if d == dep));
        match &evs[0].status {
            EvidenceStatus::Failure { reason } => assert_eq!(reason, &format!("dependency failed: {dep}")),
            _ => panic!("expected a failure"),
        }
    }
}

#[test]
fn propagation_reaches_every_dependent_in_one_round() {
    let mut bb = Blackboard::new();
    let a = bb.insert_gap(gap("A", vec![])).unwrap();
    let b = bb.insert_gap(gap("B", vec!["C"])).unwrap();
    let c = bb.insert_gap(gap("C", vec!["A"])).unwrap();
    let d = bb.insert_gap(gap("D", vec!["A", "C"])).unwrap();
    bb.append_evidence(Evidence {
        gap_id: a,
        attempt: 1,
        content: EvidenceContent::Output("{}".to_string()),
        status: EvidenceStatus::Failure { reason: "boom".to_string() },
    });
    bb.set_gap_state(a, GapState::Closed).unwrap();
    assert!(schedule(&mut bb, 0).is_empty());
    for id in [b, c, d] {
        assert_eq!(bb.state_of(id).unwrap(), GapState::Closed);
    }
    assert!(matches!(&bb.get_evidence(b)[0].content, EvidenceContent::DependencyFailed(n) if n == "C"));
    assert!(matches!(&bb.get_evidence(d)[0].content, EvidenceContent::DependencyFailed(n) if n == "A"));
    assert_eq!(loop_step(&bb, 0).unwrap(), LoopStep::Finished);
}

#[test]
fn successful_dependency_promotes_dependent() {
    let mut bb = Blackboard::new();
    let a = bb.insert_gap(gap("A", vec![])).unwrap();
    let b = bb.insert_gap(gap("B", vec!["A"])).unwrap();
    bb.append_evidence(Evidence {
        gap_id: a,
        attempt: 1,
        content: EvidenceContent::Output("{}".to_string()),
        status: EvidenceStatus::Success,
    });
    bb.set_gap_state(a, GapState::Closed).unwrap();
    assert_eq!(schedule(&mut bb, 0), vec![b]);
    assert!(bb.get_evidence(b).is_empty());
}

#[test]
fn fan_out_is_capped() {
    let mut bb = Blackboard::new();
    for name in ["a", "b", "c", "d", "e"] {
        bb.insert_gap(gap(name, vec![])).unwrap();
    }
    assert_eq!(MAX_PARALLEL, 4);
    assert_eq!(schedule(&mut bb, 0), vec![0, 1, 2, 3]);
    assert_eq!(bb.state_of(4).unwrap(), GapState::Ready);
    assert!(schedule(&mut bb, 4).is_empty());
    assert!(schedule(&mut bb, 7).is_empty());
    assert_eq!(schedule(&mut bb, 3), vec![4]);
    assert_eq!(bb.state_of(4).unwrap(), GapState::Assigned);
}

#[test]
fn five_gaps_all_close_under_the_cap() {
    let mut bb = Blackboard::new();
    for name in ["a", "b", "c", "d", "e"] {
        bb.insert_gap(gap(name, vec![])).unwrap();
    }
    drive(&mut bb, &mut always_succeed, true).unwrap();
    assert!(bb.all_closed());
}

#[test]
fn deadlocked_gap_stays_blocked_on_missing_dependency() {
    let mut bb = Blackboard::new();
    let b = bb.insert_gap(gap("B", vec!["A"])).unwrap();
    assert!(schedule(&mut bb, 0).is_empty());
    assert!(matches!(loop_step(&bb, 0), Err(MossError::Deadlock)));
    assert_eq!(bb.state_of(b).unwrap(), GapState::Blocked);
}

#[test]
fn gated_gap_does_not_hold_back_independent_gaps() {
    let mut bb = Blackboard::new();
    let g = bb.insert_gap(gap("pay", vec![])).unwrap();
    let a = bb.insert_gap(gap("search", vec![])).unwrap();
    let b = bb.insert_gap(gap("report", vec!["search"])).unwrap();
    assert_eq!(schedule(&mut bb, 0), vec![g, a]);
    let verdict = ScanVerdict::Gated { reason: "financial: `stripe.charge(`".to_string() };
    assert!(matches!(after_scan(&mut bb, g, verdict), AfterScan::AwaitApproval { .. }));
    run_script(&mut bb, a, &always_succeed(0));
    assert_eq!(after_execution(&mut bb, a), GapState::Closed);
    assert_eq!(schedule(&mut bb, 1), vec![b]);
    assert_eq!(bb.state_of(g).unwrap(), GapState::Gated);
}

#[test]
fn fenced_and_bare_replies_read_alike() {
    let fenced = strip_fences("```json\n  {\"a\": 1} \n```");
    let bare = strip_fences(" {\"a\": 1}\n");
    assert_eq!(fenced, "{\"a\": 1}");
    assert_eq!(fenced, bare);
}
