//! The pre-execution scanner: a four-stage pipeline over a compiled artifact
//! whose first non-approving stage decides the verdict.
use vstd::prelude::*;
use vstd::utf8::encode_utf8;

use crate::text::{
    chars_of, contains_seq, decimal, first_hit, first_hit_index, lemma_first_hit,
    push_chars, push_decimal, push_str, views,
};

verus! {

/// Scripts larger than this many bytes are rejected outright.
pub const MAX_SCRIPT_SIZE: usize = 65_536;

/// Number of forbidden patterns of the static analysis stage.
pub const FORBIDDEN_COUNT: usize = 10;

/// Number of (pattern, category) pairs of the human-approval stage.
pub const HITL_COUNT: usize = 19;

/// An executable artifact produced for a gap.
#[derive(Clone, Debug)]
pub enum Artifact {
    /// A self-contained script run by an interpreter.
    Script { language: String, code: String, timeout_secs: u64 },
    /// A reactive agent specification.
    Agent { role: String, goal: String, tools: Vec<String>, instructions: String },
}

/// The constraints of a gap, as far as the scanner reads them: the entries of
/// the `allowed_tools` array (`None` when the key is absent or not an array),
/// each entry `Some` when it is a string and `None` otherwise.
#[derive(Clone, Debug)]
pub struct Constraints {
    pub allowed_tools: Option<Vec<Option<String>>>,
}

/// The outcome of a scan.
#[derive(Clone, Debug)]
pub enum ScanVerdict {
    Approved,
    Gated { reason: String },
    Rejected { reason: String },
}

/// The mathematical form of a verdict.
pub enum VerdictView {
    Approved,
    Gated(Seq<char>),
    Rejected(Seq<char>),
}

impl View for ScanVerdict {
    type V = VerdictView;

    open spec fn view(&self) -> VerdictView {
        match self {
            ScanVerdict::Approved => VerdictView::Approved,
            ScanVerdict::Gated { reason } => VerdictView::Gated(reason@),
            ScanVerdict::Rejected { reason } => VerdictView::Rejected(reason@),
        }
    }
}

/// The scanner. It holds no state: all policy is fixed.
pub struct ArtifactGuard;

// ---------------------------------------------------------------------------
// Policy tables
// ---------------------------------------------------------------------------

/// The forbidden pattern at index `i`.
pub open spec fn forbidden_pattern_at(i: int) -> Seq<char> {
    if i == 0 {
        "import os"@
    } else if i == 1 {
        "import sys"@
    } else if i == 2 {
        "import subprocess"@
    } else if i == 3 {
        "curl "@
    } else if i == 4 {
        "wget "@
    } else if i == 5 {
        "nc "@
    } else if i == 6 {
        "ncat "@
    } else if i == 7 {
        "rm -rf"@
    } else if i == 8 {
        "mkfs"@
    } else {
        "dd if="@
    }
}

/// Patterns whose presence in a script rejects it, in the order they are tried.
pub open spec fn forbidden_patterns() -> Seq<Seq<char>> {
    Seq::new(FORBIDDEN_COUNT as nat, |i: int| forbidden_pattern_at(i))
}

/// The high-risk pattern at index `i`.
pub open spec fn hitl_pattern_at(i: int) -> Seq<char> {
    if i == 0 {
        "> /dev/tcp"@
    } else if i == 1 {
        "| nc "@
    } else if i == 2 {
        "| ncat "@
    } else if i == 3 {
        "rm -rf /"@
    } else if i == 4 {
        "rm -rf ~"@
    } else if i == 5 {
        "mkfs."@
    } else if i == 6 {
        "dd if="@
    } else if i == 7 {
        "> /etc/"@
    } else if i == 8 {
        "DROP TABLE"@
    } else if i == 9 {
        "DROP DATABASE"@
    } else if i == 10 {
        "TRUNCATE TABLE"@
    } else if i == 11 {
        "smtp."@
    } else if i == 12 {
        "sendgrid."@
    } else if i == 13 {
        "twilio."@
    } else if i == 14 {
        "mailgun."@
    } else if i == 15 {
        "stripe.charge("@
    } else if i == 16 {
        "stripe.create("@
    } else if i == 17 {
        "paypal.payment("@
    } else {
        ".create_payment("@
    }
}

/// The effect category of the high-risk pattern at index `i`.
pub open spec fn hitl_category_at(i: int) -> Seq<char> {
    if 0 <= i <= 2 {
        "network exfil"@
    } else if 3 <= i <= 7 {
        "destructive: filesystem"@
    } else if 8 <= i <= 10 {
        "destructive: database"@
    } else if i == 11 || i == 12 || i == 14 {
        "outbound: email"@
    } else if i == 13 {
        "outbound: sms"@
    } else {
        "financial"@
    }
}

/// Patterns that require human approval, in the order they are tried.
pub open spec fn hitl_patterns() -> Seq<Seq<char>> {
    Seq::new(HITL_COUNT as nat, |i: int| hitl_pattern_at(i))
}

fn forbidden_pattern(i: usize) -> (p: &'static str)
    requires
        i < FORBIDDEN_COUNT,
    ensures
        p@ == forbidden_pattern_at(i as int),
{
    match i {
        0 => "import os",
        1 => "import sys",
        2 => "import subprocess",
        3 => "curl ",
        4 => "wget ",
        5 => "nc ",
        6 => "ncat ",
        7 => "rm -rf",
        8 => "mkfs",
        _ => "dd if=",
    }
}

fn hitl_pattern(i: usize) -> (p: &'static str)
    requires
        i < HITL_COUNT,
    ensures
        p@ == hitl_pattern_at(i as int),
{
    match i {
        0 => "> /dev/tcp",
        1 => "| nc ",
        2 => "| ncat ",
        3 => "rm -rf /",
        4 => "rm -rf ~",
        5 => "mkfs.",
        6 => "dd if=",
        7 => "> /etc/",
        8 => "DROP TABLE",
        9 => "DROP DATABASE",
        10 => "TRUNCATE TABLE",
        11 => "smtp.",
        12 => "sendgrid.",
        13 => "twilio.",
        14 => "mailgun.",
        15 => "stripe.charge(",
        16 => "stripe.create(",
        17 => "paypal.payment(",
        _ => ".create_payment(",
    }
}

fn hitl_category(i: usize) -> (c: &'static str)
    requires
        i < HITL_COUNT,
    ensures
        c@ == hitl_category_at(i as int),
{
    if i <= 2 {
        "network exfil"
    } else if i <= 7 {
        "destructive: filesystem"
    } else if i <= 10 {
        "destructive: database"
    } else if i == 11 || i == 12 || i == 14 {
        "outbound: email"
    } else if i == 13 {
        "outbound: sms"
    } else {
        "financial"
    }
}

fn forbidden_table() -> (t: Vec<Vec<char>>)
    ensures
        views(t@) == forbidden_patterns(),
{
    let mut t: Vec<Vec<char>> = Vec::new();
    for i in 0..FORBIDDEN_COUNT
        invariant
            t@.len() == i,
            forall|j: int| 0 <= j < i ==> (#[trigger] t@[j])@ == forbidden_pattern_at(j),
    {
        t.push(chars_of(forbidden_pattern(i)));
    }
    assert(views(t@) =~= forbidden_patterns());
    t
}

fn hitl_table() -> (t: Vec<Vec<char>>)
    ensures
        views(t@) == hitl_patterns(),
{
    let mut t: Vec<Vec<char>> = Vec::new();
    for i in 0..HITL_COUNT
        invariant
            t@.len() == i,
            forall|j: int| 0 <= j < i ==> (#[trigger] t@[j])@ == hitl_pattern_at(j),
    {
        t.push(chars_of(hitl_pattern(i)));
    }
    assert(views(t@) =~= hitl_patterns());
    t
}

// ---------------------------------------------------------------------------
// Specification of the pipeline
// ---------------------------------------------------------------------------

/// Size of a script in bytes (its UTF-8 encoding).
pub open spec fn byte_len(code: Seq<char>) -> nat {
    encode_utf8(code).len()
}

pub open spec fn forbidden_reason(pattern: Seq<char>) -> Seq<char> {
    "forbidden pattern in script: `"@ + pattern + "`"@
}

pub open spec fn size_reason(size: nat) -> Seq<char> {
    "script size "@ + decimal(size) + " exceeds limit "@ + decimal(MAX_SCRIPT_SIZE as nat)
}

/// Why a script without a timeout limit is rejected.
pub open spec fn timeout_reason() -> Seq<char> {
    "script has no timeout limit"@
}

pub open spec fn hitl_reason(i: int) -> Seq<char> {
    hitl_category_at(i) + ": `"@ + hitl_pattern_at(i) + "`"@
}

pub open spec fn tool_reason(tool: Seq<char>) -> Seq<char> {
    "tool `"@ + tool + "` not permitted by gap constraints"@
}

/// The allowed-tool list holds a string entry equal to `tool`.
pub open spec fn permits(items: Seq<Option<String>>, tool: Seq<char>) -> bool {
    exists|k: int| 0 <= k < items.len() && (#[trigger] items[k]) is Some && items[k]->0@ == tool
}

/// The index of the first tool, at or after `k`, that `items` does not permit.
pub open spec fn first_unpermitted_from(tools: Seq<String>, items: Seq<Option<String>>, k: int) -> Option<
    int,
>
    decreases tools.len() - k,
{
    if k < 0 || k >= tools.len() {
        None
    } else if !permits(items, tools[k]@) {
        Some(k)
    } else {
        first_unpermitted_from(tools, items, k + 1)
    }
}

/// Stage 1: a script holding a forbidden pattern is rejected, naming the first one.
pub open spec fn static_stage(a: Artifact) -> Option<VerdictView> {
    match a {
        Artifact::Script { code, .. } => match first_hit(code@, forbidden_patterns()) {
            Some(i) => Some(VerdictView::Rejected(forbidden_reason(forbidden_patterns()[i]))),
            None => None,
        },
        Artifact::Agent { .. } => None,
    }
}

/// Stage 2: an agent using a tool outside the gap's allowed tools is rejected,
/// naming the first such tool. Without an allowed-tool list nothing is checked.
pub open spec fn capability_stage(a: Artifact, c: Option<Constraints>) -> Option<VerdictView> {
    match a {
        Artifact::Agent { tools, .. } => match c {
            Some(cs) => match cs.allowed_tools {
                Some(items) => match first_unpermitted_from(tools@, items@, 0) {
                    Some(j) => Some(VerdictView::Rejected(tool_reason(tools@[j]@))),
                    None => None,
                },
                None => None,
            },
            None => None,
        },
        Artifact::Script { .. } => None,
    }
}

/// Stage 3: a script larger than `MAX_SCRIPT_SIZE` bytes is rejected, and so
/// is a script without a timeout limit (`timeout_secs` of 0).
pub open spec fn resource_stage(a: Artifact) -> Option<VerdictView> {
    match a {
        Artifact::Script { code, timeout_secs, .. } => if byte_len(code@) > MAX_SCRIPT_SIZE {
            Some(VerdictView::Rejected(size_reason(byte_len(code@))))
        } else if timeout_secs == 0 {
            Some(VerdictView::Rejected(timeout_reason()))
        } else {
            None
        },
        Artifact::Agent { .. } => None,
    }
}

/// Stage 4: a script holding a high-risk pattern is gated for human approval,
/// naming the category and the first such pattern.
pub open spec fn hitl_stage(a: Artifact) -> Option<VerdictView> {
    match a {
        Artifact::Script { code, .. } => match first_hit(code@, hitl_patterns()) {
            Some(i) => Some(VerdictView::Gated(hitl_reason(i))),
            None => None,
        },
        Artifact::Agent { .. } => None,
    }
}

/// The whole pipeline: the first stage that speaks decides; otherwise approved.
pub open spec fn scan_spec(a: Artifact, c: Option<Constraints>) -> VerdictView {
    if let Some(v) = static_stage(a) {
        v
    } else if let Some(v) = capability_stage(a, c) {
        v
    } else if let Some(v) = resource_stage(a) {
        v
    } else if let Some(v) = hitl_stage(a) {
        v
    } else {
        VerdictView::Approved
    }
}

/// The view of an optional stage verdict.
pub open spec fn stage_view(r: Option<ScanVerdict>) -> Option<VerdictView> {
    match r {
        Some(v) => Some(v@),
        None => None,
    }
}

/// The constraints passed by reference, as a value.
pub open spec fn deref_constraints(c: Option<&Constraints>) -> Option<Constraints> {
    match c {
        Some(x) => Some(*x),
        None => None,
    }
}

// ---------------------------------------------------------------------------
// Reason texts
// ---------------------------------------------------------------------------

fn make_forbidden_reason(pattern: &Vec<char>) -> (s: String)
    ensures
        s@ == forbidden_reason(pattern@),
{
    let mut s = String::new();
    push_str(&mut s, "forbidden pattern in script: `");
    push_chars(&mut s, pattern);
    push_str(&mut s, "`");
    assert(s@ =~= forbidden_reason(pattern@));
    s
}

fn make_size_reason(size: usize) -> (s: String)
    ensures
        s@ == size_reason(size as nat),
{
    let mut s = String::new();
    push_str(&mut s, "script size ");
    push_decimal(&mut s, size as u64);
    push_str(&mut s, " exceeds limit ");
    push_decimal(&mut s, MAX_SCRIPT_SIZE as u64);
    assert(s@ =~= size_reason(size as nat));
    s
}

fn make_hitl_reason(i: usize) -> (s: String)
    requires
        i < HITL_COUNT,
    ensures
        s@ == hitl_reason(i as int),
{
    let mut s = String::new();
    push_str(&mut s, hitl_category(i));
    push_str(&mut s, ": `");
    push_str(&mut s, hitl_pattern(i));
    push_str(&mut s, "`");
    assert(s@ =~= hitl_reason(i as int));
    s
}

fn make_tool_reason(tool: &String) -> (s: String)
    ensures
        s@ == tool_reason(tool@),
{
    let mut s = String::new();
    push_str(&mut s, "tool `");
    push_str(&mut s, tool.as_str());
    push_str(&mut s, "` not permitted by gap constraints");
    assert(s@ =~= tool_reason(tool@));
    s
}

/// Whether the allowed-tool entries hold a string equal to `tool`.
fn is_permitted(items: &Vec<Option<String>>, tool: &String) -> (b: bool)
    ensures
        b == permits(items@, tool@),
{
    let mut k: usize = 0;
    while k < items.len()
        invariant
            k <= items.len(),
            forall|j: int| 0 <= j < k ==> !((#[trigger] items@[j]) is Some && items@[j]->0@ == tool@),
        decreases items.len() - k,
    {
        match &items[k] {
            Some(s) => {
                if *s == *tool {
                    return true;
                }
            },
            None => {},
        }
        k += 1;
    }
    false
}

// ---------------------------------------------------------------------------
// The scanner
// ---------------------------------------------------------------------------

impl ArtifactGuard {
    pub fn new() -> (g: ArtifactGuard) {
        ArtifactGuard
    }

    /// Runs the four stages in order and returns the first verdict that is not
    /// an approval; a clean artifact is approved.
    pub fn scan(&self, artifact: &Artifact, constraints: Option<&Constraints>) -> (v: ScanVerdict)
        ensures
            v@ == scan_spec(*artifact, deref_constraints(constraints)),
    {
        if let Some(v) = self.static_analysis(artifact) {
            return v;
        }
        if let Some(v) = self.capability_check(artifact, constraints) {
            return v;
        }
        if let Some(v) = self.resource_bounds(artifact) {
            return v;
        }
        if let Some(v) = self.hitl_scan(artifact) {
            return v;
        }
        ScanVerdict::Approved
    }

    /// Stage 1: rejects a script that holds a forbidden pattern.
    pub fn static_analysis(&self, artifact: &Artifact) -> (r: Option<ScanVerdict>)
        ensures
            stage_view(r) == static_stage(*artifact),
    {
        match artifact {
            Artifact::Script { code, .. } => {
                let text = chars_of(code.as_str());
                let table = forbidden_table();
                match first_hit_index(&text, &table) {
                    Some(i) => {
                        assert(views(table@)[i as int] == table@[i as int]@);
                        let reason = make_forbidden_reason(&table[i]);
                        Some(ScanVerdict::Rejected { reason })
                    },
                    None => None,
                }
            },
            Artifact::Agent { .. } => None,
        }
    }

    /// Stage 2: rejects an agent that uses a tool the gap's constraints do not allow.
    pub fn capability_check(&self, artifact: &Artifact, constraints: Option<&Constraints>) -> (r:
        Option<ScanVerdict>)
        ensures
            stage_view(r) == capability_stage(*artifact, deref_constraints(constraints)),
    {
        let tools = match artifact {
            Artifact::Agent { tools, .. } => tools,
            Artifact::Script { .. } => {
                return None;
            },
        };
        let cs = match constraints {
            Some(cs) => cs,
            None => {
                return None;
            },
        };
        let items = match &cs.allowed_tools {
            Some(items) => items,
            None => {
                return None;
            },
        };
        let mut k: usize = 0;
        while k < tools.len()
            invariant
                k <= tools.len(),
                deref_constraints(constraints) == Some(*cs),
                cs.allowed_tools == Some(*items),
                *artifact matches Artifact::Agent { tools: t, .. } && t == *tools,
                first_unpermitted_from(tools@, items@, 0) == first_unpermitted_from(
                    tools@,
                    items@,
                    k as int,
                ),
            decreases tools.len() - k,
        {
            if !is_permitted(items, &tools[k]) {
                assert(first_unpermitted_from(tools@, items@, k as int) == Some(k as int));
                let reason = make_tool_reason(&tools[k]);
                return Some(ScanVerdict::Rejected { reason });
            }
            k += 1;
        }
        None
    }

    /// Stage 3: rejects a script larger than `MAX_SCRIPT_SIZE` bytes, or one
    /// whose timeout limit is not set.
    pub fn resource_bounds(&self, artifact: &Artifact) -> (r: Option<ScanVerdict>)
        ensures
            stage_view(r) == resource_stage(*artifact),
    {
        match artifact {
            Artifact::Script { code, timeout_secs, .. } => {
                let size = code.as_str().as_bytes().len();
                if size > MAX_SCRIPT_SIZE {
                    let reason = make_size_reason(size);
                    Some(ScanVerdict::Rejected { reason })
                } else if *timeout_secs == 0 {
                    Some(ScanVerdict::Rejected { reason: "script has no timeout limit".to_owned() })
                } else {
                    None
                }
            },
            Artifact::Agent { .. } => None,
        }
    }

    /// Stage 4: gates a script that holds a high-risk pattern for human approval.
    pub fn hitl_scan(&self, artifact: &Artifact) -> (r: Option<ScanVerdict>)
        ensures
            stage_view(r) == hitl_stage(*artifact),
    {
        match artifact {
            Artifact::Script { code, .. } => {
                let text = chars_of(code.as_str());
                let table = hitl_table();
                match first_hit_index(&text, &table) {
                    Some(i) => {
                        let reason = make_hitl_reason(i);
                        Some(ScanVerdict::Gated { reason })
                    },
                    None => None,
                }
            },
            Artifact::Agent { .. } => None,
        }
    }
}

// ---------------------------------------------------------------------------
// Laws of the pipeline
// ---------------------------------------------------------------------------

/// A script holding any forbidden pattern is rejected by static analysis,
/// whatever else it holds (high-risk patterns included) and whatever the
/// constraints: the reason names the first forbidden pattern it holds.
pub proof fn law_static_analysis_wins(code: Seq<char>, a: Artifact, c: Option<Constraints>, i: int)
    requires
        a matches Artifact::Script { code: cd, .. } && cd@ == code,
        0 <= i < FORBIDDEN_COUNT,
        contains_seq(code, forbidden_patterns()[i]),
    ensures
        exists|j: int|
            0 <= j <= i && contains_seq(code, #[trigger] forbidden_patterns()[j]) && scan_spec(a, c)
                == VerdictView::Rejected(forbidden_reason(forbidden_patterns()[j])),
{
    lemma_first_hit(code, forbidden_patterns(), 0);
    let j = first_hit(code, forbidden_patterns())->0;
    assert(contains_seq(code, forbidden_patterns()[j]));
}

/// An agent is never gated, and without an allowed-tool list it is approved.
pub proof fn law_agents_never_gated(a: Artifact, c: Option<Constraints>)
    requires
        a is Agent,
    ensures
        !(scan_spec(a, c) is Gated),
        (c is None || c->0.allowed_tools is None) ==> scan_spec(a, c) == VerdictView::Approved,
{
}

/// The verdict on a script does not depend on the gap's constraints.
pub proof fn law_scripts_ignore_constraints(a: Artifact, c1: Option<Constraints>, c2: Option<
    Constraints,
>)
    requires
        a is Script,
    ensures
        scan_spec(a, c1) == scan_spec(a, c2),
{
}

/// A script larger than the limit, or without a timeout limit, is never
/// approved nor gated: it is rejected; an oversized one for its size unless
/// static analysis rejected it first.
pub proof fn law_oversized_script_rejected(a: Artifact, c: Option<Constraints>)
    requires
        a matches Artifact::Script { code, timeout_secs, .. } && (byte_len(code@) > MAX_SCRIPT_SIZE
            || timeout_secs == 0),
    ensures
        scan_spec(a, c) is Rejected,
        static_stage(a) is None && byte_len(a->code@) > MAX_SCRIPT_SIZE ==> scan_spec(a, c)
            == VerdictView::Rejected(size_reason(byte_len(a->code@))),
        static_stage(a) is None && byte_len(a->code@) <= MAX_SCRIPT_SIZE ==> scan_spec(a, c)
            == VerdictView::Rejected(timeout_reason()),
{
}

/// A gated artifact is a script within the size limit, with a timeout limit,
/// that holds a high-risk pattern and no forbidden one.
pub proof fn law_gated_means_high_risk(a: Artifact, c: Option<Constraints>)
    requires
        scan_spec(a, c) is Gated,
    ensures
        a is Script,
        byte_len(a->code@) <= MAX_SCRIPT_SIZE,
        a->timeout_secs > 0,
        forall|i: int| 0 <= i < FORBIDDEN_COUNT ==> !contains_seq(a->code@, #[trigger] forbidden_patterns()[i]),
        exists|i: int| 0 <= i < HITL_COUNT && contains_seq(a->code@, #[trigger] hitl_patterns()[i]),
{
    let code = a->code@;
    lemma_first_hit(code, forbidden_patterns(), 0);
    lemma_first_hit(code, hitl_patterns(), 0);
    let j = first_hit(code, hitl_patterns())->0;
    assert(contains_seq(code, hitl_patterns()[j]));
}

/// A script is approved exactly when it holds no forbidden pattern, is within
/// the size limit, has a timeout limit, and holds no high-risk pattern.
pub proof fn law_clean_script_approved(a: Artifact, c: Option<Constraints>)
    requires
        a is Script,
    ensures
        scan_spec(a, c) == VerdictView::Approved <==> {
            &&& forall|i: int| 0 <= i < FORBIDDEN_COUNT ==> !contains_seq(a->code@, #[trigger] forbidden_patterns()[i])
            &&& byte_len(a->code@) <= MAX_SCRIPT_SIZE
            &&& a->timeout_secs > 0
            &&& forall|i: int| 0 <= i < HITL_COUNT ==> !contains_seq(a->code@, #[trigger] hitl_patterns()[i])
        },
{
    let code = a->code@;
    lemma_first_hit(code, forbidden_patterns(), 0);
    lemma_first_hit(code, hitl_patterns(), 0);
}

/// Every script holding one of the ten forbidden texts ("import os",
/// "import sys", "import subprocess", "curl ", "wget ", "nc ", "ncat ",
/// "rm -rf", "mkfs", "dd if=") is rejected, naming the first of them, in
/// that order, that it holds.
pub proof fn law_forbidden_texts_rejected(a: Artifact, c: Option<Constraints>, i: int)
    requires
        a is Script,
        0 <= i < 10,
    ensures
        ({
            let l = seq![
                "import os"@,
                "import sys"@,
                "import subprocess"@,
                "curl "@,
                "wget "@,
                "nc "@,
                "ncat "@,
                "rm -rf"@,
                "mkfs"@,
                "dd if="@,
            ];
            &&& contains_seq(a->code@, l[i]) ==> scan_spec(a, c) is Rejected
            &&& (contains_seq(a->code@, l[i]) && forall|j: int| 0 <= j < i ==> !contains_seq(a->code@, #[trigger] l[j]))
                ==> scan_spec(a, c) == VerdictView::Rejected(
                "forbidden pattern in script: `"@ + l[i] + "`"@,
            )
        }),
{
    let l = seq![
        "import os"@,
        "import sys"@,
        "import subprocess"@,
        "curl "@,
        "wget "@,
        "nc "@,
        "ncat "@,
        "rm -rf"@,
        "mkfs"@,
        "dd if="@,
    ];
    assert(forbidden_patterns() =~= l);
    lemma_first_hit(a->code@, forbidden_patterns(), 0);
    if contains_seq(a->code@, l[i]) {
        let j = first_hit(a->code@, forbidden_patterns())->0;
        if forall|x: int| 0 <= x < i ==> !contains_seq(a->code@, #[trigger] l[x]) {
            assert(j == i);
        }
    }
}

/// A script that passes the first three stages (no forbidden text, within
/// the size limit, with a timeout limit) and holds one of the nineteen
/// high-risk texts is gated, naming the category and the first of them, in
/// the order below, that it holds.
pub proof fn law_high_risk_texts_gated(a: Artifact, c: Option<Constraints>, i: int)
    requires
        a is Script,
        static_stage(a) is None,
        byte_len(a->code@) <= MAX_SCRIPT_SIZE,
        a->timeout_secs > 0,
        0 <= i < 19,
    ensures
        ({
            let l = seq![
                "> /dev/tcp"@,
                "| nc "@,
                "| ncat "@,
                "rm -rf /"@,
                "rm -rf ~"@,
                "mkfs."@,
                "dd if="@,
                "> /etc/"@,
                "DROP TABLE"@,
                "DROP DATABASE"@,
                "TRUNCATE TABLE"@,
                "smtp."@,
                "sendgrid."@,
                "twilio."@,
                "mailgun."@,
                "stripe.charge("@,
                "stripe.create("@,
                "paypal.payment("@,
                ".create_payment("@,
            ];
            let cat = seq![
                "network exfil"@,
                "network exfil"@,
                "network exfil"@,
                "destructive: filesystem"@,
                "destructive: filesystem"@,
                "destructive: filesystem"@,
                "destructive: filesystem"@,
                "destructive: filesystem"@,
                "destructive: database"@,
                "destructive: database"@,
                "destructive: database"@,
                "outbound: email"@,
                "outbound: email"@,
                "outbound: sms"@,
                "outbound: email"@,
                "financial"@,
                "financial"@,
                "financial"@,
                "financial"@,
            ];
            &&& contains_seq(a->code@, l[i]) ==> scan_spec(a, c) is Gated
            &&& (contains_seq(a->code@, l[i]) && forall|j: int| 0 <= j < i ==> !contains_seq(a->code@, #[trigger] l[j]))
                ==> scan_spec(a, c) == VerdictView::Gated(cat[i] + ": `"@ + l[i] + "`"@)
        }),
{
    let l = seq![
        "> /dev/tcp"@,
        "| nc "@,
        "| ncat "@,
        "rm -rf /"@,
        "rm -rf ~"@,
        "mkfs."@,
        "dd if="@,
        "> /etc/"@,
        "DROP TABLE"@,
        "DROP DATABASE"@,
        "TRUNCATE TABLE"@,
        "smtp."@,
        "sendgrid."@,
        "twilio."@,
        "mailgun."@,
        "stripe.charge("@,
        "stripe.create("@,
        "paypal.payment("@,
        ".create_payment("@,
    ];
    let cat = seq![
        "network exfil"@,
        "network exfil"@,
        "network exfil"@,
        "destructive: filesystem"@,
        "destructive: filesystem"@,
        "destructive: filesystem"@,
        "destructive: filesystem"@,
        "destructive: filesystem"@,
        "destructive: database"@,
        "destructive: database"@,
        "destructive: database"@,
        "outbound: email"@,
        "outbound: email"@,
        "outbound: sms"@,
        "outbound: email"@,
        "financial"@,
        "financial"@,
        "financial"@,
        "financial"@,
    ];
    assert(hitl_patterns() =~= l);
    assert forall|x: int| 0 <= x < 19 implies #[trigger] hitl_category_at(x) == cat[x] by {}
    lemma_first_hit(a->code@, hitl_patterns(), 0);
    if contains_seq(a->code@, l[i]) {
        let j = first_hit(a->code@, hitl_patterns())->0;
        if forall|x: int| 0 <= x < i ==> !contains_seq(a->code@, #[trigger] l[x]) {
            assert(j == i);
        }
    }
}

/// Stage 3 rejects a script exactly when its UTF-8 encoding is longer than
/// 65536 bytes or its timeout is 0; a larger script is rejected for its size.
pub proof fn law_resource_limits(a: Artifact)
    requires
        a is Script,
    ensures
        resource_stage(a) is Some <==> (byte_len(a->code@) > 65536 || a->timeout_secs == 0),
        byte_len(a->code@) > 65536 ==> resource_stage(a) == Some(
            VerdictView::Rejected("script size "@ + decimal(byte_len(a->code@)) + " exceeds limit "@ + decimal(65536)),
        ),
        resource_stage(a) matches Some(v) ==> v is Rejected,
{
}

} // verus!
