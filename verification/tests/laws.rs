use dack::clock::{fmt_now, fmt_utc, humanize_entry_times};
use dack::config::{
    Capabilities, CapabilityPrefix, CapabilityTier, DackConfig, McpAuth, McpServerConfig, McpTransport, TierPolicies,
    TierPolicy,
};
use dack::error::DackError;
use dack::harness::batons::{origin_reply_scope, parse_continuation};
use dack::harness::context::{baton_block, orientation_block, runlog_blocks, transitions_block, History};
use dack::harness::dispatch::{delegation, enter, open_cycle, reflect_rate_limit_ok, StepInput, StepResult, Target};
use dack::harness::environment::{day_histogram, environment_block, environment_recent_block, trust_abbrev};
use dack::harness::mcp::{import_server, mcp_server_of, needed_secrets, McpConfig};
use dack::harness::sessions::sticky_session_key;
use dack::harness::skills::{
    collapse_ws, memory_index_head, self_orientation, skill_dir, skills_catalogue, split_frontmatter, Skill,
};
use dack::harness::soul::reconcile_soul;
use dack::harness::step::{
    invoke_timeout_override, run_id_of, runlog_tags, system_prompt_for_prompt, unretryable, write_runlog,
};
use dack::harness::wakes::{
    at_boundary, conclude, log_dispatch_failure, notify_post, reflect_stimulus, scheduled_reflect, Boundary, Ending,
    Verdict,
};
use dack::harness::wall::{shorten, wall_for, ActionDecision, RecordingResponder};
use dack::harness::Harness;
use dack::health::HealthRegistry;
use dack::model::baton::Baton;
use dack::model::proposal::{AgentOutput, BatonIntent, Intent, Proposal, SpawnRequest, Transition};
use dack::model::stimulus::{Priority, Stimulus, StimulusId, StimulusStatus, StimulusType};
use dack::prompt::{split_resume, ContextConfig, McpRef, RunlogContext, SessionConfig, StatePrompt};
use dack::runlog::notes::append_tag_note;
use dack::runlog::reader::{entries_meta, filter_entries};
use dack::runlog::render::append_entry;
use dack::runlog::stats::RunlogStats;
use dack::state::{ConsciousnessState, ToolClass};
use dack::text_map::TextMap;
use dack::trust::{Lattice, TrustTier};
use serde_json::Value;

fn value(s: &str) -> Value {
    serde_json::from_str(s).unwrap()
}

fn texts(v: &[&str]) -> Vec<String> {
    v.iter().map(|s| s.to_string()).collect()
}

fn locked() -> TierPolicy {
    TierPolicy { deny: vec![], import: vec![], mcp_whitelist: true, allow_model_override: false, model: None }
}

fn config() -> DackConfig {
    DackConfig {
        lattice: Lattice::default(),
        operator_did: "did:x".to_string(),
        default_entry: "perceive".to_string(),
        baton_ttl_secs: None,
        session_ttl_secs: 3600,
        session_max_context_tokens: Some(1000),
        reflect_min_interval_secs: 3600,
        reflect_invoke_timeout_secs: Some(900),
        memory_write_min_trust: "self".to_string(),
        tag_notes_max: 200,
        runlog_retention_days: 0,
        notify_url: None,
        mcp_servers: vec![],
        tier_policy: TierPolicies { perceive: locked(), express: locked(), settle: locked(), reflect: locked() },
        capabilities: Capabilities {
            read: vec![],
            post: vec![CapabilityPrefix::open("mcp__twitter__")],
            settle: vec![CapabilityPrefix::open("mcp__cove__")],
        },
        dry_run_block: texts(&["mcp__twitter__post"]),
    }
}

fn runlog_context() -> RunlogContext {
    RunlogContext { environment: 2, thread: 5, thread_recent_lookback_secs: 3600, dedup_notes: true, recent_notes: 20 }
}

fn prompt(id: &str, state: ConsciousnessState) -> StatePrompt {
    StatePrompt {
        id: id.to_string(),
        state,
        transitions: texts(&["express", "settle", "reflect"]),
        mcp: vec![],
        session: None,
        model: None,
        reply_key: texts(&["message_id"]),
        context: ContextConfig { memory: false, tag_key: true, runlog: runlog_context() },
        system_frame: String::new(),
        body: "go".to_string(),
        resume_body: None,
    }
}

fn stimulus(payload: &str) -> Stimulus {
    Stimulus {
        id: StimulusId("s1".to_string()),
        source: "telegram-op".to_string(),
        type_: StimulusType("telegram_message".to_string()),
        directive_tier: TrustTier::self_(),
        payload_tier: TrustTier::self_(),
        payload: value(payload),
        provenance: None,
        received_at: 1500,
        dedup_key: Some("chat-1".to_string()),
        pop_after: None,
        priority: Priority::Normal,
        status: StimulusStatus::Pending,
        attempts: 0,
        directive_body: "directive".to_string(),
        entry: "perceive".to_string(),
    }
}

fn output(batons: Vec<BatonIntent>) -> AgentOutput {
    AgentOutput { thought: "hm".to_string(), batons, ..AgentOutput::default() }
}

fn intent(to: &str, priority: Option<Priority>) -> BatonIntent {
    BatonIntent {
        to_prompt: to.to_string(),
        gist: format!("to {to}"),
        priority,
        reply_to: None,
        tags: texts(&["topic"]),
        reason: String::new(),
    }
}

#[test]
fn taint_only_lowers() {
    let l = Lattice::default();
    let (public, own, op) = (TrustTier::public(), TrustTier::self_(), TrustTier::operator());
    assert_eq!(l.meet(&own, &public).name(), "public");
    assert_eq!(l.meet(&public, &own).name(), "public");
    assert_eq!(l.meet(&own, &op).name(), "self");
    assert_eq!(l.meet(&own, &TrustTier::named("stranger")).name(), "stranger", "the undeclared rank lowest");
    assert_eq!(l.reaches(&public), ConsciousnessState::Express);
    assert_eq!(l.reaches(&own), ConsciousnessState::Reflect);
    assert_eq!(l.reaches(&op), ConsciousnessState::Reflect);
    assert_eq!(l.reaches(&TrustTier::named("stranger")), ConsciousnessState::Perceive);
    assert!(l.permits(&op, &own) && !l.permits(&public, &own));
    assert!(!l.permits(&op, &TrustTier::named("stranger")), "an undeclared floor is cleared by nothing");
    assert_eq!(own.debug(), "TrustTier(\"self\")");
}

fn step(accessed: Option<TrustTier>, out: AgentOutput) -> StepResult {
    StepResult { out, runlog_ref: "runlogs/d.md#r".to_string(), accessed }
}

fn target(id: &str) -> Option<Target> {
    let state = match id {
        "express" => ConsciousnessState::Express,
        "settle" => ConsciousnessState::Settle,
        _ => ConsciousnessState::Reflect,
    };
    Some(Target { prompt: prompt(id, state), allowed: true })
}

#[test]
fn public_data_closes_settle_and_reflect_for_good() {
    let c = config();
    let s = stimulus("{}");
    let all = || output(vec![intent("express", None), intent("settle", None), intent("reflect", None)]);
    let targets = || vec![target("express"), target("settle"), target("reflect")];
    let mut cycle = enter(open_cycle(&c, &s, 2000).unwrap(), prompt("perceive", ConsciousnessState::Perceive)).unwrap();
    let entry = cycle.next().unwrap();
    assert!(matches!(entry.step, StepInput::Entry));

    let clean = cycle.fan_out(&c, &entry, &step(None, all()), &s, targets(), None, 2000);
    assert_eq!(clean.children.len(), 3, "a clean self cycle may go anywhere");
    assert!(clean.reflected);

    let tainted = cycle.fan_out(&c, &entry, &step(Some(TrustTier::public()), all()), &s, targets(), None, 2000);
    assert_eq!(tainted.children.len(), 1);
    assert_eq!(tainted.children[0].branch.prompt.id, "express");
    assert_eq!(tainted.children[0].branch.trust.name(), "public");
    assert!(!tainted.reflected);

    cycle.adopt(tainted.children, &[]);
    let express = cycle.next().unwrap();
    let later = cycle.fan_out(&c, &express, &step(None, all()), &s, targets(), None, 2000);
    assert_eq!(later.children.len(), 1, "what was touched is never shaken off");
}

#[test]
fn a_whole_public_dispatch_never_settles() {
    let c = config();
    let mut s = stimulus("{}");
    s.payload_tier = TrustTier::public();
    let mut cycle = enter(open_cycle(&c, &s, 2000).unwrap(), prompt("perceive", ConsciousnessState::Perceive)).unwrap();
    let mut ran = 0;
    while let Some(b) = cycle.next() {
        ran += 1;
        assert!(matches!(b.prompt.state, ConsciousnessState::Perceive | ConsciousnessState::Express));
        assert_eq!(b.trust.name(), "public");
        let out = output(vec![intent("express", None), intent("settle", None), intent("reflect", None)]);
        let targets = vec![target("express"), target("settle"), target("reflect")];
        let fan = cycle.fan_out(&c, &b, &step(None, out), &s, targets, None, 2000);
        cycle.adopt(fan.children, &[]);
    }
    assert_eq!(ran, 12, "the budget ends it");
}

#[test]
fn a_branch_must_pass_every_gate() {
    let c = config();
    let s = stimulus("{}");
    let seed = || open_cycle(&c, &s, 2000).unwrap();
    let fan = |out: AgentOutput, targets: Vec<Option<Target>>, cursor: Option<&str>| {
        let mut cycle = enter(seed(), prompt("perceive", ConsciousnessState::Perceive)).unwrap();
        let b = cycle.next().unwrap();
        cycle.fan_out(&c, &b, &step(None, out), &s, targets, cursor, 2000).children.len()
    };
    assert_eq!(fan(output(vec![intent("express", None)]), vec![None], None), 0, "unresolved");
    let barred = Some(Target { prompt: prompt("express", ConsciousnessState::Express), allowed: false });
    assert_eq!(fan(output(vec![intent("express", None)]), vec![barred], None), 0, "structurally disallowed");
    assert_eq!(fan(output(vec![intent("elsewhere", None)]), vec![target("express")], None), 0, "not listed");
    assert_eq!(fan(output(vec![intent("", None)]), vec![target("express")], None), 0, "a note, no branch");
    assert_eq!(fan(output(vec![intent("reflect", None)]), vec![target("reflect")], Some("1000")), 0, "too soon");
    assert_eq!(fan(output(vec![intent("reflect", None)]), vec![target("reflect")], Some("-5000")), 1);
    let twice = output(vec![intent("reflect", None), intent("reflect", None)]);
    assert_eq!(fan(twice, vec![target("reflect"), target("reflect")], None), 1, "one Reflect in an interval");
    let six: Vec<BatonIntent> = (0..6).map(|_| intent("express", None)).collect();
    let targets = (0..6).map(|_| target("express")).collect();
    assert_eq!(fan(output(six), targets, None), 5, "the width cap");
}

#[test]
fn a_deferred_branch_keeps_its_trust_and_its_lineage_ends() {
    let c = config();
    let mut s = stimulus(r#"{"chat_id": 7, "items": [{"message_id": 3}]}"#);
    for depth in 0..6u64 {
        let mut cycle = enter(open_cycle(&c, &s, 2000).unwrap(), prompt("perceive", ConsciousnessState::Perceive)).unwrap();
        let b = cycle.next().unwrap();
        let low = output(vec![intent("express", Some(Priority::Low))]);
        let mut fan = cycle.fan_out(&c, &b, &step(None, low), &s, vec![target("express")], None, 2000);
        let child = fan.children.remove(0);
        match child.deferred {
            Some(d) => {
                assert!(depth < 4);
                assert_eq!(d.payload_tier.name(), "self");
                let back = parse_continuation(&d).unwrap();
                assert_eq!(back.depth, depth + 1);
                assert_eq!(back.baton.gist, "to express");
                if depth == 0 {
                    assert_eq!(back.scope.unwrap()["chat_id"], 7);
                }
                s = d;
            }
            None => {
                assert_eq!(depth, 4, "a lineage may be deferred four times");
                return;
            }
        }
    }
    panic!("the lineage never ended");
}

#[test]
fn a_public_cycle_never_enters_settle() {
    let c = config();
    let mut s = stimulus("{}");
    s.payload_tier = TrustTier::public();
    let seed = || open_cycle(&c, &s, 0).unwrap();
    assert_eq!(seed().trust.name(), "public");
    assert!(enter(seed(), prompt("settle", ConsciousnessState::Settle)).is_none());
    assert!(enter(seed(), prompt("express", ConsciousnessState::Express)).is_some());
}

#[test]
fn only_express_delegates() {
    let mut out = output(vec![]);
    out.spawn = Some(SpawnRequest { agent: "coder".to_string(), brief: "b".to_string() });
    assert_eq!(delegation(ConsciousnessState::Express, &out).unwrap().agent, "coder");
    assert!(delegation(ConsciousnessState::Perceive, &out).is_none());
}

#[test]
fn a_reflect_is_due_after_its_interval() {
    assert!(reflect_rate_limit_ok(3600, None, 0));
    assert!(reflect_rate_limit_ok(3600, Some("garbage"), 0));
    assert!(reflect_rate_limit_ok(0, Some("100"), 100));
    assert!(!reflect_rate_limit_ok(3600, Some("100"), 3699));
    assert!(reflect_rate_limit_ok(3600, Some("100"), 3700));
    assert!(scheduled_reflect(&config(), Some("100"), 200).is_none());
    let s = scheduled_reflect(&config(), Some("100"), 3700).unwrap();
    assert_eq!(s.id.0, "reflect-3700");
}

#[test]
fn a_scheduled_reflect_is_the_agents_own() {
    let s = reflect_stimulus(42);
    assert_eq!((s.source.as_str(), s.entry.as_str()), ("harness-reflect", "reflect"));
    assert_eq!(s.payload.to_string(), "{\"at\":42,\"event\":\"scheduled reflect\"}");
    assert_eq!(s.dedup_key.as_deref(), Some("reflect"));
    assert_eq!((s.directive_tier.name(), s.payload_tier.name()), ("self", "self"));
}

#[test]
fn times_are_shown_in_universal_time() {
    assert_eq!(fmt_utc(0), "1970-01-01 00:00:00 UTC");
    assert_eq!(fmt_now(0), "1970-01-01 00:00:00 UTC (Thu)");
    assert_eq!(fmt_utc(1_782_648_000), "2026-06-28 12:00:00 UTC");
    assert_eq!(fmt_utc(i64::MAX), "", "out of the calendar");
    assert_eq!(
        humanize_entry_times("## run\n- timestamp: 60\n- timestamp: x\nrest"),
        "## run\n- at: 1970-01-01 00:01:00 UTC\n- timestamp: x\nrest"
    );
}

#[test]
fn a_failure_is_told_to_the_operator() {
    let n = notify_post("http://localhost:9000/hook/x", "t", "é").unwrap();
    assert_eq!(n.host, "localhost:9000");
    assert_eq!(
        n.request,
        "POST /hook/x HTTP/1.1\r\nHost: localhost:9000\r\nContent-Type: application/json\r\nContent-Length: 63\r\n\
         Connection: close\r\n\r\n{\"body\":\"é\",\"severity\":\"error\",\"source\":\"harness\",\"title\":\"t\"}"
    );
    assert!(notify_post("http://h", "t", "b").unwrap().request.starts_with("POST /notify HTTP/1.1\r\nHost: h\r\n"));
    assert!(notify_post("https://h/x", "t", "b").is_none());
}

#[test]
fn every_ending_has_its_verdict() {
    let mut c = config();
    c.notify_url = Some("http://localhost:1/n".to_string());
    let mut h = HealthRegistry::new(0);
    let mut s = stimulus("{\"x\":1}");
    assert!(matches!(conclude(&c, &mut h, &s, &Ending::Finished, false, 10), Verdict::Done));

    let hung = || Ending::Failed(DackError::Timeout("hung".to_string()));
    match conclude(&c, &mut h, &s, &hung(), false, 10) {
        Verdict::Retry { attempt, pop_after } => assert_eq!((attempt, pop_after), (1, 15)),
        _ => panic!("a hung wake is tried again"),
    }
    match conclude(&c, &mut h, &s, &hung(), true, 10) {
        Verdict::Fail(f) => {
            assert_eq!(f.entry.run_id, "run-s1-error");
            assert_eq!(f.entry.context_summary, "dispatch failed before completion: timeout: hung");
            let request = f.notice.unwrap().request;
            assert!(request.contains("\"title\":\"cycle failed: s1\"") && request.contains("\"body\":\"timeout: hung\""));
        }
        _ => panic!("a wake that acted is never run again"),
    }
    s.attempts = 3;
    assert!(matches!(conclude(&c, &mut h, &s, &hung(), false, 10), Verdict::Fail(_)));
    match conclude(&c, &mut h, &s, &Ending::Panicked("boom".to_string()), false, 10) {
        Verdict::Fail(f) => {
            assert_eq!(f.entry.context_summary, "dispatch failed before completion: runtime: panic: boom");
            assert!(f.notice.is_none());
        }
        _ => panic!("a panic is a failed wake"),
    }
    let snap = h.snapshot();
    assert_eq!((snap.cycles_ok, snap.cycles_err), (1, 4));
    assert_eq!(snap.stimuli.get("telegram-op").unwrap().last_error.as_deref(), Some("panic: boom"));
}

#[test]
fn a_shutdown_comes_before_a_pause() {
    assert!(matches!(at_boundary(true, Some("1")), Boundary::Exit));
    assert!(matches!(at_boundary(false, Some("1")), Boundary::Idle));
    assert!(matches!(at_boundary(false, Some("")), Boundary::Take));
    assert!(matches!(at_boundary(false, None), Boundary::Take));
}

#[test]
fn a_wall_opens_memory_only_to_the_trusted() {
    let c = config();
    let inline = || vec![CapabilityPrefix::open("mcp__rootai__")];
    let w = wall_for(&c, inline(), &TrustTier::public());
    assert!(!w.long_term_writable);
    assert_eq!(w.read.len(), 1);
    assert_eq!((w.post.len(), w.settle.len()), (1, 1), "an inline server only reads");
    assert_eq!(w.dry_run_block, texts(&["mcp__twitter__post"]));
    assert!(wall_for(&c, vec![], &TrustTier::self_()).long_term_writable);
}

#[test]
fn a_record_shows_what_was_done() {
    let mut r = RecordingResponder::wrap();
    r.record("Read", ToolClass::Read, &value(r#"{"path":"a"}"#), &ActionDecision::Allow);
    assert!(!r.acted_outward());
    r.record("mcp__x__post", ToolClass::Post, &value("{}"), &ActionDecision::Deny("no".to_string()));
    assert!(!r.acted_outward(), "a refused post reached nobody");
    r.record("mcp__x__post", ToolClass::Post, &value("{}"), &ActionDecision::Allow);
    assert!(r.acted_outward());
    let calls = r.take();
    assert_eq!(calls.len(), 3);
    assert_eq!(calls[0].input.as_deref(), Some("{\"path\":\"a\"}"));
    assert_eq!(calls[1].decision, "deny: no");
    assert!(r.take().is_empty() && r.acted_outward());
    assert!(unretryable(false, true, ConsciousnessState::Express));
    assert!(unretryable(false, false, ConsciousnessState::Reflect));
    assert!(!unretryable(false, false, ConsciousnessState::Settle));
    assert!(unretryable(true, false, ConsciousnessState::Perceive), "a set flag is never cleared");
}

#[test]
fn a_long_input_is_cut_between_characters() {
    assert_eq!(shorten("abc"), "abc");
    let exact = "a".repeat(240);
    assert_eq!(shorten(&exact), exact);
    let wide = format!("a{}", "я".repeat(200));
    let cut = shorten(&wide);
    assert_eq!(cut, format!("a{}…", "я".repeat(119)));
}

#[test]
fn sessions_live_and_die() {
    let mut h = Harness::new(config(), None);
    h.sticky_store("k", "s-1", 1000);
    let live = h.sticky_resume("k", 4599).unwrap();
    assert_eq!((live.id.as_str(), live.last_used), ("s-1", 1000));
    assert!(h.sticky_resume("other", 1000).is_none());
    assert!(h.sticky_resume("k", 4600).is_none(), "past its time to live");
    assert!(h.sticky_resume("k", 1001).is_none(), "a stale session is gone");
    h.settle_session(Some("k"), Some("s-2"), 1000, 50);
    assert_eq!(h.sticky_resume("k", 60).unwrap().id, "s-2");
    h.settle_session(Some("k"), Some("s-2"), 1001, 50);
    assert!(h.sticky_resume("k", 60).is_none(), "outgrown");
    h.settle_session(None, Some("s-3"), 0, 50);
    assert!(h.sessions.is_empty());
}

#[test]
fn a_session_key_holds_every_dimension() {
    let dims = texts(&["thread_id", "author_id", "source", "nonsense"]);
    let key = |s: &Stimulus| sticky_session_key("p", &TrustTier::public(), &dims, s);
    assert_eq!(
        key(&stimulus(r#"{"author_id": "u7"}"#)),
        "p|public|thread_id=chat-1,author_id=u7,source=telegram-op,nonsense=_"
    );
    let mut bare = stimulus(r#"{"author_id": 7}"#);
    bare.dedup_key = None;
    assert_eq!(key(&bare), "p|public|thread_id=_,author_id=_,source=telegram-op,nonsense=_");
}

fn stats() -> RunlogStats {
    let mut s = RunlogStats::rebuild(&[]);
    s.record("2026-06-26", "cron", &texts(&["chat-9"]));
    s.record("2026-06-27", "cron", &texts(&["chat-1"]));
    s.record("2026-06-28", "telegram-op", &texts(&["chat-1"]));
    s.record("2026-06-28", "cron", &[]);
    s
}

#[test]
fn the_environment_is_a_map_of_recent_activity() {
    let s = stats();
    assert_eq!(day_histogram(&s.days, 2), "2026-06-28 2 · 2026-06-27 1");
    assert_eq!((trust_abbrev("public"), trust_abbrev("operator_signed"), trust_abbrev("org")), ("pub", "op", "org"));
    let a = append_tag_note("", "chat-9", "old", "public", 0, 0);
    let b = append_tag_note(&a, "chat-9", "likes tea", "public", 60, 0);
    let notes = append_tag_note(&b, "chat-1", "is Ann", "self", 120, 0);
    let mut e = write_runlog(ConsciousnessState::Perceive, &stimulus("{}"), &output(vec![]), vec![], 1, vec![]);
    e.tags = texts(&["chat-1", "wifi", "arrival"]);
    let today = append_entry("", "2026-06-28", &e);
    assert_eq!(
        environment_block(&s, &notes, &today, Some("chat-1"), &runlog_context(), true).unwrap(),
        "Runs/day: 2026-06-28 2 · 2026-06-27 1.\n\
         By source (recent): cron 3 · telegram-op 1.\n\
         This thread (`chat-1`)/day: 2026-06-28 1 · 2026-06-27 1.\n\
         Recent notes (your sticky memory across threads, latest per tag):\n\
         - chat-9 (pub · 1970-01-01 00:01:00 UTC): \"likes tea\" [+1 more]\n\
         This thread's note: \"is Ann\" (self · 1970-01-01 00:02:00 UTC).\n\
         This thread's co-tags: wifi, arrival."
    );
    let quiet = environment_block(&RunlogStats::rebuild(&[]), "", "", Some("t"), &runlog_context(), false).unwrap();
    assert_eq!(quiet, "This thread (`t`): no runs recorded yet.");
    assert!(environment_block(&RunlogStats::rebuild(&[]), "", "", None, &runlog_context(), true).is_none());
}

#[test]
fn a_resumed_session_hears_what_else_happened() {
    let e = write_runlog(ConsciousnessState::Perceive, &stimulus("{}"), &output(vec![]), vec![], 2, vec![]);
    let day = append_entry("", "2026-06-28", &e);
    let notes = append_tag_note("", "chat-9", "likes tea", "public", 1600, 0);
    assert_eq!(
        environment_recent_block(&day, &notes, 1000).unwrap(),
        "Other runs since you last woke:\nrun-s1-perceive-b2 · Perceive · OK — source=telegram-op \
         type=telegram_message directive_tier=TrustTier(\"self\") payload_tier=TrustTier(\"self\")\n\n\
         New notes:\n- chat-9: \"likes tea\" (public)"
    );
    assert!(environment_recent_block(&day, &notes, 1600).is_none());
}

#[test]
fn a_thread_is_shown_by_its_tag() {
    let e = write_runlog(
        ConsciousnessState::Perceive,
        &stimulus(r#"{"text":"SECRET"}"#),
        &output(vec![]),
        vec![],
        1,
        texts(&["chat-1"]),
    );
    let today = append_entry("", "2026-06-28", &e);
    let s = RunlogStats::rebuild(&[]);
    let h = History { stats: &s, catalogue: "", yesterday: "", today: &today };
    let cfg = RunlogContext { environment: 0, ..runlog_context() };
    let fresh = runlog_blocks(&h, Some("chat-1"), ConsciousnessState::Perceive, None, &cfg, 2000);
    assert_eq!(fresh.len(), 1);
    assert!(fresh[0].body.starts_with(
        "Recent history of THIS conversation (tag `chat-1`), oldest→newest:\n\n## run-s1-perceive · Perceive · OK"
    ));
    assert!(fresh[0].trusted && !fresh[0].body.contains("SECRET"));
    assert!(runlog_blocks(&h, Some("chat-2"), ConsciousnessState::Perceive, None, &cfg, 2000).is_empty());
    let resumed = runlog_blocks(&h, Some("chat-1"), ConsciousnessState::Perceive, Some(1000), &cfg, 2000);
    let labels: Vec<&str> = resumed.iter().map(|b| b.label.as_str()).collect();
    assert_eq!(labels, vec!["environment-recent", "thread-recent"]);
    let late = runlog_blocks(&h, Some("chat-1"), ConsciousnessState::Perceive, Some(1000), &cfg, 6000);
    assert_eq!(late.len(), 1, "older than the lookback");
}

#[test]
fn the_safe_view_does_not_depend_on_the_payload() {
    let entry = |payload: &str| {
        let mut e =
            write_runlog(ConsciousnessState::Express, &stimulus(payload), &output(vec![]), vec![], 1, vec![]);
        e.output.as_mut().unwrap().proposal = Some(Proposal {
            intent: Intent::Reply,
            gist: "two\nlines".to_string(),
            refs: TextMap::new(),
        });
        e
    };
    let log = |payload: &str| {
        let one = append_entry("", "2026-06-28", &entry(payload));
        append_entry(&one, "2026-06-28", &entry("{}"))
    };
    let a = filter_entries(&log(r###"{"t":"## fake\n- timestamp: 9\n```"}"###), None, 10, None);
    let b = filter_entries(&log("{}"), None, 10, None);
    assert_eq!(a, b);
    assert!(a.contains("- proposal: Reply — two\nlines"));
    assert_eq!(entries_meta(&log("[1]")).len(), 2);
}

#[test]
fn a_failure_is_written_down_with_its_conversation() {
    let e = log_dispatch_failure(&stimulus("{}"), &DackError::Queue("locked".to_string()));
    let day = append_entry("", "2026-06-28", &e);
    let metas = entries_meta(&day);
    assert_eq!(metas.len(), 1);
    assert_eq!(metas[0].tags, texts(&["chat-1"]));
    assert_eq!(
        metas[0].heading,
        "run-s1-error · Perceive · ERROR: queue: locked — dispatch failed before completion: queue: locked"
    );
}

#[test]
fn run_ids_tell_the_steps_of_a_wake_apart() {
    let s = stimulus("{}");
    assert_eq!(run_id_of(&s, ConsciousnessState::Perceive, 1), "run-s1-perceive");
    assert_eq!(run_id_of(&s, ConsciousnessState::Express, 2), "run-s1-express-b2");
    assert_eq!(run_id_of(&s, ConsciousnessState::Express, 12), "run-s1-express-b12");
}

#[test]
fn a_step_is_tagged_once() {
    let b = Baton {
        gist: "g".to_string(),
        refs: TextMap::new(),
        directive_tier: TrustTier::self_(),
        payload_tier: TrustTier::public(),
        runlog_ref: "r#1".to_string(),
        thoughts: String::new(),
        tags: texts(&["chat-1", "wifi", "wifi"]),
    };
    let p = prompt("express", ConsciousnessState::Express);
    assert_eq!(runlog_tags(&p, &stimulus("{}"), &StepInput::Act(b)), texts(&["chat-1", "wifi"]));
    let mut quiet = prompt("express", ConsciousnessState::Express);
    quiet.context.tag_key = false;
    assert!(runlog_tags(&quiet, &stimulus("{}"), &StepInput::Entry).is_empty());
}

#[test]
fn blocks_say_what_a_step_may_do() {
    let mut servers = TextMap::new();
    let p = prompt("express", ConsciousnessState::Express);
    let o = orientation_block(&p, "/soul", &servers, &TrustTier::public(), ConsciousnessState::Express, 0);
    assert_eq!(
        o.body,
        "now: 1970-01-01 00:00:00 UTC (Thu) (authoritative — this is the real current time)\n\
         state: Express (prompt `express`)\nworking_dir: /soul\n\
         capabilities_this_step: none this step (built-in file tools only)\n\
         cycle_trust: public -> may reach up to: Express\n\
         next_steps: see the allowed-transitions block."
    );
    servers.insert("twitter", McpConfig::Http { url: "https://x".to_string(), headers: TextMap::new() });
    servers.insert("recall", McpConfig::Http { url: "https://r".to_string(), headers: TextMap::new() });
    let o = orientation_block(&p, "/soul", &servers, &TrustTier::public(), ConsciousnessState::Express, 0);
    assert!(o.body.contains("capabilities_this_step: mcp__recall__*, mcp__twitter__*\n"));

    let mut refs = TextMap::new();
    refs.put("source_chat_id", "7");
    let b = Baton {
        gist: "greet".to_string(),
        refs,
        directive_tier: TrustTier::self_(),
        payload_tier: TrustTier::public(),
        runlog_ref: "runlogs/d.md#r".to_string(),
        thoughts: "private".to_string(),
        tags: vec![],
    };
    assert_eq!(
        baton_block(&b).body,
        "gist: greet\nrefs (harness-provided):\n  source_chat_id: 7\n(directive_tier=TrustTier(\"self\") \
         payload_tier=TrustTier(\"public\") runlog_ref=runlogs/d.md#r)"
    );
    assert!(transitions_block(&[]).body.starts_with("This is a terminal step"));
    let t = transitions_block(&texts(&["express", "settle"]));
    assert!(t.body.ends_with("Allowed next state-prompts:\n  - express\n  - settle"));
}

#[test]
fn a_system_message_is_soul_and_frame() {
    let mut p = prompt("x", ConsciousnessState::Settle);
    assert_eq!(system_prompt_for_prompt(&p, "  "), "You are a DACK actor in the Settle state (x).");
    assert_eq!(system_prompt_for_prompt(&p, " soul \n"), " soul");
    p.system_frame = " frame ".to_string();
    assert_eq!(system_prompt_for_prompt(&p, ""), "frame");
    assert_eq!(system_prompt_for_prompt(&p, "soul\n"), "soul\n\n---\n\nframe");
    assert_eq!(invoke_timeout_override(&config(), ConsciousnessState::Reflect), Some(900));
    assert_eq!(invoke_timeout_override(&config(), ConsciousnessState::Settle), None);
}

fn server(name: &str, tier: CapabilityTier, secret: Option<&str>) -> McpServerConfig {
    McpServerConfig {
        name: name.to_string(),
        transport: McpTransport::Http { url: "https://h".to_string() },
        auth: secret.map(|s| McpAuth {
            secret: s.to_string(),
            key: None,
            header: None,
            scheme: None,
            env: None,
        }),
        tier,
        tools: vec![],
        trust: TrustTier::self_(),
        min_trust: None,
        scope_env: TextMap::new(),
        env: TextMap::new(),
    }
}

#[test]
fn only_admitted_servers_need_their_secrets() {
    let mut c = config();
    let mut gated = server("gated", CapabilityTier::Read, Some("g"));
    gated.min_trust = Some(TrustTier::self_());
    c.mcp_servers = vec![
        server("a", CapabilityTier::Read, Some("sa")),
        server("b", CapabilityTier::Settle, Some("sb")),
        server("open", CapabilityTier::Read, None),
        server("denied", CapabilityTier::Read, Some("sd")),
        gated,
    ];
    c.tier_policy.perceive.import = texts(&["a", "b", "open", "denied", "gated", "absent"]);
    c.tier_policy.perceive.deny = texts(&["denied"]);
    let mut p = prompt("p", ConsciousnessState::Perceive);
    p.mcp = ["gated", "absent", "denied", "b", "open", "a"].iter().map(|n| McpRef::Import(n.to_string())).collect();
    assert_eq!(needed_secrets(&p, &c, &TrustTier::public()), texts(&["sa"]));
    assert_eq!(needed_secrets(&p, &c, &TrustTier::self_()), texts(&["g", "sa"]));
    assert!(import_server(&c, ConsciousnessState::Settle, &TrustTier::self_(), "b").is_none(), "not imported there");
    assert_eq!(mcp_server_of("mcp__cove-read__get__x").as_deref(), Some("cove-read"));
    assert_eq!(mcp_server_of("mcp__broken"), None);
    assert_eq!(mcp_server_of("Read"), None);
}

#[test]
fn a_reply_goes_to_scalars_only() {
    let s = origin_reply_scope(&value(r#"{"chat_id": 7, "items": [1], "meta": {"a": 1}, "n": null}"#)).unwrap();
    assert_eq!(s.to_string(), "{\"chat_id\":7,\"n\":null}");
    assert!(origin_reply_scope(&value(r#"{"items": []}"#)).is_none());
    assert!(origin_reply_scope(&value("[1]")).is_none());
}

#[test]
fn a_directive_has_two_halves() {
    let d = split_resume("full teaching\n---resume---\nlean cue\n");
    assert_eq!((d.fresh.as_str(), d.resume.as_deref()), ("full teaching", Some("lean cue")));
    let whole = split_resume("all of it");
    assert_eq!((whole.fresh.as_str(), whole.resume), ("all of it", None));
}

#[test]
fn skills_are_listed_in_order() {
    assert_eq!(collapse_ws("  a \n\t b  "), "a b");
    assert_eq!(skill_dir("skills/cove/SKILL.md").as_deref(), Some("cove"));
    assert_eq!(skill_dir("skills//SKILL.md"), None);
    assert_eq!(skill_dir("skills/a/b/SKILL.md"), None);
    assert_eq!(skill_dir("memory/INDEX.md"), None);
    assert_eq!(split_frontmatter("---\nname: x\n---\nbody").unwrap().0.trim(), "name: x");
    assert!(split_frontmatter("---\nname: x\nbody").is_none());
    let skill = |dir: &str, d: &str| Skill { dir: dir.to_string(), name: String::new(), description: d.to_string() };
    let all = vec![skill("z", "last"), skill("m", ""), skill("a", "first")];
    assert_eq!(skills_catalogue(&all), "- a — first\n- z — last");
    assert_eq!(memory_index_head("1\n2\n3", 2), "1\n2");
    assert_eq!(
        self_orientation(&all, "# Index\n"),
        "skills available — your how-to guides; Read `skills/<name>/SKILL.md` before using one:\n- a — first\n\
         - z — last\n\nmemory index (`memory/INDEX.md` — your catalogue; start here, Read entries on demand):\n# Index"
    );
    assert_eq!(self_orientation(&[], "\n"), "");
}

#[test]
fn a_reader_leaves_nothing_behind() {
    let changed = texts(&["a", "memory/x", "memoryless"]);
    let sweep = reconcile_soul(&changed, &texts(&["memory/"]));
    assert_eq!((sweep.allowed, sweep.reverted), (texts(&["memory/x"]), texts(&["a", "memoryless"])));
}

#[test]
fn a_text_map_is_walked_in_order() {
    let mut m = TextMap::new();
    for k in ["b", "", "ab", "é", "a"] {
        m.put(k, k);
    }
    m.put("b", "again");
    let keys: Vec<&str> = (0..m.len()).map(|i| m.key_at(i).as_str()).collect();
    assert_eq!(keys, vec!["", "a", "ab", "b", "é"]);
    assert_eq!(m.get("b").unwrap(), "again");
    assert_eq!(m.remove("ab").as_deref(), Some("ab"));
    assert!(m.get("ab").is_none() && m.len() == 4);
}

#[test]
fn a_kept_prompt_names_its_session() {
    let mut p = prompt("p", ConsciousnessState::Perceive);
    let key = |p: &StatePrompt| dack::harness::sessions::key_of_step(p, &TrustTier::self_(), &stimulus("{}"));
    assert_eq!(key(&p), None);
    p.session = Some(SessionConfig { sticky: false, key: vec![] });
    assert_eq!(key(&p), None);
    p.session = Some(SessionConfig { sticky: true, key: texts(&["source"]) });
    assert_eq!(key(&p).as_deref(), Some("p|self|source=telegram-op"));
}

#[test]
fn a_single_transition_is_one_branch() {
    let mut out = output(vec![]);
    out.transition = Transition { to_prompt: Some("express".to_string()), reason: "r".to_string() };
    let b = out.fan_out();
    assert_eq!(b.len(), 1);
    assert_eq!((b[0].to_prompt.as_str(), b[0].gist.as_str(), b[0].reason.as_str()), ("express", "", "r"));
    assert!(output(vec![]).fan_out().is_empty());
}
