use dack::classify::classify_tool;
use dack::config::CapabilityPrefix;
use dack::state::ToolClass;
use serde_json::Value;

const POST: &[&str] = &["mcp__twitter__"];
const SETTLE: &[&str] = &["mcp__bankr__", "mcp__dac__", "mcp__cove-trading__"];
const READ: &[&str] = &["mcp__cove-read__"];

fn open(prefixes: &[&str]) -> Vec<CapabilityPrefix> {
    prefixes.iter().copied().map(CapabilityPrefix::open).collect()
}

fn post() -> Vec<CapabilityPrefix> {
    open(POST)
}

fn settle() -> Vec<CapabilityPrefix> {
    open(SETTLE)
}

fn read() -> Vec<CapabilityPrefix> {
    open(READ)
}

fn value(s: &str) -> Value {
    serde_json::from_str(s).unwrap()
}

fn class(tool: &str, input: &str) -> ToolClass {
    classify_tool(tool, &value(input), &settle(), &post(), &read()).0
}

#[test]
fn reads_and_writes_classify() {
    assert_eq!(class("Grep", "{}"), ToolClass::Read);
    let (c, p) = classify_tool("Write", &value(r#"{"file_path": "memory/log.md"}"#), &settle(), &post(), &read());
    assert_eq!(c, ToolClass::FileWrite);
    assert_eq!(p.as_deref(), Some("memory/log.md"));
}

#[test]
fn network_egress_is_its_own_net_class_not_read() {
    assert_eq!(class("WebFetch", r#"{"url": "http://x"}"#), ToolClass::Net);
    assert_eq!(class("WebSearch", r#"{"query": "x"}"#), ToolClass::Net);
    assert_eq!(class("ToolSearch", "{}"), ToolClass::Read);
}

#[test]
fn capabilities_classify_by_prefix() {
    assert_eq!(class("mcp__twitter__post", "{}"), ToolClass::Post);
    assert_eq!(class("mcp__bankr__send", "{}"), ToolClass::SettleTx);
    assert_eq!(class("mcp__cove-read__price", "{}"), ToolClass::Read);
    assert_eq!(class("mcp__cove-trading__buy", "{}"), ToolClass::SettleTx);
}

#[test]
fn twitter_read_and_write_prefixes_dont_collide() {
    let post = open(&["mcp__twitter__"]);
    let read = open(&["mcp__twitter-read__", "mcp__cove-read__"]);
    let s = settle();
    let empty = value("{}");
    assert_eq!(classify_tool("mcp__twitter-read__get_user", &empty, &s, &post, &read).0, ToolClass::Read);
    assert_eq!(
        classify_tool("mcp__twitter__post", &value(r#"{"text": "hi"}"#), &s, &post, &read).0,
        ToolClass::Post
    );
    assert_ne!(classify_tool("mcp__twitter-read__get_thread", &empty, &s, &post, &read).0, ToolClass::Post);
    assert_ne!(classify_tool("mcp__twitter__reply", &empty, &s, &post, &read).0, ToolClass::Read);
}

#[test]
fn server_tool_allowlist_is_fail_closed() {
    let read = vec![CapabilityPrefix {
        prefix: "mcp__cove-read__".to_string(),
        tools: vec!["get_balance".to_string(), "scan_trending_tokens".to_string()],
    }];
    let post = post();
    let settle = settle();
    let empty = value("{}");
    assert_eq!(classify_tool("mcp__cove-read__get_balance", &empty, &settle, &post, &read).0, ToolClass::Read);
    assert_eq!(classify_tool("mcp__cove-read__buy_token", &empty, &settle, &post, &read).0, ToolClass::Other);
}

#[test]
fn runlog_file_reads_are_blocked_but_recall_mcp_and_normal_reads_pass() {
    assert_eq!(class("Glob", r#"{"path": "soul-template", "pattern": "runlogs/**/*"}"#), ToolClass::Other);
    assert_eq!(
        class("Read", r#"{"file_path": "/x/soul-template/runlogs/2026-06-29.md"}"#),
        ToolClass::Other
    );
    assert_eq!(class("Grep", r#"{"path": "runlogs"}"#), ToolClass::Other);
    assert_eq!(class("Read", r#"{"file_path": "memory/social.md"}"#), ToolClass::Read);
    assert_eq!(class("Glob", r#"{"pattern": "runlogs_archive/*"}"#), ToolClass::Read);
    let recall = open(&["mcp__recall-self__", "mcp__recall__"]);
    assert_eq!(
        classify_tool("mcp__recall-self__recent_activity", &value("{}"), &settle(), &post(), &recall).0,
        ToolClass::Read
    );
}

#[test]
fn bash_is_shell_and_unknown_is_other() {
    assert_eq!(class("Bash", r#"{"command": "ls"}"#), ToolClass::Shell);
    assert_eq!(class("SomeFutureTool", "{}"), ToolClass::Other);
}
