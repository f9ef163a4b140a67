use dack::model::proposal::{read_branch, read_proposal, AgentOutput, Intent};
use dack::model::stimulus::Priority;
use serde_json::Value;

fn value(s: &str) -> Value {
    serde_json::from_str(s).unwrap()
}

fn output(s: &str) -> AgentOutput {
    AgentOutput::from_value(&value(s)).expect("no field shape may fail the parse")
}

fn texts(v: &[&str]) -> Vec<String> {
    v.iter().map(|s| s.to_string()).collect()
}

#[test]
fn model_output_survives_shape_drift_on_every_field() {
    let out = output(
        r#"{
            "thought": "guest asks wifi",
            "tag_notes": [{"tag": "chat-42", "note": "asked wifi"}, {"note": "orphan, no tag"}],
            "batons": [
                {"to_prompt": "express", "gist": "answer", "tags": "chat-42, wifi", "reply_to": 3004, "priority": "critical"},
                {"gist": "no to_prompt — drops alone"}
            ]
        }"#,
    );
    assert_eq!(out.tag_notes.as_ref().unwrap().len(), 1, "malformed note drops alone");
    let b = out.fan_out();
    assert_eq!(b.len(), 1, "unusable baton drops alone; the reply baton survives");
    assert_eq!(b[0].tags, texts(&["chat-42", "wifi"]), "comma-joined string splits");
    assert_eq!(b[0].reply_to.as_deref(), Some("3004"), "numeric reply_to coerces");
    assert_eq!(b[0].priority, None, "hallucinated priority degrades to inherit");
    let good = read_branch(&value(r#"{"to_prompt":"x","priority":"high"}"#)).unwrap();
    assert_eq!(good.priority, Some(Priority::High));

    let out = output(
        r#"{
            "thought": null,
            "proposal": {"gist": "no intent"},
            "spawn": {"agent": "researcher"},
            "transition": "express",
            "batons": "not a list"
        }"#,
    );
    assert_eq!(out.thought, "");
    assert!(out.proposal.is_none());
    assert!(out.spawn.is_none());
    assert_eq!(out.transition.to_prompt.as_deref(), Some("express"));
    assert!(out.batons.is_empty());

    assert!(AgentOutput::from_value(&value("\"just text\"")).is_err());
}

#[test]
fn proposal_parse_tolerates_model_shape_drift() {
    let p = read_proposal(&value(r#"{"intent":"build","gist":"g","refs":["standing-directive: x","ref two"]}"#))
        .expect("array refs + unknown intent must parse");
    assert_eq!(p.intent, Intent::Other);
    assert_eq!(p.refs.get("0").map(String::as_str), Some("standing-directive: x"));
    assert_eq!(p.refs.get("1").map(String::as_str), Some("ref two"));

    let p = read_proposal(&value(r#"{"intent":"delegate","gist":"g","refs":{"k":"v"}}"#)).unwrap();
    assert_eq!(p.intent, Intent::Delegate);
    assert_eq!(p.refs.get("k").map(String::as_str), Some("v"));

    let p = read_proposal(&value(r#"{"intent":"noop","gist":"g","refs":null}"#)).unwrap();
    assert!(p.refs.is_empty());
    let p = read_proposal(&value(r#"{"intent":"noop","gist":"g"}"#)).unwrap();
    assert!(p.refs.is_empty());
}

#[test]
fn fan_out_normalizes_legacy_and_multi() {
    let multi = output(
        r#"{"thought":"t","batons":[
             {"to_prompt":"telegram/express","gist":"reply","reply_to":"42"},
             {"to_prompt":"settle","gist":"trade","priority":"high"}]}"#,
    );
    let b = multi.fan_out();
    assert_eq!(b.len(), 2);
    assert_eq!(b[0].to_prompt, "telegram/express");
    assert_eq!(b[0].reply_to.as_deref(), Some("42"), "reply target parses");
    assert_eq!(b[1].to_prompt, "settle");
    assert!(b[1].reply_to.is_none());
    assert!(matches!(b[1].priority, Some(Priority::High)));

    let legacy = output(
        r#"{"thought":"t","proposal":{"intent":"reply","gist":"g"},
            "transition":{"to_prompt":"express","reason":"r"}}"#,
    );
    let b = legacy.fan_out();
    assert_eq!(b.len(), 1);
    assert_eq!(b[0].to_prompt, "express");
    assert!(b[0].gist.is_empty(), "synthesized branch defers gist to the harness");
    assert!(b[0].reply_to.is_none(), "legacy transition has no reply target");

    let term = output(r#"{"thought":"t","transition":{"to_prompt":null}}"#);
    assert!(term.fan_out().is_empty());
    assert!(AgentOutput::default().fan_out().is_empty());
}

#[test]
fn an_unusable_priority_inherits() {
    for p in ["1", "true", "[\"high\"]", "{}", "null", "\"critical\""] {
        let b = read_branch(&value(&format!("{{\"to_prompt\": \"x\", \"priority\": {p}}}"))).expect("the branch is kept");
        assert_eq!((b.to_prompt.as_str(), b.priority), ("x", None), "{p}");
    }
    let b = read_branch(&value(r#"{"to_prompt": "x", "priority": "URGENT"}"#)).unwrap();
    assert_eq!(b.priority, Some(Priority::Urgent));
    let out = output(r#"{"batons": [{"to_prompt": "x", "priority": 1}]}"#);
    assert_eq!(out.batons.len(), 1);
}

#[test]
fn an_array_is_no_output() {
    assert!(AgentOutput::from_value(&value("[]")).is_err());
    assert!(AgentOutput::from_value(&value("{}")).is_ok());
}
