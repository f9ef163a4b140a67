//! The one error type of the engine.

use vstd::prelude::*;

verus! {

/// What went wrong, by the seam it came from. `Io`, `Json` and `Yaml` hold the message of the
/// underlying failure.
#[derive(Debug)]
pub enum DackError {
    Io(String),
    Json(String),
    Yaml(String),
    /// Malformed config or control plane.
    Config(String),
    /// A sensor violated its contract or exited non-zero.
    Sensor(String),
    /// The model runtime.
    Runtime(String),
    /// The model invocation exceeded its wall-clock budget: the one failure that is safe to retry
    /// when the wake did nothing outward.
    Timeout(String),
    /// The repo host.
    Repo(String),
    /// The identity provider.
    Identity(String),
    /// A stimulus definition that could not be parsed or registered.
    Stimulus(String),
    /// The durable queue.
    Queue(String),
    /// A tool call that the responder refused.
    Denied(String),
    NotImplemented(String),
}

pub type Result<T> = std::result::Result<T, DackError>;

/// The word an error's message starts with, and its detail.
pub open spec fn parts(e: DackError) -> (Seq<char>, Seq<char>) {
    match e {
        DackError::Io(s) => ("io: "@, s@),
        DackError::Json(s) => ("json: "@, s@),
        DackError::Yaml(s) => ("yaml: "@, s@),
        DackError::Config(s) => ("config: "@, s@),
        DackError::Sensor(s) => ("sensor: "@, s@),
        DackError::Runtime(s) => ("runtime: "@, s@),
        DackError::Timeout(s) => ("timeout: "@, s@),
        DackError::Repo(s) => ("repo: "@, s@),
        DackError::Identity(s) => ("identity: "@, s@),
        DackError::Stimulus(s) => ("stimulus: "@, s@),
        DackError::Queue(s) => ("queue: "@, s@),
        DackError::Denied(s) => ("denied by responder: "@, s@),
        DackError::NotImplemented(s) => ("not implemented (scaffold): "@, s@),
    }
}

/// The message of an error.
pub open spec fn message_of(e: DackError) -> Seq<char> {
    parts(e).0 + parts(e).1
}

impl DackError {
    /// Whether this is a model-invocation timeout.
    pub fn is_timeout(&self) -> (r: bool)
        ensures
            r == (self is Timeout),
    {
        match self {
            DackError::Timeout(_) => true,
            _ => false,
        }
    }

    /// The message shown for this error.
    pub fn message(&self) -> (r: String)
        ensures
            r@ == message_of(*self),
    {
        let (head, detail): (&str, &String) = match self {
            DackError::Io(s) => ("io: ", s),
            DackError::Json(s) => ("json: ", s),
            DackError::Yaml(s) => ("yaml: ", s),
            DackError::Config(s) => ("config: ", s),
            DackError::Sensor(s) => ("sensor: ", s),
            DackError::Runtime(s) => ("runtime: ", s),
            DackError::Timeout(s) => ("timeout: ", s),
            DackError::Repo(s) => ("repo: ", s),
            DackError::Identity(s) => ("identity: ", s),
            DackError::Stimulus(s) => ("stimulus: ", s),
            DackError::Queue(s) => ("queue: ", s),
            DackError::Denied(s) => ("denied by responder: ", s),
            DackError::NotImplemented(s) => ("not implemented (scaffold): ", s),
        };
        let mut r = head.to_owned();
        r.append(detail);
        r
    }
}

/// The message of an error names its kind and then says what was wrong.
pub proof fn an_error_names_its_kind(s: String)
    ensures
        message_of(DackError::Io(s)) == "io: "@ + s@,
        message_of(DackError::Json(s)) == "json: "@ + s@,
        message_of(DackError::Yaml(s)) == "yaml: "@ + s@,
        message_of(DackError::Config(s)) == "config: "@ + s@,
        message_of(DackError::Sensor(s)) == "sensor: "@ + s@,
        message_of(DackError::Runtime(s)) == "runtime: "@ + s@,
        message_of(DackError::Timeout(s)) == "timeout: "@ + s@,
        message_of(DackError::Repo(s)) == "repo: "@ + s@,
        message_of(DackError::Identity(s)) == "identity: "@ + s@,
        message_of(DackError::Stimulus(s)) == "stimulus: "@ + s@,
        message_of(DackError::Queue(s)) == "queue: "@ + s@,
        message_of(DackError::Denied(s)) == "denied by responder: "@ + s@,
        message_of(DackError::NotImplemented(s)) == "not implemented (scaffold): "@ + s@,
{
}

} // verus!
