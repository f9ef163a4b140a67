//! What a boot checks and decides before the loop runs.

use vstd::prelude::*;

use crate::error::DackError;
use crate::error::Result;
use crate::health::DutyInfo;
use crate::text;
use crate::text_map;
use crate::text_map::TextMap;

verus! {

/// How old a worker's directory is when it is swept, in nanoseconds.
pub const STALE_NANOS: u128 = 21_600_000_000_000;

/// A text without the slashes it ends in.
pub open spec fn without_slashes(s: Seq<char>) -> Seq<char>
    decreases s.len(),
{
    if s.len() > 0 && s.last() == '/' {
        without_slashes(s.drop_last())
    } else {
        s
    }
}

fn strip_slashes(s: &str) -> (r: String)
    ensures
        r@ == without_slashes(s@),
{
    let v = text::chars_of(s);
    let mut n: usize = v.len();
    assert(v@.take(n as int) == v@);
    while n > 0 && v[n - 1] == '/'
        invariant
            n <= v.len(),
            without_slashes(v@.take(n as int)) == without_slashes(v@),
        decreases n,
    {
        assert(v@.take(n as int).drop_last() == v@.take(n - 1));
        n -= 1;
    }
    let r = text::text_of(&v, 0, n);
    assert(r@ == v@.take(n as int));
    r
}

/// Whether an ignore file names a directory on a line of its own.
pub open spec fn ignored(file: Seq<char>, name: Seq<char>) -> bool {
    exists|i: int|
        0 <= i < text::lines(file).len() && without_slashes(text::trimmed(#[trigger] text::lines(file)[i])) == name
}

/// Whether an ignore file names a directory on a line of its own, with or without a slash behind it.
pub fn ignores(file: &str, name: &str) -> (r: bool)
    ensures
        r == ignored(file@, name@),
{
    let lines = text::lines_of(file);
    let ghost all = text::lines(file@);
    let mut i: usize = 0;
    while i < lines.len()
        invariant
            i <= lines.len(),
            text::views(lines@) == all,
            all == text::lines(file@),
            forall|j: int| 0 <= j < i ==> without_slashes(text::trimmed(#[trigger] all[j])) != name@,
        decreases lines.len() - i,
    {
        assert(all[i as int] == lines@[i as int]@);
        let t = text::trim(&lines[i]);
        let s = strip_slashes(&t);
        if text::same(&s, name) {
            return true;
        }
        i += 1;
    }
    assert(text::views(lines@).len() == lines@.len());
    false
}

/// Whether an ignore file that may be missing names a directory.
pub open spec fn ignored_in(file: Option<Seq<char>>, name: Seq<char>) -> bool {
    match file {
        Some(f) => ignored(f, name),
        None => false,
    }
}

fn ignores_in(file: Option<&str>, name: &str) -> (r: bool)
    ensures
        r == ignored_in(text::opt_str(file), name@),
{
    match file {
        Some(f) => ignores(f, name),
        None => false,
    }
}

/// Refuses to boot where the soul would track the runlogs: they are a private repository of their own.
pub fn require_runlogs_ignored(path: &str, file: Option<&str>) -> (r: Result<()>)
    ensures
        (match r {
            Ok(()) => ignored_in(text::opt_str(file), "runlogs"@),
            Err(DackError::Config(m)) => !ignored_in(text::opt_str(file), "runlogs"@) && m@
                == "`runlogs/` must be gitignored in "@ + path@
                + " — runlogs are a separate private repo; the public soul must not track them"@,
            _ => false,
        }),
{
    if ignores_in(file, "runlogs") {
        return Ok(());
    }
    let mut m = "`runlogs/` must be gitignored in ".to_owned();
    m.append(path);
    m.append(" — runlogs are a separate private repo; the public soul must not track them");
    Err(DackError::Config(m))
}

/// How workers are contained, as the operator configures it.
#[derive(Debug)]
pub struct WorkerSandbox {
    pub enabled: bool,
    pub image: String,
    /// Whether a boot without a container is refused.
    pub require: bool,
    pub memory: Option<String>,
    pub pids_limit: Option<u32>,
}

/// Why a configured container cannot be used, before it is probed.
pub open spec fn sandbox_error(ws: WorkerSandbox, path: Seq<char>, file: Option<Seq<char>>) -> Option<Seq<char>> {
    if text::blank(ws.image@) {
        Some(
            "runtime.worker_sandbox.enabled but `image` is empty (build it: docker build -f Dockerfile.worker)"@,
        )
    } else if !ignored_in(file, "workspaces"@) {
        Some(
            "worker_sandbox needs `workspaces/` in "@ + path
                + " — else the soul-integrity tripwire reverts worker output"@,
        )
    } else {
        None
    }
}

/// Whether the container of workers is to be probed: not where it is switched off, and an error where
/// it could not be used safely.
pub fn probe_sandbox(ws: &WorkerSandbox, path: &str, file: Option<&str>) -> (r: Result<bool>)
    ensures
        (match r {
            Ok(probe) => probe == ws.enabled && (probe ==> sandbox_error(*ws, path@, text::opt_str(file)) is None),
            Err(DackError::Config(m)) => ws.enabled && sandbox_error(*ws, path@, text::opt_str(file)) == Some(m@),
            _ => false,
        }),
{
    if !ws.enabled {
        return Ok(false);
    }
    let image = text::trim(&ws.image);
    if image.as_str().is_empty() {
        return Err(
            DackError::Config(
                "runtime.worker_sandbox.enabled but `image` is empty (build it: docker build -f Dockerfile.worker)".to_owned(),
            ),
        );
    }
    if !ignores_in(file, "workspaces") {
        let mut m = "worker_sandbox needs `workspaces/` in ".to_owned();
        m.append(path);
        m.append(" — else the soul-integrity tripwire reverts worker output");
        return Err(DackError::Config(m));
    }
    Ok(true)
}

/// What of the network a container reaches.
#[derive(Clone, Copy, Debug, PartialEq, Eq, Structural)]
pub enum NetworkPolicy {
    Closed,
    Full,
}

/// The container that workers run in: locked down but for the network, which the model needs, and for
/// the user, since shared mounts may not be writable to another.
#[derive(Debug)]
pub struct WorkerBackend {
    pub image: String,
    pub read_only_root: bool,
    pub capabilities_dropped: bool,
    pub network: NetworkPolicy,
    /// The user that the container runs as, if not its image's own.
    pub user: Option<String>,
    pub memory: String,
    pub pids_limit: Option<u32>,
    pub command: Vec<String>,
    pub cwd: String,
}

/// The memory of a container where none is configured.
pub open spec fn memory_of(m: Option<Seq<char>>) -> Seq<char> {
    match m {
        Some(x) => x,
        None => "2g"@,
    }
}

/// The container of a probed configuration: none where it is not there and need not be, an error
/// where it must.
pub fn build_worker_backend(ws: &WorkerSandbox, available: bool) -> (r: Result<Option<WorkerBackend>>)
    ensures
        (match r {
            Ok(Some(b)) => {
                &&& available
                &&& b.image@ == ws.image@
                &&& b.read_only_root && b.capabilities_dropped
                &&& b.network is Full
                &&& b.user is None
                &&& b.memory@ == memory_of(text::opt(ws.memory))
                &&& b.pids_limit == ws.pids_limit
                &&& text::views(b.command@) == seq!["bun"@, "run"@, "/app/openclaude-bridge/bridge.ts"@]
                &&& b.cwd@ == "/workspace"@
            },
            Ok(None) => !available && !ws.require,
            Err(DackError::Config(m)) => !available && ws.require && m@
                == "worker_sandbox.require: Docker or image `"@ + ws.image@
                + "` unavailable — refusing to boot (set require:false to fall back to host)"@,
            _ => false,
        }),
{
    if !available {
        if ws.require {
            let mut m = "worker_sandbox.require: Docker or image `".to_owned();
            m.append(&ws.image);
            m.append("` unavailable — refusing to boot (set require:false to fall back to host)");
            return Err(DackError::Config(m));
        }
        return Ok(None);
    }
    let mut command: Vec<String> = Vec::new();
    command.push("bun".to_owned());
    command.push("run".to_owned());
    command.push("/app/openclaude-bridge/bridge.ts".to_owned());
    assert(text::views(command@) == seq!["bun"@, "run"@, "/app/openclaude-bridge/bridge.ts"@]);
    let memory = match &ws.memory {
        Some(m) => m.clone(),
        None => "2g".to_owned(),
    };
    Ok(
        Some(
            WorkerBackend {
                image: ws.image.clone(),
                read_only_root: true,
                capabilities_dropped: true,
                network: NetworkPolicy::Full,
                user: None,
                memory,
                pids_limit: ws.pids_limit,
                command,
                cwd: "/workspace".to_owned(),
            },
        ),
    )
}

/// How the model is reached.
#[derive(Clone, Copy, Debug, PartialEq, Eq, Structural)]
pub enum Connector {
    Opengateway,
    Anthropic,
}

/// Refuses a connector that is not wired.
pub fn require_wired(connector: Connector) -> (r: Result<()>)
    ensures
        (match r {
            Ok(()) => connector is Opengateway,
            Err(DackError::NotImplemented(m)) => connector is Anthropic && m@
                == "runtime.connector: anthropic — not wired yet (only opengateway). The model channel (options.model) is supported; the env/auth wiring is the TODO."@,
            _ => false,
        }),
{
    match connector {
        Connector::Opengateway => Ok(()),
        Connector::Anthropic => Err(
            DackError::NotImplemented(
                "runtime.connector: anthropic — not wired yet (only opengateway). The model channel (options.model) is supported; the env/auth wiring is the TODO.".to_owned(),
            ),
        ),
    }
}

/// The variables forwarded to the bridge: those named that the host has.
pub open spec fn forwarded(
    host: Map<Seq<char>, Seq<char>>,
    names: Seq<Seq<char>>,
) -> Map<Seq<char>, Seq<char>> {
    Map::new(|k: Seq<char>| host.dom().contains(k) && names.contains(k), |k: Seq<char>| host[k])
}

/// The names that are forwarded: the path, the home, and those that the operator lists.
pub open spec fn bridge_names(listed: Seq<Seq<char>>, more: Seq<Seq<char>>) -> Seq<Seq<char>> {
    seq!["PATH"@, "HOME"@] + listed + more
}

fn forward(env: &mut TextMap<String>, host: &TextMap<String>, names: &[String])
    ensures
        text_map::texts(*final(env)) == text_map::texts(*old(env)).union_prefer_right(
            forwarded(text_map::texts(*host), text::views(names@)),
        ),
{
    let ghost h = text_map::texts(*host);
    assert(h.dom() == host@.dom());
    let ghost all = text::views(names@);
    let ghost start = text_map::texts(*env);
    let mut i: usize = 0;
    assert(start == start.union_prefer_right(forwarded(h, all.take(0))));
    while i < names.len()
        invariant
            i <= names.len(),
            h == text_map::texts(*host),
            h.dom() == host@.dom(),
            all == text::views(names@),
            text_map::texts(*env) == start.union_prefer_right(forwarded(h, all.take(i as int))),
        decreases names.len() - i,
    {
        let ghost before = text_map::texts(*env);
        let ghost k = names@[i as int]@;
        assert(all[i as int] == k);
        assert forall|x: Seq<char>| #[trigger] all.take(i + 1).contains(x) == (all.take(i as int).contains(x) || x == k) by {
            let a = all.take(i + 1);
            let b = all.take(i as int);
            if a.contains(x) {
                let j = choose|j: int| 0 <= j < a.len() && a[j] == x;
                if j < i {
                    assert(b[j] == x);
                }
            }
            if b.contains(x) {
                let j = choose|j: int| 0 <= j < b.len() && b[j] == x;
                assert(a[j] == x);
            }
            assert(a[i as int] == k);
        }
        if let Some(v) = host.get(&names[i]) {
            env.put(&names[i], v);
        }
        i += 1;
        assert(text_map::texts(*env) == start.union_prefer_right(forwarded(h, all.take(i as int))));
    }
    assert(all.take(i as int) == all);
}

/// The environment of the bridge: the host's values of the path, the home and the listed names, then
/// the connector's own, which replace them.
pub fn bridge_env(
    host: &TextMap<String>,
    listed: &[String],
    forwarded_env: &[String],
    overrides: &TextMap<String>,
) -> (r: TextMap<String>)
    ensures
        text_map::texts(r) == forwarded(
            text_map::texts(*host),
            bridge_names(text::views(listed@), text::views(forwarded_env@)),
        ).union_prefer_right(text_map::texts(*overrides)),
{
    let mut names: Vec<String> = Vec::new();
    names.push("PATH".to_owned());
    names.push("HOME".to_owned());
    assert(text::views(names@) == seq!["PATH"@, "HOME"@]);
    let mut a = text::copy_all(listed);
    let mut b = text::copy_all(forwarded_env);
    let ghost n0 = names@;
    names.append(&mut a);
    assert(text::views(names@) == text::views(n0) + text::views(listed@));
    let ghost n1 = names@;
    names.append(&mut b);
    assert(text::views(names@) == text::views(n1) + text::views(forwarded_env@));
    let mut env: TextMap<String> = TextMap::new();
    assert(text_map::texts(env) == Map::<Seq<char>, Seq<char>>::empty());
    forward(&mut env, host, &names);
    let ghost f = forwarded(text_map::texts(*host), text::views(names@));
    assert(text_map::texts(env) == f);
    text_map::put_all(&mut env, overrides);
    env
}

/// What wakes a duty.
#[derive(Debug)]
pub enum Trigger {
    Cron { schedule: String },
    Webhook { path: String },
}

/// A duty as the soul defines it.
#[derive(Debug)]
pub struct Duty {
    pub id: String,
    pub trigger: Trigger,
    pub entry: String,
}

/// A trigger as the roster shows it.
pub open spec fn trigger_text(t: Trigger) -> Seq<char> {
    match t {
        Trigger::Cron { schedule } => "cron "@ + schedule@,
        Trigger::Webhook { path } => "webhook "@ + path@,
    }
}

/// The roster of configured duties, so that one that never fires is seen too.
pub fn roster(duties: &[Duty]) -> (r: Vec<DutyInfo>)
    ensures
        r@.len() == duties@.len(),
        forall|i: int|
            0 <= i < duties@.len() ==> (#[trigger] r@[i]).id@ == duties@[i].id@ && r@[i].entry@ == duties@[i].entry@
                && r@[i].trigger@ == trigger_text(duties@[i].trigger),
{
    let mut out: Vec<DutyInfo> = Vec::new();
    let mut i: usize = 0;
    while i < duties.len()
        invariant
            i <= duties.len(),
            out@.len() == i,
            forall|j: int|
                0 <= j < i ==> (#[trigger] out@[j]).id@ == duties@[j].id@ && out@[j].entry@ == duties@[j].entry@
                    && out@[j].trigger@ == trigger_text(duties@[j].trigger),
        decreases duties.len() - i,
    {
        let trigger = match &duties[i].trigger {
            Trigger::Cron { schedule } => {
                let mut t = "cron ".to_owned();
                t.append(schedule);
                t
            },
            Trigger::Webhook { path } => {
                let mut t = "webhook ".to_owned();
                t.append(path);
                t
            },
        };
        out.push(DutyInfo { id: duties[i].id.clone(), trigger, entry: duties[i].entry.clone() });
        i += 1;
    }
    out
}

/// Whether a worker's directory is left over: last changed more than six hours ago, both times in
/// nanoseconds since the epoch. One whose time is not known stays.
pub fn stale_workspace(modified: Option<u128>, now: u128) -> (r: bool)
    ensures
        r == (modified matches Some(m) && m + STALE_NANOS < now),
{
    match modified {
        Some(m) => now >= STALE_NANOS && m < now - STALE_NANOS,
        None => false,
    }
}

/// Who the soul's commits are attributed to: the soul, or the operator where it has no identity.
pub fn soul_author(soul_did: Option<&str>, operator_did: &str) -> (r: String)
    ensures
        r@ == (match text::opt_str(soul_did) {
            Some(d) => d,
            None => operator_did@,
        }),
{
    match soul_did {
        Some(d) => d.to_owned(),
        None => operator_did.to_owned(),
    }
}

/// A directory is ignored where it stands on a line of its own, whatever blanks stand around it, with or
/// without slashes behind it.
pub proof fn a_directory_is_ignored_by_its_line(file: Seq<char>, name: Seq<char>, i: int)
    requires
        name.len() > 0,
        name.last() != '/',
        text::trimmed(name) == name,
    ensures
        0 <= i < text::lines(file).len() && (text::trimmed(text::lines(file)[i]) == name || text::trimmed(
            text::lines(file)[i],
        ) == name + seq!['/']) ==> ignored_in(Some(file), name),
        !ignored_in(None, name),
        ignored_in(Some(file), name) ==> exists|j: int|
            0 <= j < text::lines(file).len() && name.is_prefix_of(text::trimmed(#[trigger] text::lines(file)[j])),
{
    let slashed = name + seq!['/'];
    assert(slashed.drop_last() == name);
    assert(without_slashes(name) == name);
    assert(without_slashes(slashed) == without_slashes(slashed.drop_last()));
    if ignored_in(Some(file), name) {
        let j = choose|j: int|
            0 <= j < text::lines(file).len() && without_slashes(text::trimmed(#[trigger] text::lines(file)[j]))
                == name;
        lemma_without_slashes(text::trimmed(text::lines(file)[j]));
    }
}

proof fn lemma_without_slashes(s: Seq<char>)
    ensures
        without_slashes(s).is_prefix_of(s),
    decreases s.len(),
{
    if s.len() > 0 && s.last() == '/' {
        lemma_without_slashes(s.drop_last());
        let w = without_slashes(s);
        assert(s.subrange(0, w.len() as int) == s.drop_last().subrange(0, w.len() as int));
    } else {
        assert(s.subrange(0, s.len() as int) == s);
    }
}

/// A container can be used where it has an image and its workspaces are ignored; else the first of the
/// two that is missing is named.
pub proof fn a_container_needs_its_image(ws: WorkerSandbox, path: Seq<char>, file: Option<Seq<char>>)
    ensures
        sandbox_error(ws, path, file) is None <==> !text::blank(ws.image@) && ignored_in(file, "workspaces"@),
        text::blank(ws.image@) ==> (sandbox_error(ws, path, file) matches Some(e)
            && "runtime.worker_sandbox.enabled but `image` is empty"@.is_prefix_of(e)),
        !text::blank(ws.image@) && !ignored_in(file, "workspaces"@) ==> (sandbox_error(ws, path, file) matches Some(e)
            && ("worker_sandbox needs `workspaces/` in "@ + path).is_prefix_of(e)),
{
    reveal_strlit("runtime.worker_sandbox.enabled but `image` is empty");
    reveal_strlit("runtime.worker_sandbox.enabled but `image` is empty (build it: docker build -f Dockerfile.worker)");
    let p = "runtime.worker_sandbox.enabled but `image` is empty"@;
    assert("runtime.worker_sandbox.enabled but `image` is empty (build it: docker build -f Dockerfile.worker)"@.subrange(
        0,
        p.len() as int,
    ) == p);
    let q = "worker_sandbox needs `workspaces/` in "@ + path;
    let e = q + " — else the soul-integrity tripwire reverts worker output"@;
    assert(e.subrange(0, q.len() as int) == q);
}

/// The bridge is given the path, the home and what the operator lists, where the host has it, and nothing
/// else.
pub proof fn only_named_variables_are_forwarded(
    host: Map<Seq<char>, Seq<char>>,
    listed: Seq<Seq<char>>,
    more: Seq<Seq<char>>,
    k: Seq<char>,
)
    ensures
        ({
            let r = forwarded(host, bridge_names(listed, more));
            &&& r.contains_key(k) <==> host.contains_key(k) && (k == "PATH"@ || k == "HOME"@ || listed.contains(k)
                || more.contains(k))
            &&& r.contains_key(k) ==> r[k] == host[k]
        }),
{
    let two = seq!["PATH"@, "HOME"@];
    let all = two + listed + more;
    if all.contains(k) {
        let i = choose|i: int| 0 <= i < all.len() && all[i] == k;
        if i >= 2 && i < 2 + listed.len() {
            assert(listed[i - 2] == k);
        } else if i >= 2 {
            assert(more[i - 2 - listed.len()] == k);
        }
    }
    if listed.contains(k) {
        let i = choose|i: int| 0 <= i < listed.len() && listed[i] == k;
        assert(all[i + 2] == k);
    }
    if more.contains(k) {
        let i = choose|i: int| 0 <= i < more.len() && more[i] == k;
        assert(all[i + 2 + listed.len()] == k);
    }
    assert(all[0] == "PATH"@ && all[1] == "HOME"@);
}

/// A trigger is shown by its kind and by when or where it fires.
pub proof fn a_trigger_is_shown_by_its_kind(s: String)
    ensures
        trigger_text(Trigger::Cron { schedule: s }) == "cron "@ + s@,
        trigger_text(Trigger::Webhook { path: s }) == "webhook "@ + s@,
        memory_of(Some(s@)) == s@,
        memory_of(None) == "2g"@,
{
}

} // verus!
