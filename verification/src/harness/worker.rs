//! Delegated workers: what one is given, what it is kept from, and what comes back.

use serde_json::Value;
use vstd::prelude::*;

use crate::error;
use crate::error::DackError;
use crate::harness::context;
use crate::harness::context::ContextBlock;
use crate::harness::context::ContextView;
use crate::harness::mcp;
use crate::harness::mcp::McpConfig;
use crate::harness::mcp::McpView;
use crate::harness::step;
use crate::harness::step::InvocationRequest;
use crate::harness::step::Mount;
use crate::harness::step::RequestView;
use crate::harness::step::Scope;
use crate::json;
use crate::json::Tree;
use crate::model::proposal::AgentOutput;
use crate::model::proposal::OutputView;
use crate::model::proposal::SpawnRequest;
use crate::text;
use crate::text_map::TextMap;

verus! {

/// A directory that an agent asks to see: where it stands in the soul, and where it is to appear.
#[derive(Debug)]
pub struct VolumeSpec {
    pub source: String,
    pub target: Option<String>,
}

/// An agent as the soul defines it.
#[derive(Debug)]
pub struct AgentDef {
    pub isolation: Option<String>,
    pub model: Option<String>,
    pub tools: Option<Vec<String>>,
    pub volumes: Vec<VolumeSpec>,
    pub prompt: String,
}

/// Whether a worker runs in a container: its agent asks for one, and the runtime has one.
pub open spec fn contained(isolation: Option<Seq<char>>, backend: bool) -> bool {
    isolation == Some("docker"@) && backend
}

/// Whether a worker runs in a container.
pub fn isolated(def: &AgentDef, has_backend: bool) -> (r: bool)
    ensures
        r == contained(text::opt(def.isolation), has_backend),
{
    match &def.isolation {
        Some(i) => text::same(i, "docker") && has_backend,
        None => false,
    }
}

/// The name of a worker's run, which is also that of its directory and its container.
pub open spec fn run_name(agent: Seq<char>, now: i64, seq: u64) -> Seq<char> {
    "dack-worker-"@ + text::replaced(agent, '/', "_"@) + "-"@ + text::decimal(now as int) + "-"@ + text::decimal(
        seq as int,
    )
}

/// The name of a worker's run.
pub fn worker_run_id(agent: &str, now: i64, seq: u64) -> (r: String)
    ensures
        r@ == run_name(agent@, now, seq),
{
    let mut r = "dack-worker-".to_owned();
    let a = text::replace(agent, '/', "_");
    r.append(&a);
    r.append("-");
    let n = text::int_text(now);
    r.append(&n);
    r.append("-");
    let s = text::nat_text(seq as u128);
    r.append(&s);
    r
}

/// The parts of a path that name something.
pub open spec fn named_parts(parts: Seq<Seq<char>>) -> Seq<Seq<char>>
    decreases parts.len(),
{
    if parts.len() == 0 {
        parts
    } else {
        let rest = named_parts(parts.drop_last());
        if parts.last().len() == 0 || parts.last() == "."@ {
            rest
        } else {
            rest.push(parts.last())
        }
    }
}

/// The last name of a path; `vol` for a path that ends in none.
pub open spec fn base_name(path: Seq<char>) -> Seq<char> {
    let n = named_parts(text::pieces(path, '/'));
    if n.len() == 0 || n.last() == ".."@ {
        "vol"@
    } else {
        n.last()
    }
}

fn base_of(path: &str) -> (r: String)
    ensures
        r@ == base_name(path@),
{
    let parts = text::split(path, '/');
    let ghost all = text::views(parts@);
    let mut last: Option<usize> = None;
    let mut i: usize = 0;
    assert(named_parts(all.take(0)).len() == 0);
    while i < parts.len()
        invariant
            i <= parts.len(),
            all == text::views(parts@),
            (match last {
                Some(k) => k < i && named_parts(all.take(i as int)).len() > 0 && named_parts(all.take(i as int)).last()
                    == all[k as int],
                None => named_parts(all.take(i as int)).len() == 0,
            }),
        decreases parts.len() - i,
    {
        assert(all.take(i + 1).drop_last() == all.take(i as int));
        assert(all.take(i + 1).last() == parts@[i as int]@);
        assert(all[i as int] == parts@[i as int]@);
        if !parts[i].as_str().is_empty() && !text::same(&parts[i], ".") {
            last = Some(i);
        }
        i += 1;
    }
    assert(all.take(i as int) == all);
    match last {
        Some(k) => if text::same(&parts[k], "..") {
            "vol".to_owned()
        } else {
            parts[k].clone()
        },
        None => "vol".to_owned(),
    }
}

/// Whether an absolute path stands at or under another one.
pub open spec fn inside(root: Seq<char>, path: Seq<char>) -> bool {
    path == root || (root + "/"@).is_prefix_of(path) || (root == "/"@ && root.is_prefix_of(path))
}

fn stands_inside(root: &str, path: &str) -> (r: bool)
    ensures
        r == inside(root@, path@),
{
    let mut under = root.to_owned();
    under.append("/");
    text::same(path, root) || text::starts_with(path, &under) || (text::same(root, "/") && text::starts_with(
        path,
        root,
    ))
}

/// Where a volume appears: where it is asked to, else under `/mnt`.
pub open spec fn guest_of(v: VolumeSpec) -> Seq<char> {
    match v.target {
        Some(t) => t@,
        None => "/mnt/"@ + base_name(v.source@),
    }
}

/// The mounts of a worker: each volume that resolves to a place inside the soul, and to read only.
/// `hosts` holds the canonical path of each volume, none where there is none.
pub open spec fn mounted(
    root: Seq<char>,
    volumes: Seq<VolumeSpec>,
    hosts: Seq<Option<String>>,
) -> Seq<(Seq<char>, Seq<char>, bool)>
    decreases volumes.len(),
{
    if volumes.len() == 0 {
        Seq::empty()
    } else {
        let rest = mounted(root, volumes.drop_last(), hosts);
        let i = volumes.len() - 1;
        if i < hosts.len() {
            match hosts[i] {
                Some(h) => if inside(root, h@) {
                    rest.push((h@, guest_of(volumes[i]), false))
                } else {
                    rest
                },
                None => rest,
            }
        } else {
            rest
        }
    }
}

/// The mounts of a contained worker, given the canonical path of each volume.
pub fn resolve_worker_volumes(soul_root: &str, volumes: &[VolumeSpec], hosts: &[Option<String>]) -> (r: Vec<Mount>)
    ensures
        step::mount_views(r@) == mounted(soul_root@, volumes@, hosts@),
{
    let mut out: Vec<Mount> = Vec::new();
    let mut i: usize = 0;
    assert(step::mount_views(out@) == mounted(soul_root@, volumes@.take(0), hosts@));
    while i < volumes.len()
        invariant
            i <= volumes.len(),
            step::mount_views(out@) == mounted(soul_root@, volumes@.take(i as int), hosts@),
        decreases volumes.len() - i,
    {
        assert(volumes@.take(i + 1).drop_last() == volumes@.take(i as int));
        assert(volumes@.take(i + 1)[i as int] == volumes@[i as int]);
        if i < hosts.len() {
            if let Some(h) = &hosts[i] {
                if stands_inside(soul_root, h) {
                    let guest = match &volumes[i].target {
                        Some(t) => t.clone(),
                        None => {
                            let mut g = "/mnt/".to_owned();
                            let b = base_of(&volumes[i].source);
                            g.append(&b);
                            g
                        },
                    };
                    let ghost before = out@;
                    let m = Mount { host: h.clone(), guest, writable: false };
                    let ghost mv = (m.host@, m.guest@, m.writable);
                    out.push(m);
                    assert(step::mount_views(out@) == step::mount_views(before).push(mv));
                }
            }
        }
        i += 1;
    }
    assert(volumes@.take(i as int) == volumes@);
    out
}

/// A worker sees nothing outside the soul, and writes none of what it sees of it.
pub proof fn mounts_are_read_only_and_inside(
    root: Seq<char>,
    volumes: Seq<VolumeSpec>,
    hosts: Seq<Option<String>>,
)
    ensures
        forall|i: int|
            0 <= i < mounted(root, volumes, hosts).len() ==> inside(root, (#[trigger] mounted(root, volumes, hosts)[i]).0)
                && !mounted(root, volumes, hosts)[i].2,
    decreases volumes.len(),
{
    if volumes.len() > 0 {
        let d = mounted(root, volumes.drop_last(), hosts);
        let m = mounted(root, volumes, hosts);
        mounts_are_read_only_and_inside(root, volumes.drop_last(), hosts);
        assert forall|i: int| 0 <= i < m.len() implies inside(root, (#[trigger] m[i]).0) && !m[i].2 by {
            if i < d.len() {
                assert(m[i] == d[i]);
            }
        }
    }
}

/// The id of an agent whose file stands at `path`, other than the one being run.
pub open spec fn helper_at(path: Seq<char>, except: Seq<char>) -> Option<Seq<char>> {
    if !"agents/"@.is_prefix_of(path) {
        None
    } else {
        let rest = path.skip("agents/"@.len() as int);
        if !".md"@.is_suffix_of(rest) {
            None
        } else {
            let id = rest.take(rest.len() - ".md"@.len());
            if id == except || id.len() == 0 {
                None
            } else {
                Some(id)
            }
        }
    }
}

/// The id of an agent that a worker may call on; none of the one that is run, or of any other file.
pub fn helper_id(path: &str, except: &str) -> (r: Option<String>)
    ensures
        text::opt(r) == helper_at(path@, except@),
{
    let rest = match text::strip_prefix(path, "agents/") {
        Some(x) => x,
        None => {
            return None;
        },
    };
    match text::strip_suffix(&rest, ".md") {
        Some(id) => if text::same(&id, except) || id.as_str().is_empty() {
            None
        } else {
            Some(id)
        },
        None => None,
    }
}

/// An agent that a worker may call on: its id, its tools, and how it is registered.
pub struct Helper {
    pub id: String,
    pub tools: Option<Vec<String>>,
    pub options: Value,
}

/// Whether an agent may be called on by the one that is run: not by itself.
pub open spec fn may_help(h: Helper, except: Seq<char>) -> bool {
    h.id@ != except && h.id@.len() > 0
}

/// All tools of the agents that may help, each once.
pub open spec fn helper_tools(v: Seq<Helper>, except: Seq<char>) -> Seq<Seq<char>>
    decreases v.len(),
{
    if v.len() == 0 {
        Seq::empty()
    } else {
        let rest = helper_tools(v.drop_last(), except);
        match v.last().tools {
            Some(t) => if may_help(v.last(), except) {
                text::merged(rest, text::views(t@))
            } else {
                rest
            },
            None => rest,
        }
    }
}

/// The agents that may help by their ids; of two of one id the later one stays.
pub open spec fn helper_map(v: Seq<Helper>, except: Seq<char>) -> Map<Seq<char>, Tree>
    decreases v.len(),
{
    if v.len() == 0 {
        Map::empty()
    } else {
        let rest = helper_map(v.drop_last(), except);
        if may_help(v.last(), except) {
            rest.insert(v.last().id@, json::tree(v.last().options))
        } else {
            rest
        }
    }
}

/// What a worker registers: its helpers, and the union of their tools.
pub struct Helpers {
    pub agents: TextMap<Value>,
    pub tools: Vec<String>,
}

/// No helpers at all.
fn no_helpers() -> (r: Helpers)
    ensures
        step::agent_views(r.agents) == Map::<Seq<char>, Tree>::empty(),
        text::views(r.tools@) == Seq::<Seq<char>>::empty(),
{
    let agents: TextMap<Value> = TextMap::new();
    let tools: Vec<String> = Vec::new();
    assert(step::agent_views(agents) == Map::<Seq<char>, Tree>::empty());
    assert(text::views(tools@) == Seq::<Seq<char>>::empty());
    Helpers { agents, tools }
}

/// What a worker registers of the agents that the soul defines: all but the one that is run.
pub fn worker_sub_helper_defs(helpers: &[Helper], except: &str) -> (r: Helpers)
    ensures
        step::agent_views(r.agents) == helper_map(helpers@, except@),
        text::views(r.tools@) == helper_tools(helpers@, except@),
{
    let none = no_helpers();
    let mut agents = none.agents;
    let mut tools = none.tools;
    let mut i: usize = 0;
    assert(helpers@.take(0) == Seq::<Helper>::empty());
    while i < helpers.len()
        invariant
            i <= helpers.len(),
            step::agent_views(agents) == helper_map(helpers@.take(i as int), except@),
            text::views(tools@) == helper_tools(helpers@.take(i as int), except@),
        decreases helpers.len() - i,
    {
        assert(helpers@.take(i + 1).drop_last() == helpers@.take(i as int));
        assert(helpers@.take(i + 1).last() == helpers@[i as int]);
        if !text::same(&helpers[i].id, except) && !helpers[i].id.as_str().is_empty() {
            if let Some(t) = &helpers[i].tools {
                text::merge(&mut tools, t);
            }
            let ghost before = step::agent_views(agents);
            let v = helpers[i].options.clone();
            let ghost t = json::tree(v);
            agents.insert(&helpers[i].id, v);
            assert(step::agent_views(agents) == before.insert(helpers@[i as int].id@, t));
        }
        i += 1;
    }
    assert(helpers@.take(i as int) == helpers@);
    Helpers { agents, tools }
}

/// The model of a worker: the one its agent names, unless it is to inherit the client's.
pub open spec fn worker_model(m: Option<Seq<char>>) -> Option<Seq<char>> {
    if m == Some("inherit"@) {
        None
    } else {
        m
    }
}

/// The tools offered to a worker: its agent's own and those of its helpers, where its agent names any.
pub open spec fn worker_tools(own: Option<Seq<Seq<char>>>, more: Seq<Seq<char>>) -> Option<Seq<Seq<char>>> {
    match own {
        Some(t) => Some(text::merged(t, more)),
        None => None,
    }
}

/// The request of a worker: no secrets, no servers, no session, no context of the agent's. Its helpers
/// are the other agents; a contained one has none, and only it has mounts.
pub open spec fn worker_request(
    def: AgentDef,
    agent: Seq<char>,
    brief: Seq<char>,
    workspace: Seq<char>,
    in_container: bool,
    mounts: Seq<(Seq<char>, Seq<char>, bool)>,
    helpers: Seq<Helper>,
) -> RequestView {
    RequestView {
        system_prompt: def.prompt@ + "\n\n--- TASK BRIEF (from DACK) ---\n"@ + brief,
        scope: Scope::Worker,
        blocks: Seq::empty(),
        session: None,
        workdir: workspace,
        secret_env: Map::empty(),
        mcp_servers: Map::empty(),
        model: worker_model(text::opt(def.model)),
        agents: if in_container {
            Map::empty()
        } else {
            helper_map(helpers, agent)
        },
        isolate: in_container,
        mounts: if in_container {
            mounts
        } else {
            Seq::empty()
        },
        allowed_tools: worker_tools(
            step::opt_views(def.tools),
            if in_container {
                Seq::empty()
            } else {
                helper_tools(helpers, agent)
            },
        ),
        timeout_secs: None,
    }
}

/// Puts the request of a worker together.
pub fn plan_worker(
    def: &AgentDef,
    spawn: &SpawnRequest,
    workspace: &str,
    in_container: bool,
    mounts: Vec<Mount>,
    helpers: &[Helper],
) -> (r: InvocationRequest)
    ensures
        r@ == worker_request(
            *def,
            spawn@.0,
            spawn@.1,
            workspace@,
            in_container,
            step::mount_views(mounts@),
            helpers@,
        ),
{
    let subs = if in_container {
        no_helpers()
    } else {
        worker_sub_helper_defs(helpers, &spawn.agent)
    };
    let ghost more = text::views(subs.tools@);
    let allowed_tools = match &def.tools {
        Some(t) => {
            let mut own = text::copy_all(t);
            text::merge(&mut own, &subs.tools);
            Some(own)
        },
        None => None,
    };
    let model = match &def.model {
        Some(m) => if text::same(m, "inherit") {
            None
        } else {
            Some(m.clone())
        },
        None => None,
    };
    let mut system_prompt = def.prompt.clone();
    system_prompt.append("\n\n--- TASK BRIEF (from DACK) ---\n");
    system_prompt.append(&spawn.brief);
    let blocks: Vec<ContextBlock> = Vec::new();
    assert(context::block_views(blocks@) == Seq::<ContextView>::empty());
    let mcp_servers: TextMap<McpConfig> = TextMap::new();
    assert(mcp::mcp_views(mcp_servers) == Map::<Seq<char>, McpView>::empty());
    let seen = if in_container {
        mounts
    } else {
        let none: Vec<Mount> = Vec::new();
        assert(step::mount_views(none@) == Seq::<(Seq<char>, Seq<char>, bool)>::empty());
        none
    };
    InvocationRequest {
        system_prompt,
        scope: Scope::Worker,
        blocks,
        session: None,
        workdir: workspace.to_owned(),
        secret_env: TextMap::new(),
        mcp_servers,
        model,
        agents: subs.agents,
        isolate: in_container,
        mounts: seen,
        allowed_tools,
        timeout_secs: None,
    }
}

/// A worker holds no key: whatever it is asked and however it is defined, it has no secret in its
/// environment, none of the agent's servers, and none of its context.
pub proof fn a_worker_holds_no_key(
    def: AgentDef,
    agent: Seq<char>,
    brief: Seq<char>,
    workspace: Seq<char>,
    in_container: bool,
    mounts: Seq<(Seq<char>, Seq<char>, bool)>,
    helpers: Seq<Helper>,
)
    ensures
        ({
            let r = worker_request(def, agent, brief, workspace, in_container, mounts, helpers);
            &&& r.scope is Worker
            &&& r.secret_env == Map::<Seq<char>, String>::empty()
            &&& r.mcp_servers == Map::<Seq<char>, McpView>::empty()
            &&& r.blocks == Seq::<ContextView>::empty()
            &&& r.session is None
        }),
{
}

proof fn lemma_no_self_help(helpers: Seq<Helper>, except: Seq<char>)
    ensures
        !helper_map(helpers, except).dom().contains(except),
    decreases helpers.len(),
{
    if helpers.len() > 0 {
        lemma_no_self_help(helpers.drop_last(), except);
    }
}

/// A worker never calls on itself: the agent that is run is none of its own helpers.
pub proof fn a_worker_is_not_its_own_helper(
    def: AgentDef,
    agent: Seq<char>,
    brief: Seq<char>,
    workspace: Seq<char>,
    in_container: bool,
    mounts: Seq<(Seq<char>, Seq<char>, bool)>,
    helpers: Seq<Helper>,
)
    ensures
        !worker_request(def, agent, brief, workspace, in_container, mounts, helpers).agents.dom().contains(agent),
{
    lemma_no_self_help(helpers, agent);
}

/// The directory that a worker's paths are taken against: where the worker really runs.
pub fn wall_root(in_container: bool, guest: Option<&str>, workspace: &str) -> (r: String)
    ensures
        r@ == (match text::opt_str(guest) {
            Some(g) => if in_container {
                g
            } else {
                workspace@
            },
            None => workspace@,
        }),
{
    match guest {
        Some(g) => if in_container {
            g.to_owned()
        } else {
            workspace.to_owned()
        },
        None => workspace.to_owned(),
    }
}

/// How the delegation to a worker ended.
pub enum WorkerEnd {
    /// The soul defines no such agent.
    NoAgent,
    /// The agent's file could not be read.
    BadDef(DackError),
    /// No directory to work in.
    NoWorkspace(String),
    Failed(DackError),
    Ran(AgentOutput),
}

/// What a worker that ran has to say: the gist of its proposal, else its thought.
pub open spec fn said(out: OutputView) -> Seq<char> {
    match out.proposal {
        Some(p) => if text::blank(p.gist) {
            out.thought
        } else {
            p.gist
        },
        None => out.thought,
    }
}

/// What comes back of a worker, however it ended.
pub open spec fn outcome(agent: Seq<char>, end: WorkerEnd) -> Seq<char> {
    match end {
        WorkerEnd::NoAgent => "ERROR: no agent `"@ + agent + "` in agents/"@,
        WorkerEnd::BadDef(e) => "ERROR: bad agent def: "@ + error::message_of(e),
        WorkerEnd::NoWorkspace(e) => "ERROR: workspace: "@ + e@,
        WorkerEnd::Failed(e) => "ERROR: worker run failed: "@ + error::message_of(e),
        WorkerEnd::Ran(out) => said(out@),
    }
}

/// What comes back of a worker, however it ended: the agent always learns of it.
pub fn worker_summary(agent: &str, end: &WorkerEnd) -> (r: String)
    ensures
        r@ == outcome(agent@, *end),
{
    match end {
        WorkerEnd::NoAgent => {
            let mut r = "ERROR: no agent `".to_owned();
            r.append(agent);
            r.append("` in agents/");
            r
        },
        WorkerEnd::BadDef(e) => {
            let mut r = "ERROR: bad agent def: ".to_owned();
            let m = e.message();
            r.append(&m);
            r
        },
        WorkerEnd::NoWorkspace(e) => {
            let mut r = "ERROR: workspace: ".to_owned();
            r.append(e);
            r
        },
        WorkerEnd::Failed(e) => {
            let mut r = "ERROR: worker run failed: ".to_owned();
            let m = e.message();
            r.append(&m);
            r
        },
        WorkerEnd::Ran(out) => {
            if let Some(p) = &out.proposal {
                let t = text::trim(&p.gist);
                if !t.as_str().is_empty() {
                    return p.gist.clone();
                }
            }
            out.thought.clone()
        },
    }
}

/// A worker is contained where its agent asks for a container and the runtime has one, and only there.
pub proof fn a_container_is_asked_for(isolation: Option<Seq<char>>, backend: bool)
    ensures
        contained(Some("docker"@), true),
        !contained(isolation, false),
        isolation != Some("docker"@) ==> !contained(isolation, backend),
{
}

/// The request of a worker: its agent's prompt with the brief behind it, in its own workspace, on the
/// model its agent names unless it is to inherit, with mounts in a container alone and helpers outside
/// of one alone.
pub proof fn a_worker_is_given_its_brief(
    def: AgentDef,
    agent: Seq<char>,
    brief: Seq<char>,
    workspace: Seq<char>,
    in_container: bool,
    mounts: Seq<(Seq<char>, Seq<char>, bool)>,
    helpers: Seq<Helper>,
)
    ensures
        ({
            let r = worker_request(def, agent, brief, workspace, in_container, mounts, helpers);
            &&& def.prompt@.is_prefix_of(r.system_prompt)
            &&& brief.is_suffix_of(r.system_prompt)
            &&& r.system_prompt.len() == def.prompt@.len() + "\n\n--- TASK BRIEF (from DACK) ---\n"@.len()
                + brief.len()
            &&& r.workdir == workspace
            &&& r.isolate == in_container
            &&& in_container ==> r.mounts == mounts && r.agents == Map::<Seq<char>, Tree>::empty()
            &&& !in_container ==> r.mounts.len() == 0 && r.agents == helper_map(helpers, agent)
            &&& def.model is None ==> r.model is None
            &&& def.model matches Some(m) ==> (m@ == "inherit"@ ==> r.model is None)
            &&& def.model matches Some(m) ==> (m@ != "inherit"@ ==> r.model == Some(m@))
            &&& def.tools is None ==> r.allowed_tools is None
            &&& def.tools matches Some(t) ==> (in_container ==> r.allowed_tools == Some(text::views(t@)))
            &&& def.tools matches Some(t) ==> (!in_container ==> r.allowed_tools == Some(
                text::merged(text::views(t@), helper_tools(helpers, agent)),
            ))
            &&& r.timeout_secs is None
        }),
{
    let r = worker_request(def, agent, brief, workspace, in_container, mounts, helpers);
    let p = def.prompt@;
    assert(r.system_prompt.subrange(0, p.len() as int) == p);
    assert(r.system_prompt.subrange(
        r.system_prompt.len() - brief.len(),
        r.system_prompt.len() as int,
    ) == brief);
}

/// A helper is every other agent that has an id: the one that runs is none, and of two of one id the
/// later stands. Its tools are offered too, where it names any.
pub proof fn every_other_agent_may_help(v: Seq<Helper>, h: Helper, except: Seq<char>)
    ensures
        helper_map(Seq::empty(), except) == Map::<Seq<char>, Tree>::empty(),
        h.id@ == except || h.id@.len() == 0 ==> helper_map(v.push(h), except) == helper_map(v, except)
            && helper_tools(v.push(h), except) == helper_tools(v, except),
        h.id@ != except && h.id@.len() > 0 ==> helper_map(v.push(h), except) == helper_map(v, except).insert(
            h.id@,
            json::tree(h.options),
        ),
        h.tools is None ==> helper_tools(v.push(h), except) == helper_tools(v, except),
        h.id@ != except && h.id@.len() > 0 ==> (h.tools matches Some(t) ==> helper_tools(v.push(h), except)
            == text::merged(helper_tools(v, except), text::views(t@))),
        helper_tools(Seq::empty(), except) == Seq::<Seq<char>>::empty(),
{
    assert(v.push(h).drop_last() == v);
}

/// An agent's file stands under `agents/` with its id and `.md` for a name.
pub proof fn an_agent_is_found_by_its_file(id: Seq<char>, except: Seq<char>, path: Seq<char>)
    ensures
        id.len() > 0 && id != except ==> helper_at("agents/"@ + id + ".md"@, except) == Some(id),
        helper_at("agents/"@ + except + ".md"@, except) is None,
        helper_at("agents/"@ + ".md"@, except) is None,
        !"agents/"@.is_prefix_of(path) ==> helper_at(path, except) is None,
        !".md"@.is_suffix_of(path) ==> helper_at(path, except) is None,
{
    lemma_helper_at(id, except);
    lemma_helper_at(except, except);
    lemma_helper_at(Seq::empty(), except);
    assert("agents/"@ + Seq::<char>::empty() + ".md"@ == "agents/"@ + ".md"@);
    if helper_at(path, except) is Some {
        let rest = path.skip("agents/"@.len() as int);
        assert(rest.subrange(rest.len() - ".md"@.len(), rest.len() as int) == path.subrange(
            path.len() - ".md"@.len(),
            path.len() as int,
        ));
    }
}

proof fn lemma_helper_at(id: Seq<char>, except: Seq<char>)
    ensures
        helper_at("agents/"@ + id + ".md"@, except) == (if id == except || id.len() == 0 {
            None
        } else {
            Some(id)
        }),
{
    let a = "agents/"@;
    let p = a + id + ".md"@;
    assert(p.subrange(0, a.len() as int) == a);
    let rest = p.skip(a.len() as int);
    assert(rest == id + ".md"@);
    assert(rest.subrange(rest.len() - ".md"@.len(), rest.len() as int) == ".md"@);
    assert(rest.take(rest.len() - ".md"@.len()) == id);
}

/// Each volume that was found inside the soul is mounted to read, where it is asked to be, or under
/// `/mnt` by the last name of its source; one that was not found, or lies outside, is left out alone.
pub proof fn a_volume_is_mounted_where_it_is_asked(
    root: Seq<char>,
    volumes: Seq<VolumeSpec>,
    v: VolumeSpec,
    hosts: Seq<Option<String>>,
)
    ensures
        mounted(root, Seq::empty(), hosts) == Seq::<(Seq<char>, Seq<char>, bool)>::empty(),
        volumes.len() >= hosts.len() ==> mounted(root, volumes.push(v), hosts) == mounted(root, volumes, hosts),
        volumes.len() < hosts.len() ==> (match hosts[volumes.len() as int] {
            None => mounted(root, volumes.push(v), hosts) == mounted(root, volumes, hosts),
            Some(h) => mounted(root, volumes.push(v), hosts) == (if h@ == root || (root + "/"@).is_prefix_of(h@) || (
            root == "/"@ && root.is_prefix_of(h@)) {
                mounted(root, volumes, hosts).push(
                    (
                        h@,
                        match v.target {
                            Some(t) => t@,
                            None => "/mnt/"@ + base_name(v.source@),
                        },
                        false,
                    ),
                )
            } else {
                mounted(root, volumes, hosts)
            }),
        }),
{
    assert(volumes.push(v).drop_last() == volumes);
}

/// The last name of a path is what stands behind its last slash; slashes at its end do not count, and a
/// path that ends in no name is a volume.
pub proof fn a_path_is_named_by_its_last_part(dir: Seq<char>, name: Seq<char>)
    requires
        !name.contains('/'),
        name.len() > 0,
        name != "."@,
        name != ".."@,
    ensures
        base_name(name) == name,
        base_name(dir + seq!['/'] + name) == name,
        base_name(dir + seq!['/'] + name + seq!['/']) == name,
        base_name(Seq::empty()) == "vol"@,
        base_name(seq!['/']) == "vol"@,
        base_name(dir + seq!['/'] + ".."@) == "vol"@,
{
    let none = Seq::<char>::empty();
    let s = '/';
    reveal_strlit("..");
    reveal_strlit(".");
    text::lemma_one_piece(name, s);
    text::lemma_one_piece(none, s);
    text::lemma_one_piece(".."@, s);
    text::lemma_pieces_concat(dir, name, s);
    text::lemma_pieces_concat(dir, ".."@, s);
    text::lemma_pieces_concat(dir + seq![s] + name, none, s);
    text::lemma_pieces_concat(none, none, s);
    let p = text::pieces(dir, s);
    assert(dir + seq![s] + name + seq![s] + none == dir + seq![s] + name + seq![s]);
    assert(none + seq![s] + none == seq![s]);
    assert((p + seq![name]).drop_last() == p);
    assert((p + seq![".."@]).drop_last() == p);
    assert((p + seq![name] + seq![none]).drop_last() == p + seq![name]);
    assert(seq![name].drop_last() == Seq::<Seq<char>>::empty());
    assert(seq![none].drop_last() == Seq::<Seq<char>>::empty());
    assert((seq![none] + seq![none]).drop_last() == seq![none]);
    reveal_with_fuel(named_parts, 4);
    assert(named_parts(p + seq![name]) == named_parts(p).push(name));
    assert(named_parts(p + seq![name] + seq![none]) == named_parts(p).push(name));
    assert(named_parts(p + seq![".."@]) == named_parts(p).push(".."@));
    assert(named_parts(seq![none]) == Seq::<Seq<char>>::empty());
    assert(named_parts(seq![none] + seq![none]) == Seq::<Seq<char>>::empty());
    assert(named_parts(seq![name]) == seq![name]);
}

/// What a worker has to say is the gist of its proposal, or its thought where that is blank or there is
/// no proposal.
pub proof fn a_worker_says_its_gist(agent: Seq<char>, out: AgentOutput)
    ensures
        out@.proposal matches Some(p) ==> (!text::blank(p.gist) ==> outcome(agent, WorkerEnd::Ran(out)) == p.gist),
        out@.proposal matches Some(p) ==> (text::blank(p.gist) ==> outcome(agent, WorkerEnd::Ran(out))
            == out@.thought),
        out@.proposal is None ==> outcome(agent, WorkerEnd::Ran(out)) == out@.thought,
        outcome(agent, WorkerEnd::NoAgent) == "ERROR: no agent `"@ + agent + "` in agents/"@,
{
}

/// The name of a run is made of its agent, with a bar for each slash, its time and its number.
pub proof fn a_run_is_named_by_its_agent(agent: Seq<char>, now: i64, seq: u64)
    ensures
        run_name(agent, now, seq) == "dack-worker-"@ + agent.map_values(
            |c: char|
                if c == '/' {
                    '_'
                } else {
                    c
                },
        ) + "-"@ + text::decimal(now as int) + "-"@ + text::decimal(seq as int),
{
    reveal_strlit("_");
    assert("_"@ == seq!['_']);
    text::a_replaced_character_keeps_its_place(agent, '/', '_');
}

/// A worker that did not run says what stopped it: its definition, its workspace or the run.
pub proof fn a_worker_says_what_stopped_it(agent: Seq<char>, e: DackError, s: String)
    ensures
        outcome(agent, WorkerEnd::BadDef(e)) == "ERROR: bad agent def: "@ + error::message_of(e),
        outcome(agent, WorkerEnd::NoWorkspace(s)) == "ERROR: workspace: "@ + s@,
        outcome(agent, WorkerEnd::Failed(e)) == "ERROR: worker run failed: "@ + error::message_of(e),
{
}

} // verus!
