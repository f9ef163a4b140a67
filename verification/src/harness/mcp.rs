//! Capability servers: which of those that a state-prompt asks for it is given, with what
//! credentials and scope, and what their use does to the cycle's trust.

use serde_json::Value;
use vstd::prelude::*;

use crate::config;
use crate::config::CapabilityPrefix;
use crate::config::CapabilityTier;
use crate::config::DackConfig;
use crate::config::McpAuth;
use crate::config::McpServerConfig;
use crate::config::McpTransport;
use crate::harness::batons;
use crate::json;
use crate::json::Tree;
use crate::model::runlog::CallView;
use crate::model::runlog::ToolCallRecord;
use crate::model::runlog;
use crate::model::stimulus::Stimulus;
use crate::model::stimulus::StimulusView;
use crate::prompt;
use crate::prompt::McpRef;
use crate::prompt::StatePrompt;
use crate::state::ConsciousnessState;
use crate::text;
use crate::text_map;
use crate::text_map::TextMap;
use crate::trust;
use crate::trust::Tiers;
use crate::trust::TrustTier;

verus! {

/// A server as it is handed to the model's runtime. A token stands in a header or a variable here
/// and nowhere in the agent's context.
pub enum McpConfig {
    Http { url: String, headers: TextMap<String> },
    Stdio { command: String, args: Vec<String>, env: TextMap<String> },
}

/// The contents of a server as it is handed over.
#[verifier::ext_equal]
pub enum McpView {
    Http { url: Seq<char>, headers: Map<Seq<char>, Seq<char>> },
    Stdio { command: Seq<char>, args: Seq<Seq<char>>, env: Map<Seq<char>, Seq<char>> },
}

impl View for McpConfig {
    type V = McpView;

    open spec fn view(&self) -> McpView {
        match self {
            McpConfig::Http { url, headers } => McpView::Http {
                url: url@,
                headers: text_map::texts(*headers),
            },
            McpConfig::Stdio { command, args, env } => McpView::Stdio {
                command: command@,
                args: text::views(args@),
                env: text_map::texts(*env),
            },
        }
    }
}

/// The JSON object that a server is handed over as.
pub open spec fn mcp_tree(v: McpView) -> Tree {
    match v {
        McpView::Http { url, headers } => Tree::Object(
            Map::empty().insert("type"@, Tree::Text("http"@)).insert("url"@, Tree::Text(url)).insert(
                "headers"@,
                Tree::Object(headers.map_values(|s: Seq<char>| Tree::Text(s))),
            ),
        ),
        McpView::Stdio { command, args, env } => Tree::Object(
            Map::empty().insert("type"@, Tree::Text("stdio"@)).insert("command"@, Tree::Text(command)).insert(
                "args"@,
                Tree::Array(args.map_values(|s: Seq<char>| Tree::Text(s))),
            ).insert("env"@, Tree::Object(env.map_values(|s: Seq<char>| Tree::Text(s)))),
        ),
    }
}

impl McpConfig {
    /// The JSON object that the model's runtime takes.
    pub fn to_value(&self) -> (r: Value)
        ensures
            json::tree(r) == mcp_tree(self@),
    {
        let mut out: Vec<(String, Value)> = Vec::new();
        proof {
            reveal_with_fuel(json::fields, 5);
        }
        match self {
            McpConfig::Http { url, headers } => {
                out.push(("type".to_owned(), json::of_text("http")));
                out.push(("url".to_owned(), json::of_text(url)));
                out.push(("headers".to_owned(), json::of_texts(headers)));
                assert(out@.drop_last().drop_last().drop_last() == Seq::<(String, Value)>::empty());
                json::of_object(out)
            },
            McpConfig::Stdio { command, args, env } => {
                out.push(("type".to_owned(), json::of_text("stdio")));
                out.push(("command".to_owned(), json::of_text(command)));
                out.push(("args".to_owned(), json::of_list(args)));
                out.push(("env".to_owned(), json::of_texts(env)));
                assert(out@.drop_last().drop_last().drop_last().drop_last() == Seq::<(String, Value)>::empty());
                json::of_object(out)
            },
        }
    }
}

/// The contents of several servers.
pub open spec fn mcp_views(m: TextMap<McpConfig>) -> Map<Seq<char>, McpView> {
    m@.map_values(|c: McpConfig| c@)
}

/// Whether a capability of that tier is given in a state: reads everywhere, posts in Express,
/// settlements only in Settle.
pub open spec fn fits(tier: CapabilityTier, state: ConsciousnessState) -> bool {
    match tier {
        CapabilityTier::Read => true,
        CapabilityTier::Post => state is Express,
        CapabilityTier::Settle => state is Settle,
    }
}

/// Whether a capability of that tier is given in a state.
pub fn tier_fits_state(tier: CapabilityTier, state: ConsciousnessState) -> (r: bool)
    ensures
        r == fits(tier, state),
{
    match tier {
        CapabilityTier::Read => true,
        CapabilityTier::Post => state == ConsciousnessState::Express,
        CapabilityTier::Settle => state == ConsciousnessState::Settle,
    }
}

/// What of the host a server needs: the search path, the home directory, and the absolute form of
/// those arguments that are relative paths.
pub struct HostFacts {
    pub path: Option<String>,
    pub home: Option<String>,
    pub absolute: TextMap<String>,
}

/// An argument in its absolute form, where it has one.
pub open spec fn absolute_arg(host: HostFacts, arg: Seq<char>) -> Seq<char> {
    let m = text_map::texts(host.absolute);
    if m.dom().contains(arg) {
        m[arg]
    } else {
        arg
    }
}

/// The name of the header that carries the token.
pub open spec fn header_of(auth: McpAuth) -> Seq<char> {
    match auth.header {
        Some(h) => h@,
        None => "Authorization"@,
    }
}

/// The scheme in front of the token: the one named, else `Bearer` in the standard header and none in
/// any other.
pub open spec fn scheme_of(auth: McpAuth) -> Seq<char> {
    match auth.scheme {
        Some(s) => s@,
        None => if text::lowered(header_of(auth)) == text::lowered("Authorization"@) {
            "Bearer"@
        } else {
            Seq::empty()
        },
    }
}

/// The value of the header that carries the token.
pub open spec fn header_value(auth: McpAuth, token: Seq<char>) -> Seq<char> {
    if scheme_of(auth).len() == 0 {
        token
    } else {
        scheme_of(auth) + " "@ + token
    }
}

/// The token's variable, where the server takes one.
pub open spec fn token_env(
    m: Map<Seq<char>, Seq<char>>,
    auth: Option<McpAuth>,
    token: Option<Seq<char>>,
) -> Map<Seq<char>, Seq<char>> {
    match (auth, token) {
        (Some(a), Some(t)) => match a.env {
            Some(k) => m.insert(k@, t),
            None => m,
        },
        _ => m,
    }
}

/// A server with its token in place. A process also gets the host's path and home, then the
/// operator's variables, then those of this cycle: a later one replaces an earlier one.
pub open spec fn config_of(
    server: McpServerConfig,
    token: Option<Seq<char>>,
    extra: Map<Seq<char>, Seq<char>>,
    host: HostFacts,
) -> McpView {
    match server.transport {
        McpTransport::Http { url } => McpView::Http {
            url: url@,
            headers: match (server.auth, token) {
                (Some(a), Some(t)) => Map::empty().insert(header_of(a), header_value(a, t)),
                _ => Map::empty(),
            },
        },
        McpTransport::Stdio { command, args } => McpView::Stdio {
            command: command@,
            args: text::views(args@).map_values(|a: Seq<char>| absolute_arg(host, a)),
            env: token_env(
                batons::with(
                    batons::with(Map::empty(), "PATH"@, text::opt(host.path)),
                    "HOME"@,
                    text::opt(host.home),
                ),
                server.auth,
                token,
            ).union_prefer_right(text_map::texts(server.env)).union_prefer_right(extra),
        },
    }
}

fn bearer(auth: &McpAuth, token: &str) -> (r: (String, String))
    ensures
        r.0@ == header_of(*auth),
        r.1@ == header_value(*auth, token@),
{
    let header = match &auth.header {
        Some(h) => h.clone(),
        None => "Authorization".to_owned(),
    };
    let scheme = match &auth.scheme {
        Some(s) => s.clone(),
        None => {
            let a = text::ascii_lower(&header);
            let b = text::ascii_lower("Authorization");
            if text::same(&a, &b) {
                "Bearer".to_owned()
            } else {
                String::new()
            }
        },
    };
    let value = if scheme.as_str().is_empty() {
        token.to_owned()
    } else {
        let mut v = scheme;
        v.append(" ");
        v.append(token);
        v
    };
    (header, value)
}

/// A registered server with its token put into the header or the environment of its transport.
pub fn build_mcp_config(
    server: &McpServerConfig,
    token: Option<&str>,
    extra_env: &TextMap<String>,
    host: &HostFacts,
) -> (r: McpConfig)
    ensures
        r@ == config_of(*server, text::opt_str(token), text_map::texts(*extra_env), *host),
{
    match &server.transport {
        McpTransport::Http { url } => {
            let mut headers: TextMap<String> = TextMap::new();
            assert(text_map::texts(headers) == Map::<Seq<char>, Seq<char>>::empty());
            if let Some(auth) = &server.auth {
                if let Some(tok) = token {
                    let (header, value) = bearer(auth, tok);
                    headers.put(&header, &value);
                }
            }
            McpConfig::Http { url: url.clone(), headers }
        },
        McpTransport::Stdio { command, args } => {
            let ghost want = text::views(args@).map_values(|a: Seq<char>| absolute_arg(*host, a));
            let mut list: Vec<String> = Vec::new();
            let mut i: usize = 0;
            while i < args.len()
                invariant
                    i <= args.len(),
                    want == text::views(args@).map_values(|a: Seq<char>| absolute_arg(*host, a)),
                    text::views(list@) == want.take(i as int),
                decreases args.len() - i,
            {
                let a = match host.absolute.get(&args[i]) {
                    Some(p) => p.clone(),
                    None => args[i].clone(),
                };
                assert(a@ == want[i as int]);
                let ghost before = list@;
                list.push(a);
                assert(text::views(list@) == text::views(before).push(a@));
                i += 1;
                assert(text::views(list@) == want.take(i as int));
            }
            assert(want.take(i as int) == want);
            let mut env: TextMap<String> = TextMap::new();
            assert(text_map::texts(env) == Map::<Seq<char>, Seq<char>>::empty());
            if let Some(p) = &host.path {
                env.put("PATH", p);
            }
            if let Some(h) = &host.home {
                env.put("HOME", h);
            }
            if let Some(auth) = &server.auth {
                if let Some(tok) = token {
                    if let Some(k) = &auth.env {
                        env.put(k, tok);
                    }
                }
            }
            text_map::put_all(&mut env, &server.env);
            text_map::put_all(&mut env, extra_env);
            McpConfig::Stdio { command: command.clone(), args: list, env }
        },
    }
}

/// The value that a scoped variable takes: the conversation for the reserved field, else the field
/// of the chosen message, else of the payload.
pub open spec fn field_value(s: StimulusView, scope: Option<Tree>, field: Seq<char>) -> Option<Seq<char>> {
    if field == "dedup_key"@ {
        s.dedup_key
    } else {
        let chosen = match scope {
            Some(o) => json::member(o, field),
            None => None,
        };
        match (chosen, json::member(s.payload, field)) {
            (Some(v), _) => Some(json::plain(v)),
            (None, Some(v)) => Some(json::plain(v)),
            (None, None) => None,
        }
    }
}

/// The variables that lock a server to this cycle's data: those whose field has a value.
pub open spec fn scoped(
    fields: Map<Seq<char>, Seq<char>>,
    s: StimulusView,
    scope: Option<Tree>,
) -> Map<Seq<char>, Seq<char>> {
    Map::new(
        |var: Seq<char>| fields.dom().contains(var) && field_value(s, scope, fields[var]) is Some,
        |var: Seq<char>| field_value(s, scope, fields[var])->0,
    )
}

fn read_field(stimulus: &Stimulus, scope: Option<&Value>, field: &str) -> (r: Option<String>)
    ensures
        text::opt(r) == field_value(stimulus@, json::ref_tree(scope), field@),
{
    if text::same(field, "dedup_key") {
        return text::opt_copy(&stimulus.dedup_key);
    }
    let chosen = match scope {
        Some(o) => json::get(o, field),
        None => None,
    };
    match chosen {
        Some(v) => Some(json::plain_text(v)),
        None => match json::get(&stimulus.payload, field) {
            Some(v) => Some(json::plain_text(v)),
            None => None,
        },
    }
}

/// The variables that lock a server to this cycle's data.
pub fn scope_variables(fields: &TextMap<String>, stimulus: &Stimulus, scope: Option<&Value>) -> (r: TextMap<String>)
    ensures
        text_map::texts(r) == scoped(text_map::texts(*fields), stimulus@, json::ref_tree(scope)),
{
    let n: usize = fields.len();
    let ghost keys = fields.keys();
    let ghost f = text_map::texts(*fields);
    let ghost want = scoped(f, stimulus@, json::ref_tree(scope));
    let mut r: TextMap<String> = TextMap::new();
    let mut i: usize = 0;
    while i < n
        invariant
            i <= n == keys.len(),
            keys == fields.keys(),
            keys.to_set() == fields@.dom(),
            f == text_map::texts(*fields),
            want == scoped(f, stimulus@, json::ref_tree(scope)),
            forall|k: Seq<char>| #[trigger]
                text_map::texts(r).dom().contains(k) <==> want.dom().contains(k) && keys.take(i as int).contains(k),
            forall|k: Seq<char>| #[trigger]
                text_map::texts(r).dom().contains(k) ==> text_map::texts(r)[k] == want[k],
        decreases n - i,
    {
        let var = fields.key_at(i);
        let field = fields.value_at(i);
        let ghost before = text_map::texts(r);
        assert(f.dom().contains(var@) && f[var@] == field@);
        if let Some(v) = read_field(stimulus, scope, field) {
            r.put(var, &v);
        }
        assert forall|x: Seq<char>| #[trigger] keys.take(i + 1).contains(x) == (keys.take(i as int).contains(x) || x
            == var@) by {
            let a = keys.take(i + 1);
            let b = keys.take(i as int);
            if a.contains(x) {
                let j = choose|j: int| 0 <= j < a.len() && a[j] == x;
                if j < i {
                    assert(b[j] == x);
                }
            }
            if b.contains(x) {
                let j = choose|j: int| 0 <= j < b.len() && b[j] == x;
                assert(a[j] == x);
            }
            assert(a[i as int] == var@);
        }
        i += 1;
    }
    assert(keys.take(i as int) == keys);
    assert forall|k: Seq<char>| #[trigger] keys.contains(k) == f.dom().contains(k) by {
        assert(keys.to_set().contains(k) == fields@.dom().contains(k));
    }
    assert(text_map::texts(r) == want);
    r
}

/// The registered server that a state-prompt is given under a name: not denied, importable and
/// registered, of a tier that fits the state, and within the trust that the cycle has left.
pub open spec fn plugged(config: DackConfig, state: ConsciousnessState, trust: Seq<char>, name: Seq<char>) -> Option<
    McpServerConfig,
> {
    let policy = config.tier_policy.at(state);
    match config::server_named(config.mcp_servers@, name) {
        Some(s) => if !text::views(policy.deny@).contains(name) && text::views(policy.import@).contains(name)
            && fits(s.tier, state) && (s.min_trust matches Some(m) ==> trust::permits(config.lattice@, trust, m@)) {
            Some(s)
        } else {
            None
        },
        None => None,
    }
}

/// The registered server that a state-prompt is given under a name.
pub fn import_server<'a>(
    config: &'a DackConfig,
    state: ConsciousnessState,
    trust: &TrustTier,
    name: &str,
) -> (r: Option<&'a McpServerConfig>)
    ensures
        (match r {
            Some(s) => plugged(*config, state, trust@, name@) == Some(*s),
            None => plugged(*config, state, trust@, name@) is None,
        }),
{
    let policy = config.tier_policy.get(state);
    if text::member(&policy.deny, name) || !text::member(&policy.import, name) {
        return None;
    }
    let server = match config.mcp_server(name) {
        Some(s) => s,
        None => {
            return None;
        },
    };
    if !tier_fits_state(server.tier, state) {
        return None;
    }
    if let Some(min) = &server.min_trust {
        if !config.lattice.permits(trust, min) {
            return None;
        }
    }
    Some(server)
}

/// The provider of the token that a ref needs, where the ref is given a server that has one.
pub open spec fn secret_of(config: DackConfig, state: ConsciousnessState, trust: Seq<char>, r: McpRef) -> Option<
    Seq<char>,
> {
    match r {
        McpRef::Import(name) => match plugged(config, state, trust, name@) {
            Some(s) => match s.auth {
                Some(a) => Some(a.secret@),
                None => None,
            },
            None => None,
        },
        McpRef::Inline { .. } => None,
    }
}

/// The providers of the tokens that some refs need, in order.
pub open spec fn secrets_of(
    config: DackConfig,
    state: ConsciousnessState,
    trust: Seq<char>,
    refs: Seq<McpRef>,
) -> Seq<Seq<char>>
    decreases refs.len(),
{
    if refs.len() == 0 {
        Seq::empty()
    } else {
        let before = secrets_of(config, state, trust, refs.drop_last());
        match secret_of(config, state, trust, refs.last()) {
            Some(s) => before.push(s),
            None => before,
        }
    }
}

/// The providers whose tokens a step needs: only those of servers that it is given.
pub fn needed_secrets(prompt: &StatePrompt, config: &DackConfig, trust: &TrustTier) -> (r: Vec<String>)
    ensures
        text::views(r@) == secrets_of(*config, prompt.state, trust@, prompt.mcp@),
{
    let ghost all = prompt.mcp@;
    let mut r: Vec<String> = Vec::new();
    let mut i: usize = 0;
    assert(text::views(r@) == secrets_of(*config, prompt.state, trust@, all.take(0)));
    while i < prompt.mcp.len()
        invariant
            i <= prompt.mcp.len(),
            all == prompt.mcp@,
            text::views(r@) == secrets_of(*config, prompt.state, trust@, all.take(i as int)),
        decreases prompt.mcp.len() - i,
    {
        assert(all.take(i + 1).drop_last() == all.take(i as int));
        assert(all.take(i + 1).last() == all[i as int]);
        if let McpRef::Import(name) = &prompt.mcp[i] {
            if let Some(server) = import_server(config, prompt.state, trust, name) {
                if let Some(auth) = &server.auth {
                    let ghost before = r@;
                    let s = auth.secret.clone();
                    r.push(s);
                    assert(text::views(r@) == text::views(before).push(s@));
                }
            }
        }
        i += 1;
    }
    assert(all.take(i as int) == all);
    r
}

/// The token among the variables that a provider materialised: the one named, else the first.
pub open spec fn token_of(auth: McpAuth, env: Map<Seq<char>, Seq<char>>) -> Option<Seq<char>> {
    let keys = text_map::in_order(env.dom());
    let key = match auth.key {
        Some(k) => Some(k@),
        None => if keys.len() > 0 {
            Some(keys[0])
        } else {
            None
        },
    };
    match key {
        Some(k) => if env.dom().contains(k) {
            Some(env[k])
        } else {
            None
        },
        None => None,
    }
}

fn pick_token(auth: &McpAuth, env: &TextMap<String>) -> (r: Option<String>)
    ensures
        text::opt(r) == token_of(*auth, text_map::texts(*env)),
{
    let n: usize = env.len();
    assert(text_map::texts(*env).dom() == env@.dom());
    let key = match &auth.key {
        Some(k) => Some(k.clone()),
        None => if n > 0 {
            Some(env.key_at(0).clone())
        } else {
            None
        },
    };
    match key {
        Some(k) => match env.get(&k) {
            Some(v) => Some(v.clone()),
            None => None,
        },
        None => None,
    }
}

/// The variables that each provider materialised; a provider that failed is absent.
pub open spec fn secret_views(m: TextMap<TextMap<String>>) -> Map<Seq<char>, Map<Seq<char>, Seq<char>>> {
    m@.map_values(|e: TextMap<String>| text_map::texts(e))
}

/// What a step is given: its servers, and the prefixes of those declared in place.
#[verifier::ext_equal]
pub struct PluggedView {
    pub servers: Map<Seq<char>, McpView>,
    pub inline_read: Seq<(Seq<char>, Seq<Seq<char>>)>,
}

/// The servers a step is given, and the prefixes of those declared in place, which only read.
pub struct Plugged {
    pub servers: TextMap<McpConfig>,
    pub inline_read: Vec<CapabilityPrefix>,
}

impl View for Plugged {
    type V = PluggedView;

    open spec fn view(&self) -> PluggedView {
        PluggedView {
            servers: mcp_views(self.servers),
            inline_read: config::prefix_views(self.inline_read@),
        }
    }
}

/// All that decides which servers a step is given.
pub struct Request<'a> {
    pub config: &'a DackConfig,
    pub state: ConsciousnessState,
    pub trust: &'a TrustTier,
    pub stimulus: &'a Stimulus,
    pub scope: Option<&'a Value>,
    pub secrets: &'a TextMap<TextMap<String>>,
    pub host: &'a HostFacts,
}

/// What a step is given after one more server was asked for. A registered one without its token is
/// left out; one declared in place is given only where the state is open, reads only, and carries
/// no secret.
pub open spec fn plug(so_far: PluggedView, r: McpRef, q: Request) -> PluggedView {
    let policy = q.config.tier_policy.at(q.state);
    let name = prompt::ref_name(r);
    match r {
        McpRef::Import(_) => match plugged(*q.config, q.state, q.trust@, name) {
            Some(s) => {
                let extra = scoped(text_map::texts(s.scope_env), q.stimulus@, json::ref_tree(q.scope));
                match s.auth {
                    Some(a) => if secret_views(*q.secrets).dom().contains(a.secret@) {
                        let token = token_of(a, secret_views(*q.secrets)[a.secret@]);
                        PluggedView {
                            servers: so_far.servers.insert(name, config_of(s, token, extra, *q.host)),
                            ..so_far
                        }
                    } else {
                        so_far
                    },
                    None => PluggedView {
                        servers: so_far.servers.insert(name, config_of(s, None, extra, *q.host)),
                        ..so_far
                    },
                }
            },
            None => so_far,
        },
        McpRef::Inline { url, .. } => if text::views(policy.deny@).contains(name) || policy.mcp_whitelist {
            so_far
        } else {
            PluggedView {
                servers: so_far.servers.insert(name, McpView::Http { url: url@, headers: Map::empty() }),
                inline_read: so_far.inline_read.push(("mcp__"@ + name + "__"@, Seq::empty())),
            }
        },
    }
}

/// What a step is given of the servers it asks for.
pub open spec fn assembled(refs: Seq<McpRef>, q: Request) -> PluggedView
    decreases refs.len(),
{
    if refs.len() == 0 {
        PluggedView { servers: Map::empty(), inline_read: Seq::empty() }
    } else {
        plug(assembled(refs.drop_last(), q), refs.last(), q)
    }
}

fn plug_import(out: &mut TextMap<McpConfig>, name: &str, q: &Request)
    ensures
        forall|reads: Seq<(Seq<char>, Seq<Seq<char>>)>, r: McpRef|
            r is Import && prompt::ref_name(r) == name@ ==> #[trigger] plug(
                PluggedView { servers: mcp_views(*old(out)), inline_read: reads },
                r,
                *q,
            ) == (PluggedView { servers: mcp_views(*final(out)), inline_read: reads }),
{
    let ghost before = mcp_views(*out);
    let server = match import_server(q.config, q.state, q.trust, name) {
        Some(s) => s,
        None => {
            return;
        },
    };
    let token = match &server.auth {
        Some(auth) => match q.secrets.get(&auth.secret) {
            Some(env) => {
                assert(secret_views(*q.secrets).dom().contains(auth.secret@));
                pick_token(auth, env)
            },
            None => {
                assert(!secret_views(*q.secrets).dom().contains(auth.secret@));
                return;
            },
        },
        None => None,
    };
    let extra = scope_variables(&server.scope_env, q.stimulus, q.scope);
    let tok = match &token {
        Some(t) => Some(t.as_str()),
        None => None,
    };
    let c = build_mcp_config(server, tok, &extra, q.host);
    let ghost cv = c@;
    out.insert(name, c);
    assert(mcp_views(*out) == before.insert(name@, cv));
}

/// Assembles the servers that a state-prompt is given: those it asks for, as far as the operator's
/// policy, the state and the cycle's trust admit them.
pub fn assemble_mcp_servers(prompt: &StatePrompt, q: &Request) -> (r: Plugged)
    ensures
        r@ == assembled(prompt.mcp@, *q),
{
    let policy = q.config.tier_policy.get(q.state);
    let ghost refs = prompt.mcp@;
    let mut servers: TextMap<McpConfig> = TextMap::new();
    let mut inline_read: Vec<CapabilityPrefix> = Vec::new();
    let mut i: usize = 0;
    assert(mcp_views(servers) == assembled(refs.take(0), *q).servers);
    assert(config::prefix_views(inline_read@) == assembled(refs.take(0), *q).inline_read);
    while i < prompt.mcp.len()
        invariant
            i <= prompt.mcp.len(),
            refs == prompt.mcp@,
            *policy == q.config.tier_policy.at(q.state),
            mcp_views(servers) == assembled(refs.take(i as int), *q).servers,
            config::prefix_views(inline_read@) == assembled(refs.take(i as int), *q).inline_read,
        decreases prompt.mcp.len() - i,
    {
        assert(refs.take(i + 1).drop_last() == refs.take(i as int));
        assert(refs.take(i + 1).last() == refs[i as int]);
        let ghost before = assembled(refs.take(i as int), *q);
        let ghost reads = config::prefix_views(inline_read@);
        assert(before == PluggedView { servers: mcp_views(servers), inline_read: reads });
        match &prompt.mcp[i] {
            McpRef::Import(name) => {
                plug_import(&mut servers, name, q);
                assert(plug(before, refs[i as int], *q) == (PluggedView {
                    servers: mcp_views(servers),
                    inline_read: reads,
                }));
            },
            McpRef::Inline { name, url } => {
                if !text::member(&policy.deny, name) && !policy.mcp_whitelist {
                    let headers: TextMap<String> = TextMap::new();
                    assert(text_map::texts(headers) == Map::<Seq<char>, Seq<char>>::empty());
                    let c = McpConfig::Http { url: url.clone(), headers };
                    let ghost cv = c@;
                    let ghost sv = mcp_views(servers);
                    servers.insert(name, c);
                    assert(mcp_views(servers) == sv.insert(name@, cv));
                    let mut p = "mcp__".to_owned();
                    p.append(name);
                    p.append("__");
                    let cp = CapabilityPrefix::open(&p);
                    assert(config::prefix_view(cp).1 == Seq::<Seq<char>>::empty());
                    let ghost old_reads = inline_read@;
                    inline_read.push(cp);
                    assert(config::prefix_views(inline_read@) == config::prefix_views(old_reads).push(
                        config::prefix_view(cp),
                    ));
                }
            },
        }
        i += 1;
    }
    assert(refs.take(i as int) == refs);
    Plugged { servers, inline_read }
}

/// Whether a server that is asked for passes the gates: a registered one is admitted by the operator's
/// policy, the state and the cycle's trust, and its secret is at hand if it needs one; one declared in
/// place is not denied, and the state is open.
pub open spec fn passes_gates(r: McpRef, q: Request) -> bool {
    let name = prompt::ref_name(r);
    let policy = q.config.tier_policy.at(q.state);
    match r {
        McpRef::Import(_) => plugged(*q.config, q.state, q.trust@, name) matches Some(s) && (s.auth matches Some(
            a,
        ) ==> secret_views(*q.secrets).dom().contains(a.secret@)),
        McpRef::Inline { .. } => !text::views(policy.deny@).contains(name) && !policy.mcp_whitelist,
    }
}

/// Whether a server of that name is asked for and passes the gates.
pub open spec fn gated(refs: Seq<McpRef>, q: Request, name: Seq<char>) -> bool {
    exists|i: int|
        0 <= i < refs.len() && prompt::ref_name(#[trigger] refs[i]) == name && passes_gates(refs[i], q)
}

/// Nothing slips past the handshake, and nothing that passes is withheld: the servers that a step is
/// given are exactly those that it asks for and that pass the gates.
pub proof fn every_server_passed_the_gates(refs: Seq<McpRef>, q: Request)
    ensures
        forall|name: Seq<char>| #[trigger] assembled(refs, q).servers.dom().contains(name) == gated(refs, q, name),
    decreases refs.len(),
{
    if refs.len() > 0 {
        let d = refs.drop_last();
        every_server_passed_the_gates(d, q);
        let n = refs.len() - 1;
        assert forall|name: Seq<char>| #[trigger] assembled(refs, q).servers.dom().contains(name) == gated(
            refs,
            q,
            name,
        ) by {
            let before = assembled(d, q).servers.dom().contains(name);
            let last = prompt::ref_name(refs[n]) == name && passes_gates(refs[n], q);
            assert(assembled(refs, q).servers.dom().contains(name) == (before || last));
            if before {
                let i = choose|i: int|
                    0 <= i < d.len() && prompt::ref_name(#[trigger] d[i]) == name && passes_gates(d[i], q);
                assert(refs[i] == d[i]);
            }
            if gated(refs, q, name) && !last {
                let i = choose|i: int|
                    0 <= i < refs.len() && prompt::ref_name(#[trigger] refs[i]) == name && passes_gates(refs[i], q);
                assert(d[i] == refs[i]);
            }
        }
    }
}

/// A settling server is given in Settle alone, and a server with a trust floor only to a cycle that
/// still clears it.
pub proof fn a_registered_server_fits_state_and_trust(
    config: DackConfig,
    state: ConsciousnessState,
    trust: Seq<char>,
    name: Seq<char>,
)
    ensures
        plugged(config, state, trust, name) matches Some(s) ==> {
            &&& s.tier is Settle ==> state is Settle
            &&& s.tier is Post ==> state is Express
            &&& s.min_trust matches Some(m) ==> trust::permits(config.lattice@, trust, m@)
        },
{
}

/// The server that a tool belongs to: what stands between the two marks of its name.
pub open spec fn server_of(tool: Seq<char>) -> Option<Seq<char>> {
    if !"mcp__"@.is_prefix_of(tool) {
        None
    } else {
        before_mark(tool.skip(5))
    }
}

/// What stands in front of the first `__`.
#[verifier::opaque]
pub open spec fn before_mark(s: Seq<char>) -> Option<Seq<char>> {
    if exists|i: int| text::at(s, "__"@, i) {
        let i = choose|i: int| text::at(s, "__"@, i) && forall|j: int| 0 <= j < i ==> !text::at(s, "__"@, j);
        Some(s.take(i))
    } else {
        None
    }
}

/// The server that a tool belongs to; none of a builtin tool.
pub fn mcp_server_of(tool: &str) -> (r: Option<String>)
    ensures
        text::opt(r) == server_of(tool@),
{
    proof {
        reveal_strlit("mcp__");
        reveal(before_mark);
    }
    let rest = match text::strip_prefix(tool, "mcp__") {
        Some(s) => s,
        None => {
            return None;
        },
    };
    match text::find(&rest, "__") {
        Some(i) => {
            let v = text::chars_of(&rest);
            proof {
                let c = choose|c: int|
                    text::at(rest@, "__"@, c) && forall|j: int| 0 <= j < c ==> !text::at(rest@, "__"@, j);
                assert(text::at(rest@, "__"@, i as int));
                assert(c == i);
                reveal_strlit("__");
            }
            let s = text::text_of(&v, 0, i);
            assert(s@ == rest@.take(i as int));
            Some(s)
        },
        None => None,
    }
}

/// The trust of a server's data: its label, or public where it is not registered.
pub open spec fn server_trust(servers: Seq<McpServerConfig>, name: Seq<char>) -> Seq<char> {
    match config::server_named(servers, name) {
        Some(s) => s.trust@,
        None => "public"@,
    }
}

/// The trust of what some tool calls touched: the meet over the servers of those that were allowed.
/// A denied call and a builtin tool touch nothing.
pub open spec fn touched(tiers: Tiers, servers: Seq<McpServerConfig>, calls: Seq<CallView>) -> Option<Seq<char>>
    decreases calls.len(),
{
    if calls.len() == 0 {
        None
    } else {
        let before = touched(tiers, servers, calls.drop_last());
        match call_trust(servers, calls.last()) {
            Some(t) => Some(
                match before {
                    Some(a) => trust::meet(tiers, a, t),
                    None => t,
                },
            ),
            None => before,
        }
    }
}

/// The trust of what one call touched: its server's, where it was allowed and has one.
pub open spec fn call_trust(servers: Seq<McpServerConfig>, c: CallView) -> Option<Seq<char>> {
    match server_of(c.tool) {
        Some(name) => if "allow"@.is_prefix_of(c.decision) {
            Some(server_trust(servers, name))
        } else {
            None
        },
        None => None,
    }
}

/// The trust of what a step touched, by the tools it really called.
pub fn accessed_trust(config: &DackConfig, tool_calls: &[ToolCallRecord]) -> (r: Option<TrustTier>)
    ensures
        (match r {
            Some(t) => touched(config.lattice@, config.mcp_servers@, runlog::call_views(tool_calls@)) == Some(t@),
            None => touched(config.lattice@, config.mcp_servers@, runlog::call_views(tool_calls@)) is None,
        }),
{
    let ghost all = runlog::call_views(tool_calls@);
    let mut acc: Option<TrustTier> = None;
    let mut i: usize = 0;
    assert(all.take(0) == Seq::<CallView>::empty());
    while i < tool_calls.len()
        invariant
            i <= tool_calls.len(),
            all == runlog::call_views(tool_calls@),
            (match acc {
                Some(t) => touched(config.lattice@, config.mcp_servers@, all.take(i as int)) == Some(t@),
                None => touched(config.lattice@, config.mcp_servers@, all.take(i as int)) is None,
            }),
        decreases tool_calls.len() - i,
    {
        assert(all.take(i + 1).drop_last() == all.take(i as int));
        assert(all.take(i + 1).last() == tool_calls@[i as int]@);
        if text::starts_with(&tool_calls[i].decision, "allow") {
            if let Some(name) = mcp_server_of(&tool_calls[i].tool) {
                let t = match config.mcp_server(&name) {
                    Some(s) => s.trust.clone(),
                    None => TrustTier::public(),
                };
                acc = Some(
                    match &acc {
                        Some(a) => config.lattice.meet(a, &t),
                        None => t,
                    },
                );
            }
        }
        i += 1;
    }
    assert(all.take(i as int) == all);
    acc
}

/// A soul cannot grant itself trust: a call to a server that the operator has not registered touches
/// public data.
pub proof fn an_unregistered_server_is_public(servers: Seq<McpServerConfig>, c: CallView, name: Seq<char>)
    requires
        server_of(c.tool) == Some(name),
        config::server_named(servers, name) is None,
        "allow"@.is_prefix_of(c.decision),
    ensures
        call_trust(servers, c) == Some("public"@),
{
}

/// Only what was really called taints: a step whose calls were all refused or went to builtin tools
/// touched nothing.
pub proof fn a_refused_call_taints_nothing(tiers: Tiers, servers: Seq<McpServerConfig>, calls: Seq<CallView>)
    requires
        forall|i: int|
            0 <= i < calls.len() ==> !"allow"@.is_prefix_of((#[trigger] calls[i]).decision) || server_of(
                calls[i].tool,
            ) is None,
    ensures
        touched(tiers, servers, calls) is None,
    decreases calls.len(),
{
    if calls.len() > 0 {
        let d = calls.drop_last();
        assert forall|i: int| 0 <= i < d.len() implies !"allow"@.is_prefix_of((#[trigger] d[i]).decision)
            || server_of(d[i].tool) is None by {
            assert(d[i] == calls[i]);
        }
        a_refused_call_taints_nothing(tiers, servers, d);
        assert(calls.last() == calls[calls.len() - 1]);
    }
}

/// What a step touched is no more trusted than any server it was allowed to call.
pub proof fn taint_is_no_higher_than_any_server(
    tiers: Tiers,
    servers: Seq<McpServerConfig>,
    calls: Seq<CallView>,
    i: int,
)
    requires
        0 <= i < calls.len(),
    ensures
        call_trust(servers, calls[i]) matches Some(c) ==> (touched(tiers, servers, calls) matches Some(t)
            && trust::rank(tiers, t) <= trust::rank(tiers, c)),
    decreases calls.len(),
{
    let before = touched(tiers, servers, calls.drop_last());
    let last = call_trust(servers, calls.last());
    if i < calls.len() - 1 {
        assert(calls.drop_last()[i] == calls[i]);
        taint_is_no_higher_than_any_server(tiers, servers, calls.drop_last(), i);
    }
    if before is Some && last is Some {
        trust::meet_never_raises(tiers, before->0, last->0);
    }
}

/// A state is given what its tier lets it do: reading everywhere, posting in Express and settling in
/// Settle, each nowhere else.
pub proof fn a_tier_fits_its_state(s: ConsciousnessState)
    ensures
        fits(CapabilityTier::Read, s),
        fits(CapabilityTier::Post, s) <==> s == ConsciousnessState::Express,
        fits(CapabilityTier::Settle, s) <==> s == ConsciousnessState::Settle,
{
}

/// A registered server is given exactly where its name is not denied and may be imported, its tier fits
/// the state, and the trust of the cycle clears its floor, if it has one.
pub proof fn a_registered_server_is_given(
    config: DackConfig,
    state: ConsciousnessState,
    trust: Seq<char>,
    name: Seq<char>,
)
    ensures
        config::server_named(config.mcp_servers@, name) is None ==> plugged(config, state, trust, name) is None,
        config::server_named(config.mcp_servers@, name) matches Some(s) ==> plugged(config, state, trust, name) == (
        if !text::views(config.tier_policy.at(state).deny@).contains(name) && text::views(
            config.tier_policy.at(state).import@,
        ).contains(name) && (s.tier is Post ==> state is Express) && (s.tier is Settle ==> state is Settle) && (
        s.min_trust matches Some(m) ==> 0 < trust::rank(config.lattice@, m@) <= trust::rank(config.lattice@, trust)) {
            Some(s)
        } else {
            None
        }),
{
}

/// A token goes to a server of the web in one header: the one named, or the standard one; behind the
/// scheme named, behind `Bearer` in the standard header where none is named, and bare where the scheme
/// is empty or the header is another. Without a token, or without a way to hand it over, there is no
/// header.
pub proof fn a_token_goes_in_its_header(
    server: McpServerConfig,
    url: String,
    a: McpAuth,
    token: Seq<char>,
    extra: Map<Seq<char>, Seq<char>>,
    host: HostFacts,
)
    requires
        server.transport == (McpTransport::Http { url }),
    ensures
        config_of(server, None, extra, host) == (McpView::Http { url: url@, headers: Map::empty() }),
        server.auth is None ==> config_of(server, Some(token), extra, host) == (McpView::Http {
            url: url@,
            headers: Map::empty(),
        }),
        server.auth == Some(a) ==> ({
            let name = match a.header {
                Some(h) => h@,
                None => "Authorization"@,
            };
            let value = match a.scheme {
                Some(s) => if s@.len() == 0 {
                    token
                } else {
                    s@ + " "@ + token
                },
                None => if text::lowered(name) == text::lowered("Authorization"@) {
                    "Bearer "@ + token
                } else {
                    token
                },
            };
            config_of(server, Some(token), extra, host) == (McpView::Http { url: url@, headers: map![name => value] })
        }),
{
    reveal_strlit("Bearer");
    reveal_strlit(" ");
    reveal_strlit("Bearer ");
    assert("Bearer"@ + " "@ == "Bearer "@);
}

/// A server that is a process gets its command and its arguments, relative paths made absolute, and of
/// the variables, under each name, the one of this cycle, else the operator's, else the token's, else
/// the host's path or home.
pub proof fn a_process_gets_its_variables(
    server: McpServerConfig,
    command: String,
    args: Vec<String>,
    token: Option<Seq<char>>,
    extra: Map<Seq<char>, Seq<char>>,
    host: HostFacts,
    k: Seq<char>,
)
    requires
        server.transport == (McpTransport::Stdio { command, args }),
    ensures
        ({
            let own = text_map::texts(server.env);
            let r = config_of(server, token, extra, host);
            &&& r is Stdio
            &&& r->command == command@
            &&& r->args.len() == args@.len()
            &&& forall|i: int|
                0 <= i < args@.len() ==> #[trigger] r->args[i] == (if text_map::texts(host.absolute).contains_key(
                    args@[i]@,
                ) {
                    text_map::texts(host.absolute)[args@[i]@]
                } else {
                    args@[i]@
                })
            &&& extra.contains_key(k) ==> r->env.contains_pair(k, extra[k])
            &&& !extra.contains_key(k) && own.contains_key(k) ==> r->env.contains_pair(k, own[k])
            &&& !extra.contains_key(k) && !own.contains_key(k) ==> {
                let named = server.auth matches Some(a) && (a.env matches Some(e) && e@ == k);
                &&& named && token is Some ==> r->env.contains_pair(k, token->0)
                &&& !(named && token is Some) ==> {
                    &&& k == "HOME"@ ==> (match host.home {
                        Some(h) => r->env.contains_pair(k, h@),
                        None => !r->env.contains_key(k),
                    })
                    &&& k == "PATH"@ ==> (match host.path {
                        Some(p) => r->env.contains_pair(k, p@),
                        None => !r->env.contains_key(k),
                    })
                    &&& k != "HOME"@ && k != "PATH"@ ==> !r->env.contains_key(k)
                }
            }
        }),
{
    reveal_strlit("HOME");
    reveal_strlit("PATH");
    assert("HOME"@[0] == 'H' && "PATH"@[0] == 'P');
}

/// A variable of this cycle takes the conversation for the reserved field, and for any other the field
/// of the chosen message, or of the payload where that has none; one whose field has no value is not
/// set.
pub proof fn a_variable_takes_its_field(
    fields: Map<Seq<char>, Seq<char>>,
    s: StimulusView,
    scope: Option<Tree>,
    var: Seq<char>,
    field: Seq<char>,
)
    requires
        fields.contains_pair(var, field),
    ensures
        field == "dedup_key"@ ==> (match s.dedup_key {
            Some(k) => scoped(fields, s, scope).contains_pair(var, k),
            None => !scoped(fields, s, scope).contains_key(var),
        }),
        field != "dedup_key"@ ==> (scope matches Some(o) ==> (json::member(o, field) matches Some(v) ==> scoped(
            fields,
            s,
            scope,
        ).contains_pair(var, json::plain(v)))),
        field != "dedup_key"@ && (scope matches Some(o) ==> json::member(o, field) is None) ==> (match json::member(
            s.payload,
            field,
        ) {
            Some(v) => scoped(fields, s, scope).contains_pair(var, json::plain(v)),
            None => !scoped(fields, s, scope).contains_key(var),
        }),
        forall|x: Seq<char>| !fields.contains_key(x) ==> !#[trigger] scoped(fields, s, scope).contains_key(x),
{
}

/// The token is the variable that is named, or the first of all where none is; none where the named one
/// is not there, or none are.
pub proof fn a_token_is_the_variable_named(auth: McpAuth, env: Map<Seq<char>, Seq<char>>, k: Seq<char>)
    ensures
        auth.key matches Some(n) ==> (env.contains_key(n@) ==> token_of(auth, env) == Some(env[n@])),
        auth.key matches Some(n) ==> (!env.contains_key(n@) ==> token_of(auth, env) is None),
        auth.key is None && env.dom().finite() && env.contains_key(k) && (forall|o: Seq<char>|
            #[trigger] env.contains_key(o) ==> o == k || text_map::precedes(k, o)) ==> token_of(auth, env) == Some(
            env[k],
        ),
{
    if auth.key is None && env.dom().finite() && env.contains_key(k) && (forall|o: Seq<char>|
        #[trigger] env.contains_key(o) ==> o == k || text_map::precedes(k, o)) {
        text_map::a_set_in_order_holds_its_members(env.dom());
        let keys = text_map::in_order(env.dom());
        assert(keys.contains(k));
        let i = choose|i: int| 0 <= i < keys.len() && keys[i] == k;
        assert(keys.contains(keys[0]));
        assert(env.contains_key(keys[0]));
        if i > 0 {
            assert(text_map::precedes(keys[0], keys[i]));
            text_map::lemma_precedes_transitive(k, keys[0], k);
            text_map::lemma_precedes_irreflexive(k);
        }
    }
}

/// One more server that is asked for changes what a step is given under its own name alone. A registered
/// one that passes comes with its token and the variables of this cycle; one declared in place comes
/// bare, and what it offers is there to read.
pub proof fn one_more_server_is_given(refs: Seq<McpRef>, r: McpRef, q: Request, name: String, url: String)
    ensures
        ({
            let before = assembled(refs, q);
            let after = assembled(refs.push(r), q);
            let policy = q.config.tier_policy.at(q.state);
            &&& assembled(Seq::empty(), q) == (PluggedView { servers: Map::empty(), inline_read: Seq::empty() })
            &&& r == (McpRef::Inline { name, url }) ==> {
                &&& policy.mcp_whitelist || text::views(policy.deny@).contains(name@) ==> after == before
                &&& !policy.mcp_whitelist && !text::views(policy.deny@).contains(name@) ==> {
                    &&& after.servers == before.servers.insert(
                        name@,
                        McpView::Http { url: url@, headers: Map::empty() },
                    )
                    &&& after.inline_read == before.inline_read.push(
                        ("mcp__"@ + name@ + "__"@, Seq::<Seq<char>>::empty()),
                    )
                }
            }
            &&& r == McpRef::Import(name) ==> {
                &&& after.inline_read == before.inline_read
                &&& plugged(*q.config, q.state, q.trust@, name@) is None ==> after == before
                &&& plugged(*q.config, q.state, q.trust@, name@) matches Some(s) ==> {
                    let extra = scoped(text_map::texts(s.scope_env), q.stimulus@, json::ref_tree(q.scope));
                    &&& s.auth is None ==> after.servers == before.servers.insert(
                        name@,
                        config_of(s, None, extra, *q.host),
                    )
                    &&& s.auth matches Some(a) ==> (if secret_views(*q.secrets).contains_key(a.secret@) {
                        after.servers == before.servers.insert(
                            name@,
                            config_of(s, token_of(a, secret_views(*q.secrets)[a.secret@]), extra, *q.host),
                        )
                    } else {
                        after.servers == before.servers
                    })
                }
            }
        }),
{
    assert(refs.push(r).drop_last() == refs);
}

/// The providers that a step's servers need are asked for in the order of the servers: of each
/// registered one that is given and has a token, and of none declared in place.
pub proof fn a_given_server_asks_for_its_token(
    config: DackConfig,
    state: ConsciousnessState,
    trust: Seq<char>,
    refs: Seq<McpRef>,
    name: String,
    url: String,
)
    ensures
        secrets_of(config, state, trust, Seq::empty()) == Seq::<Seq<char>>::empty(),
        secrets_of(config, state, trust, refs.push(McpRef::Inline { name, url })) == secrets_of(
            config,
            state,
            trust,
            refs,
        ),
        plugged(config, state, trust, name@) is None ==> secrets_of(
            config,
            state,
            trust,
            refs.push(McpRef::Import(name)),
        ) == secrets_of(config, state, trust, refs),
        plugged(config, state, trust, name@) matches Some(s) ==> secrets_of(
            config,
            state,
            trust,
            refs.push(McpRef::Import(name)),
        ) == (match s.auth {
            Some(a) => secrets_of(config, state, trust, refs).push(a.secret@),
            None => secrets_of(config, state, trust, refs),
        }),
{
    assert(refs.push(McpRef::Inline { name, url }).drop_last() == refs);
    assert(refs.push(McpRef::Import(name)).drop_last() == refs);
}

/// A tool belongs to the server that its name bears between its two marks; a tool without them belongs
/// to none.
pub proof fn a_tool_bears_its_server(name: Seq<char>, tool: Seq<char>, other: Seq<char>)
    requires
        forall|i: int| 0 <= i < name.len() ==> !#[trigger] text::at(name + "__"@ + tool, "__"@, i),
    ensures
        server_of("mcp__"@ + name + "__"@ + tool) == Some(name),
        !"mcp__"@.is_prefix_of(other) ==> server_of(other) is None,
        !text::occurs(other, "__"@) ==> server_of("mcp__"@ + other) is None,
{
    reveal_strlit("mcp__");
    let m = "mcp__"@;
    let s = name + "__"@ + tool;
    let full = m + name + "__"@ + tool;
    assert(full.subrange(0, 5) == m);
    assert(full.skip(5) == s);
    let n = name.len() as int;
    assert(s.subrange(n, n + "__"@.len()) == "__"@);
    assert(text::at(s, "__"@, n));
    lemma_before_mark(s, n);
    assert(s.take(n) == name);
    let o = m + other;
    assert(o.skip(5) == other);
    if !text::occurs(other, "__"@) {
        reveal(before_mark);
        assert(before_mark(other) is None);
    }
}

proof fn lemma_before_mark(s: Seq<char>, n: int)
    requires
        text::at(s, "__"@, n),
        forall|j: int| 0 <= j < n ==> !text::at(s, "__"@, j),
    ensures
        before_mark(s) == Some(s.take(n)),
{
    reveal(before_mark);
    let i = choose|i: int| text::at(s, "__"@, i) && forall|j: int| 0 <= j < i ==> !text::at(s, "__"@, j);
    assert(text::at(s, "__"@, i) && forall|j: int| 0 <= j < i ==> !text::at(s, "__"@, j));
    assert(i == n);
}

/// What a step touched after one more call: a refused call and a call of no server change nothing; an
/// allowed one brings it down to its server's trust, where that ranks lower, and nothing brings it up.
pub proof fn one_more_call_touches_its_server(
    tiers: Tiers,
    servers: Seq<McpServerConfig>,
    calls: Seq<CallView>,
    c: CallView,
    name: Seq<char>,
)
    ensures
        touched(tiers, servers, Seq::empty()) is None,
        !"allow"@.is_prefix_of(c.decision) || server_of(c.tool) is None ==> touched(tiers, servers, calls.push(c))
            == touched(tiers, servers, calls),
        "allow"@.is_prefix_of(c.decision) && server_of(c.tool) == Some(name) ==> ({
            let t = match config::server_named(servers, name) {
                Some(s) => s.trust@,
                None => "public"@,
            };
            match touched(tiers, servers, calls) {
                None => touched(tiers, servers, calls.push(c)) == Some(t),
                Some(a) => touched(tiers, servers, calls.push(c)) == Some(
                    if trust::rank(tiers, t) < trust::rank(tiers, a) {
                        t
                    } else {
                        a
                    },
                ),
            }
        }),
{
    assert(calls.push(c).drop_last() == calls);
}

/// A server is handed over with each of its parts under its own name.
pub proof fn a_server_is_handed_over_whole(
    url: Seq<char>,
    headers: Map<Seq<char>, Seq<char>>,
    command: Seq<char>,
    args: Seq<Seq<char>>,
    env: Map<Seq<char>, Seq<char>>,
)
    ensures
        ({
            let t = mcp_tree(McpView::Http { url, headers });
            &&& json::member(t, "type"@) == Some(Tree::Text("http"@))
            &&& json::member(t, "url"@) == Some(Tree::Text(url))
            &&& json::member(t, "headers"@) == Some(
                Tree::Object(headers.map_values(|s: Seq<char>| Tree::Text(s))),
            )
        }),
        ({
            let t = mcp_tree(McpView::Stdio { command, args, env });
            &&& json::member(t, "type"@) == Some(Tree::Text("stdio"@))
            &&& json::member(t, "command"@) == Some(Tree::Text(command))
            &&& json::member(t, "args"@) == Some(Tree::Array(args.map_values(|s: Seq<char>| Tree::Text(s))))
            &&& json::member(t, "env"@) == Some(Tree::Object(env.map_values(|s: Seq<char>| Tree::Text(s))))
        }),
{
    reveal_strlit("type");
    reveal_strlit("url");
    reveal_strlit("headers");
    reveal_strlit("command");
    reveal_strlit("args");
    reveal_strlit("env");
    assert("type"@[0] == 't' && "url"@[0] == 'u' && "headers"@[0] == 'h' && "command"@[0] == 'c');
    assert("args"@[0] == 'a' && "env"@[0] == 'e');
}

} // verus!
