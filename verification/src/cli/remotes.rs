//! Where the soul and the runlogs are pushed to, and how a runlog repository is brought back.

use vstd::prelude::*;

use crate::text;
use crate::text_map;
use crate::text_map::TextMap;

verus! {

/// How a remote is reached.
#[derive(Clone, Copy, Debug, PartialEq, Eq, Structural)]
pub enum RemoteKind {
    Git,
    Gitlawb,
}

/// Where a remote's token is found.
#[derive(Debug)]
pub struct RemoteAuth {
    pub username: String,
    pub token_env: String,
}

/// A remote as the operator configures it.
#[derive(Debug)]
pub struct SoulRemote {
    pub url: String,
    pub kind: Option<RemoteKind>,
    /// The role whose key signs a push.
    pub identity: Option<String>,
    pub node: Option<String>,
    pub auth: Option<RemoteAuth>,
    /// Whether a failed push is an error.
    pub required: bool,
}

/// Where a repository is pushed to.
#[derive(Debug)]
pub enum PushTarget {
    Gitlawb { name: String, url: String, key_path: String, node: String, required: bool },
    Git { name: String, url: String, token: Option<(String, String)>, required: bool },
}

/// The contents of a target.
#[verifier::ext_equal]
pub enum TargetView {
    Gitlawb { name: Seq<char>, url: Seq<char>, key_path: Seq<char>, node: Seq<char>, required: bool },
    Git { name: Seq<char>, url: Seq<char>, token: Option<(Seq<char>, Seq<char>)>, required: bool },
}

impl View for PushTarget {
    type V = TargetView;

    open spec fn view(&self) -> TargetView {
        match self {
            PushTarget::Gitlawb { name, url, key_path, node, required } => TargetView::Gitlawb {
                name: name@,
                url: url@,
                key_path: key_path@,
                node: node@,
                required: *required,
            },
            PushTarget::Git { name, url, token, required } => TargetView::Git {
                name: name@,
                url: url@,
                token: match token {
                    Some((u, t)) => Some((u@, t@)),
                    None => None,
                },
                required: *required,
            },
        }
    }
}

/// The contents of several targets.
pub open spec fn target_views(v: Seq<PushTarget>) -> Seq<TargetView> {
    v.map_values(|t: PushTarget| t@)
}

/// The address behind its scheme, where it has one of these.
pub open spec fn behind_scheme(url: Seq<char>) -> Option<Seq<char>> {
    if "https://"@.is_prefix_of(url) {
        Some(url.skip("https://"@.len() as int))
    } else if "http://"@.is_prefix_of(url) {
        Some(url.skip("http://"@.len() as int))
    } else if "ssh://"@.is_prefix_of(url) {
        Some(url.skip("ssh://"@.len() as int))
    } else {
        None
    }
}

/// A short name of a remote: the repository on gitlawb, else the host, else the address itself.
pub open spec fn label(url: Seq<char>) -> Seq<char> {
    if "gitlawb://"@.is_prefix_of(url) {
        "gitlawb:"@ + text::pieces(url.skip("gitlawb://"@.len() as int), '/').last()
    } else if "git@"@.is_prefix_of(url) {
        text::pieces(url.skip("git@"@.len() as int), ':').first()
    } else {
        match behind_scheme(url) {
            Some(rest) => text::pieces(text::pieces(rest, '/').first(), '@').last(),
            None => url,
        }
    }
}

fn first_piece(s: &str, sep: char) -> (r: String)
    ensures
        r@ == text::pieces(s@, sep).first(),
{
    let p = text::split(s, sep);
    proof {
        text::lemma_pieces_nonempty(s@, sep);
        assert(text::views(p@).len() == p@.len());
        assert(text::views(p@)[0] == p@[0]@);
    }
    p[0].clone()
}

fn last_piece(s: &str, sep: char) -> (r: String)
    ensures
        r@ == text::pieces(s@, sep).last(),
{
    let p = text::split(s, sep);
    proof {
        text::lemma_pieces_nonempty(s@, sep);
        assert(text::views(p@).len() == p@.len());
        assert(text::views(p@)[p@.len() - 1] == p@[p@.len() - 1]@);
    }
    p[p.len() - 1].clone()
}

fn strip_scheme(url: &str) -> (r: Option<String>)
    ensures
        text::opt(r) == behind_scheme(url@),
{
    match text::strip_prefix(url, "https://") {
        Some(x) => Some(x),
        None => match text::strip_prefix(url, "http://") {
            Some(x) => Some(x),
            None => text::strip_prefix(url, "ssh://"),
        },
    }
}

/// A short name of a remote, for the logs.
pub fn remote_label(url: &str) -> (r: String)
    ensures
        r@ == label(url@),
{
    if let Some(rest) = text::strip_prefix(url, "gitlawb://") {
        let mut r = "gitlawb:".to_owned();
        let p = last_piece(&rest, '/');
        r.append(&p);
        return r;
    }
    if let Some(rest) = text::strip_prefix(url, "git@") {
        return first_piece(&rest, ':');
    }
    match strip_scheme(url) {
        Some(rest) => {
            let host = first_piece(&rest, '/');
            last_piece(&host, '@')
        },
        None => url.to_owned(),
    }
}

/// A file in a directory.
pub open spec fn file_in(dir: Seq<char>, name: Seq<char>) -> Seq<char> {
    if dir.len() == 0 || dir.last() == '/' {
        dir + name
    } else {
        dir + "/"@ + name
    }
}

/// The path of a file in a directory.
pub fn join_path(dir: &str, name: &str) -> (r: String)
    ensures
        r@ == file_in(dir@, name@),
{
    let v = text::chars_of(dir);
    let mut r = dir.to_owned();
    if v.len() > 0 && v[v.len() - 1] != '/' {
        r.append("/");
    }
    r.append(name);
    r
}

/// Whether a remote is on gitlawb: as it says, else by its address.
pub open spec fn on_gitlawb(r: SoulRemote) -> bool {
    match r.kind {
        Some(k) => k is Gitlawb,
        None => "gitlawb://"@.is_prefix_of(r.url@),
    }
}

/// The role whose key signs a push.
pub open spec fn signer(r: SoulRemote) -> Seq<char> {
    match r.identity {
        Some(i) => i@,
        None => "soul"@,
    }
}

/// The target of a remote; none of one on gitlawb whose signer has no key.
pub open spec fn target_of(r: SoulRemote, dirs: Map<Seq<char>, Seq<char>>, node: Seq<char>) -> Option<TargetView> {
    if on_gitlawb(r) {
        if dirs.dom().contains(signer(r)) {
            Some(
                TargetView::Gitlawb {
                    name: label(r.url@),
                    url: r.url@,
                    key_path: file_in(dirs[signer(r)], "identity.pem"@),
                    node: match r.node {
                        Some(n) => n@,
                        None => node,
                    },
                    required: r.required,
                },
            )
        } else {
            None
        }
    } else {
        Some(
            TargetView::Git {
                name: label(r.url@),
                url: r.url@,
                token: match r.auth {
                    Some(a) => Some((a.username@, a.token_env@)),
                    None => None,
                },
                required: r.required,
            },
        )
    }
}

/// The targets of several remotes, in their order.
pub open spec fn targets_of(
    remotes: Seq<SoulRemote>,
    dirs: Map<Seq<char>, Seq<char>>,
    node: Seq<char>,
) -> Seq<TargetView>
    decreases remotes.len(),
{
    if remotes.len() == 0 {
        Seq::empty()
    } else {
        let rest = targets_of(remotes.drop_last(), dirs, node);
        match target_of(remotes.last(), dirs, node) {
            Some(t) => rest.push(t),
            None => rest,
        }
    }
}

fn remote_target(r: &SoulRemote, dirs: &TextMap<String>, node: &str) -> (t: Option<PushTarget>)
    ensures
        (match t {
            Some(x) => target_of(*r, text_map::texts(*dirs), node@) == Some(x@),
            None => target_of(*r, text_map::texts(*dirs), node@) is None,
        }),
{
    let gitlawb = match r.kind {
        Some(RemoteKind::Gitlawb) => true,
        Some(RemoteKind::Git) => false,
        None => text::starts_with(&r.url, "gitlawb://"),
    };
    let name = remote_label(&r.url);
    if gitlawb {
        let role = match &r.identity {
            Some(i) => i.as_str(),
            None => "soul",
        };
        match dirs.get(role) {
            Some(dir) => {
                let n = match &r.node {
                    Some(x) => x.clone(),
                    None => node.to_owned(),
                };
                Some(
                    PushTarget::Gitlawb {
                        name,
                        url: r.url.clone(),
                        key_path: join_path(dir, "identity.pem"),
                        node: n,
                        required: r.required,
                    },
                )
            },
            None => None,
        }
    } else {
        let token = match &r.auth {
            Some(a) => Some((a.username.clone(), a.token_env.clone())),
            None => None,
        };
        Some(PushTarget::Git { name, url: r.url.clone(), token, required: r.required })
    }
}

/// The push targets of some remotes. `dirs` holds the absolute key directory of each role that has
/// one; a signed push without its key is left out, so that it never blocks a boot.
pub fn remotes_to_targets(remotes: &[SoulRemote], dirs: &TextMap<String>, node: &str) -> (r: Vec<PushTarget>)
    ensures
        target_views(r@) == targets_of(remotes@, text_map::texts(*dirs), node@),
{
    let mut out: Vec<PushTarget> = Vec::new();
    let mut i: usize = 0;
    assert(target_views(out@) == targets_of(remotes@.take(0), text_map::texts(*dirs), node@));
    while i < remotes.len()
        invariant
            i <= remotes.len(),
            target_views(out@) == targets_of(remotes@.take(i as int), text_map::texts(*dirs), node@),
        decreases remotes.len() - i,
    {
        assert(remotes@.take(i + 1).drop_last() == remotes@.take(i as int));
        assert(remotes@.take(i + 1).last() == remotes@[i as int]);
        if let Some(t) = remote_target(&remotes[i], dirs, node) {
            let ghost before = out@;
            let ghost tv = t@;
            out.push(t);
            assert(target_views(out@) == target_views(before).push(tv));
        }
        i += 1;
    }
    assert(remotes@.take(i as int) == remotes@);
    out
}

/// How a runlog repository is made sound.
pub enum RepoPlan {
    /// It is sound: leave it alone.
    Keep,
    /// Discard it and bring it back from this address; if that fails, start an empty one.
    Clone(String),
    /// Discard it and start an empty one.
    Fresh,
}

/// The contents of a plan: whether the local state is discarded, and where it is brought back from.
pub open spec fn plan_view(p: RepoPlan) -> (bool, Option<Seq<char>>) {
    match p {
        RepoPlan::Keep => (false, None),
        RepoPlan::Clone(u) => (true, Some(u@)),
        RepoPlan::Fresh => (true, None),
    }
}

/// A repository is sound if it is one and its status can be read. Nothing of an unsound one is kept:
/// it is brought back from its remote, where that can be cloned.
pub open spec fn repo_plan(has_git: bool, status_ok: bool, remote: Option<Seq<char>>) -> (bool, Option<Seq<char>>) {
    if has_git && status_ok {
        (false, None)
    } else {
        match remote {
            Some(u) => if "gitlawb://"@.is_prefix_of(u) {
                (true, None)
            } else {
                (true, Some(u))
            },
            None => (true, None),
        }
    }
}

/// How a runlog repository is made sound before it is used.
pub fn ensure_runlog_repo(has_git: bool, status_ok: bool, remote: Option<&SoulRemote>) -> (r: RepoPlan)
    ensures
        plan_view(r) == repo_plan(
            has_git,
            status_ok,
            match remote {
                Some(x) => Some(x.url@),
                None => None,
            },
        ),
{
    if has_git && status_ok {
        return RepoPlan::Keep;
    }
    match remote {
        Some(x) => if text::starts_with(&x.url, "gitlawb://") {
            RepoPlan::Fresh
        } else {
            RepoPlan::Clone(x.url.clone())
        },
        None => RepoPlan::Fresh,
    }
}

fn words(a: &str, b: &str, c: &str, d: &str) -> (r: Vec<String>)
    ensures
        text::views(r@) == (if d@.len() == 0 {
            seq![a@, b@, c@]
        } else {
            seq![a@, b@, c@, d@]
        }),
{
    let mut v: Vec<String> = Vec::new();
    v.push(a.to_owned());
    v.push(b.to_owned());
    v.push(c.to_owned());
    if !d.is_empty() {
        v.push(d.to_owned());
        assert(text::views(v@) == seq![a@, b@, c@, d@]);
    } else {
        assert(text::views(v@) == seq![a@, b@, c@]);
    }
    v
}

/// The contents of several commands.
pub open spec fn command_views(v: Seq<Vec<String>>) -> Seq<Seq<Seq<char>>> {
    v.map_values(|c: Vec<String>| text::views(c@))
}

/// The git commands that start an empty repository.
pub fn init_commands() -> (r: Vec<Vec<String>>)
    ensures
        command_views(r@) == seq![
            seq!["init"@, "-q"@, "-b"@, "main"@],
            seq!["config"@, "user.name"@, "dack"@],
            seq!["config"@, "user.email"@, "dack@local"@],
        ],
{
    proof {
        reveal_strlit("main");
        reveal_strlit("");
    }
    let mut v: Vec<Vec<String>> = Vec::new();
    v.push(words("init", "-q", "-b", "main"));
    v.push(words("config", "user.name", "dack", ""));
    v.push(words("config", "user.email", "dack@local", ""));
    assert(command_views(v@) == seq![
        seq!["init"@, "-q"@, "-b"@, "main"@],
        seq!["config"@, "user.name"@, "dack"@],
        seq!["config"@, "user.email"@, "dack@local"@],
    ]);
    v
}

/// A remote is known by a short name: on gitlawb by the repository, over ssh by the host between `git@`
/// and the colon, over the web by the host without the user in front of it; any other by its address.
pub proof fn a_remote_is_known_by_its_host(
    did: Seq<char>,
    repo: Seq<char>,
    host: Seq<char>,
    user: Seq<char>,
    path: Seq<char>,
)
    requires
        !repo.contains('/'),
        !host.contains('/'),
        !host.contains(':'),
        !host.contains('@'),
        !user.contains('/'),
    ensures
        label("gitlawb://"@ + did + seq!['/'] + repo) == "gitlawb:"@ + repo,
        label("git@"@ + host + seq![':'] + path) == host,
        label("https://"@ + host + seq!['/'] + path) == host,
        label("http://"@ + host + seq!['/'] + path) == host,
        label("ssh://"@ + host + seq!['/'] + path) == host,
        label("https://"@ + user + seq!['@'] + host + seq!['/'] + path) == host,
{
    lemma_schemes_differ();
    let a = "gitlawb://"@;
    let u = a + did + seq!['/'] + repo;
    lemma_behind(a, did + seq!['/'] + repo, u);
    text::lemma_pieces_concat(did, repo, '/');
    text::lemma_one_piece(repo, '/');
    assert((text::pieces(did, '/') + seq![repo]).last() == repo);
    assert(u.skip(a.len() as int) == did + seq!['/'] + repo);
    let g = "git@"@;
    let v = g + host + seq![':'] + path;
    lemma_behind(g, host + seq![':'] + path, v);
    assert(v[3] == '@');
    lemma_not_prefix("gitlawb://"@, v, 3);
    text::lemma_pieces_concat(host, path, ':');
    text::lemma_one_piece(host, ':');
    assert(v.skip(g.len() as int) == host + seq![':'] + path);
    assert((seq![host] + text::pieces(path, ':')).first() == host);
    lemma_web("https://"@, host, path);
    lemma_web("http://"@, host, path);
    lemma_web("ssh://"@, host, path);
    lemma_web_user(user, host, path);
}

proof fn lemma_schemes_differ()
    ensures
        "gitlawb://"@.len() == 10,
        "git@"@.len() == 4,
        "https://"@.len() == 8,
        "http://"@.len() == 7,
        "ssh://"@.len() == 6,
        "gitlawb://"@[0] == 'g',
        "gitlawb://"@[3] == 'l',
        "git@"@[0] == 'g',
        "git@"@[3] == '@',
        "https://"@[0] == 'h',
        "http://"@[0] == 'h',
        "https://"@[4] == 's',
        "http://"@[4] == ':',
        "ssh://"@[0] == 's',
{
    reveal_strlit("gitlawb://");
    reveal_strlit("git@");
    reveal_strlit("https://");
    reveal_strlit("http://");
    reveal_strlit("ssh://");
}

proof fn lemma_behind(a: Seq<char>, rest: Seq<char>, s: Seq<char>)
    requires
        s =~= a + rest,
    ensures
        a.is_prefix_of(s),
        s.skip(a.len() as int) == rest,
{
    assert(s.subrange(0, a.len() as int) == a);
    assert(s.skip(a.len() as int) == rest);
}

proof fn lemma_not_prefix(p: Seq<char>, s: Seq<char>, i: int)
    requires
        0 <= i < p.len(),
        i < s.len(),
        p[i] != s[i],
    ensures
        !p.is_prefix_of(s),
{
    if p.is_prefix_of(s) {
        assert(s.subrange(0, p.len() as int)[i] == s[i]);
    }
}

proof fn lemma_web(scheme: Seq<char>, host: Seq<char>, path: Seq<char>)
    requires
        scheme == "https://"@ || scheme == "http://"@ || scheme == "ssh://"@,
        !host.contains('/'),
        !host.contains('@'),
    ensures
        label(scheme + host + seq!['/'] + path) == host,
{
    lemma_schemes_differ();
    let rest = host + seq!['/'] + path;
    let u = scheme + host + seq!['/'] + path;
    lemma_behind(scheme, rest, u);
    assert(u[0] == scheme[0]);
    lemma_not_prefix("gitlawb://"@, u, 0);
    lemma_not_prefix("git@"@, u, 0);
    if scheme == "http://"@ {
        assert(u[4] == ':');
        lemma_not_prefix("https://"@, u, 4);
    } else if scheme == "ssh://"@ {
        lemma_not_prefix("https://"@, u, 0);
        lemma_not_prefix("http://"@, u, 0);
    }
    assert(behind_scheme(u) == Some(rest));
    text::lemma_pieces_concat(host, path, '/');
    text::lemma_one_piece(host, '/');
    text::lemma_one_piece(host, '@');
    assert((seq![host] + text::pieces(path, '/')).first() == host);
}

proof fn lemma_web_user(user: Seq<char>, host: Seq<char>, path: Seq<char>)
    requires
        !host.contains('/'),
        !host.contains('@'),
        !user.contains('/'),
    ensures
        label("https://"@ + user + seq!['@'] + host + seq!['/'] + path) == host,
{
    lemma_schemes_differ();
    let scheme = "https://"@;
    let place = user + seq!['@'] + host;
    let rest = place + seq!['/'] + path;
    let u = scheme + user + seq!['@'] + host + seq!['/'] + path;
    lemma_behind(scheme, rest, u);
    assert(u[0] == 'h');
    lemma_not_prefix("gitlawb://"@, u, 0);
    lemma_not_prefix("git@"@, u, 0);
    assert(behind_scheme(u) == Some(rest));
    assert(!place.contains('/')) by {
        if place.contains('/') {
            let i = choose|i: int| 0 <= i < place.len() && place[i] == '/';
            if i < user.len() {
                assert(user[i] == '/');
            } else if i > user.len() {
                assert(host[i - user.len() - 1] == '/');
            }
        }
    }
    text::lemma_pieces_concat(place, path, '/');
    text::lemma_one_piece(place, '/');
    assert((seq![place] + text::pieces(path, '/')).first() == place);
    text::lemma_pieces_concat(user, host, '@');
    text::lemma_one_piece(host, '@');
    assert((text::pieces(user, '@') + seq![host]).last() == host);
}

/// A remote is on gitlawb where it says so, or where it says nothing and its address does. There it is
/// pushed with the key of its signer, the soul where none is named, and not at all where that has no
/// key; elsewhere with its token, where it has one.
pub proof fn a_remote_is_pushed_with_its_key(
    r: SoulRemote,
    dirs: Map<Seq<char>, Seq<char>>,
    node: Seq<char>,
    remotes: Seq<SoulRemote>,
)
    ensures
        ({
            let lawb = r.kind == Some(RemoteKind::Gitlawb) || (r.kind is None && "gitlawb://"@.is_prefix_of(r.url@));
            let who = match r.identity {
                Some(i) => i@,
                None => "soul"@,
            };
            let at = match r.node {
                Some(n) => n@,
                None => node,
            };
            &&& lawb && !dirs.contains_key(who) ==> target_of(r, dirs, node) is None
            &&& lawb && dirs.contains_key(who) ==> target_of(r, dirs, node) == Some(
                TargetView::Gitlawb {
                    name: label(r.url@),
                    url: r.url@,
                    key_path: file_in(dirs[who], "identity.pem"@),
                    node: at,
                    required: r.required,
                },
            )
            &&& !lawb && r.auth is None ==> target_of(r, dirs, node) == Some(
                TargetView::Git { name: label(r.url@), url: r.url@, token: None, required: r.required },
            )
            &&& !lawb ==> (r.auth matches Some(a) ==> target_of(r, dirs, node) == Some(
                TargetView::Git {
                    name: label(r.url@),
                    url: r.url@,
                    token: Some((a.username@, a.token_env@)),
                    required: r.required,
                },
            ))
            &&& targets_of(Seq::empty(), dirs, node) == Seq::<TargetView>::empty()
            &&& targets_of(remotes.push(r), dirs, node) == (match target_of(r, dirs, node) {
                Some(t) => targets_of(remotes, dirs, node).push(t),
                None => targets_of(remotes, dirs, node),
            })
        }),
{
    assert(remotes.push(r).drop_last() == remotes);
}

/// A file in a directory has one slash between the two.
pub proof fn a_file_stands_behind_one_slash(dir: Seq<char>, name: Seq<char>)
    ensures
        dir.len() > 0 && dir.last() != '/' ==> file_in(dir, name) == dir + "/"@ + name,
        dir.len() > 0 && dir.last() == '/' ==> file_in(dir, name) == dir + name,
        file_in(Seq::empty(), name) == name,
{
    assert(Seq::<char>::empty() + name == name);
}

/// A sound repository is kept. Any other is discarded, and brought back from its remote where it has one
/// that can be cloned.
pub proof fn only_a_sound_repository_is_kept(has_git: bool, status_ok: bool, url: Seq<char>, remote: Option<Seq<char>>)
    ensures
        has_git && status_ok ==> repo_plan(has_git, status_ok, remote) == (false, None::<Seq<char>>),
        !(has_git && status_ok) ==> repo_plan(has_git, status_ok, None) == (true, None::<Seq<char>>),
        !(has_git && status_ok) && "gitlawb://"@.is_prefix_of(url) ==> repo_plan(has_git, status_ok, Some(url)) == (
            true,
            None::<Seq<char>>,
        ),
        !(has_git && status_ok) && !"gitlawb://"@.is_prefix_of(url) ==> repo_plan(has_git, status_ok, Some(url)) == (
            true,
            Some(url),
        ),
{
}

} // verus!
