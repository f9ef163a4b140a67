//! The operator's commands: what each one decides and says.

pub mod boot;
pub mod remotes;
pub mod say;

use vstd::prelude::*;

use crate::error::DackError;
use crate::health;
use crate::health::HealthSnapshot;
use crate::identity::Did;
use crate::text;

verus! {

/// A parsed command line.
#[derive(Debug)]
pub struct Cli {
    /// The path of the operator's configuration.
    pub config: String,
    pub command: Command,
}

/// What the operator asks for.
#[derive(Debug)]
pub enum Command {
    /// Boot the harness and process stimuli.
    Run,
    /// The depth of the queue, the duties, and the health of the machinery.
    Status,
    /// The runlog of the day, and with `follow` what is added to it.
    Log { follow: bool },
    /// Put a signed instruction into the queue.
    Say { instruction: String },
    /// Stop taking stimuli.
    Pause,
    /// Take stimuli again.
    Resume,
    /// Stop the processes.
    Kill,
    /// Run a Reflect now.
    ReflectNow,
    /// Commit hand edits of the soul as the operator.
    Reconcile,
    /// Make a key and print its identifier.
    Keygen { role: String, dir: String },
}

/// Why there is no hard stop.
pub fn kill_refused() -> (r: DackError)
    ensures
        r matches DackError::NotImplemented(m) && m@
            == "dack kill — use SIGTERM (systemctl stop / Ctrl-C) for a graceful drain"@,
{
    DackError::NotImplemented("dack kill — use SIGTERM (systemctl stop / Ctrl-C) for a graceful drain".to_owned())
}

/// What a new key's owner is told.
pub open spec fn keygen_report(role: Seq<char>, dir: Seq<char>, did: Seq<char>) -> Seq<char> {
    "dack: generated "@ + role + " identity → "@ + dir + "/identity.pem (mode 0600, never commit it)\n  did:key: "@
        + did + "\n"@ + (if role == "operator"@ {
        "  → set `operator_did: \""@ + did + "\"` in dack.config.yaml,\n    and `identities: { operator: \""@ + dir
            + "\" }`.\n"@
    } else {
        "  → set `identities: { "@ + role + ": \""@ + dir + "\" }` in dack.config.yaml.\n"@
    })
}

/// What a new key's owner is told: where it stands, its identifier, and what to configure.
pub fn keygen_text(role: &str, dir: &str, did: &Did) -> (r: String)
    ensures
        r@ == keygen_report(role@, dir@, did.0@),
{
    let mut r = "dack: generated ".to_owned();
    r.append(role);
    r.append(" identity → ");
    r.append(dir);
    r.append("/identity.pem (mode 0600, never commit it)\n  did:key: ");
    r.append(&did.0);
    r.append("\n");
    let mut t = String::new();
    if text::same(role, "operator") {
        t = "  → set `operator_did: \"".to_owned();
        t.append(&did.0);
        t.append("\"` in dack.config.yaml,\n    and `identities: { operator: \"");
        t.append(dir);
        t.append("\" }`.\n");
    } else {
        t = "  → set `identities: { ".to_owned();
        t.append(role);
        t.append(": \"");
        t.append(dir);
        t.append("\" }` in dack.config.yaml.\n");
    }
    r.append(&t);
    r
}

/// What has been added to a file since its first `shown` bytes were.
pub fn log_delta(file: &[u8], shown: usize) -> (r: (Vec<u8>, usize))
    ensures
        file@.len() > shown ==> r.0@ == file@.skip(shown as int) && r.1 == file@.len(),
        file@.len() <= shown ==> r.0@.len() == 0 && r.1 == shown,
{
    let mut out: Vec<u8> = Vec::new();
    let n: usize = file.len();
    if n <= shown {
        return (out, shown);
    }
    let mut i: usize = shown;
    while i < n
        invariant
            shown <= i <= n,
            n == file@.len(),
            out@ == file@.subrange(shown as int, i as int),
        decreases n - i,
    {
        out.push(file[i]);
        i += 1;
        assert(out@ == file@.subrange(shown as int, i as int));
    }
    assert(out@ == file@.skip(shown as int));
    (out, n)
}

/// The stored flag of a loop that is paused or not.
pub fn paused_cursor(paused: bool) -> (r: &'static str)
    ensures
        r@ == (if paused {
            "1"@
        } else {
            ""@
        }),
{
    if paused {
        "1"
    } else {
        ""
    }
}

/// What the operator is told on pausing or resuming.
pub fn paused_text(paused: bool) -> (r: &'static str)
    ensures
        r@ == (if paused {
            "dack: dispatch PAUSED (in-flight runs finish; the loop stops popping new stimuli)."@
        } else {
            "dack: dispatch RESUMED (in-flight runs finish; the loop resumes popping new stimuli)."@
        }),
{
    if paused {
        "dack: dispatch PAUSED (in-flight runs finish; the loop stops popping new stimuli)."
    } else {
        "dack: dispatch RESUMED (in-flight runs finish; the loop resumes popping new stimuli)."
    }
}

/// The message of the commit that keeps hand edits.
pub open spec fn reconcile_commit(n: int) -> Seq<char> {
    "reconcile "@ + text::decimal(n) + " external path(s) (operator)"@
}

/// The message of the commit that keeps hand edits.
pub fn reconcile_message(n: usize) -> (r: String)
    ensures
        r@ == reconcile_commit(n as int),
{
    let mut r = "reconcile ".to_owned();
    let d = text::nat_text(n as u128);
    r.append(&d);
    r.append(" external path(s) (operator)");
    r
}

/// One line for each path.
pub open spec fn path_lines(paths: Seq<Seq<char>>) -> Seq<char>
    decreases paths.len(),
{
    if paths.len() == 0 {
        Seq::empty()
    } else {
        path_lines(paths.drop_last()) + "  + "@ + paths.last() + "\n"@
    }
}

/// What the operator is told of a reconciliation: there was nothing to do, the paths and the commit,
/// or that the tree was clean after all.
pub open spec fn reconcile_report(paths: Seq<Seq<char>>, commit: Option<Seq<char>>) -> Seq<char> {
    if paths.len() == 0 {
        "dack: soul tree clean — nothing to reconcile."@
    } else {
        match commit {
            Some(id) => path_lines(paths) + "dack: committed "@ + text::decimal(paths.len() as int)
                + " path(s) as operator ("@ + id + ")."@,
            None => "dack: nothing staged — tree already clean at HEAD."@,
        }
    }
}

/// What the operator is told of a reconciliation.
pub fn reconcile_text(paths: &[String], commit: Option<&str>) -> (r: String)
    ensures
        r@ == reconcile_report(text::views(paths@), text::opt_str(commit)),
{
    let ghost all = text::views(paths@);
    assert(all.len() == paths@.len());
    if paths.len() == 0 {
        return "dack: soul tree clean — nothing to reconcile.".to_owned();
    }
    match commit {
        Some(id) => {
            let mut r = String::new();
            let mut i: usize = 0;
            assert(r@ == path_lines(all.take(0)));
            while i < paths.len()
                invariant
                    i <= paths.len(),
                    all == text::views(paths@),
                    r@ == path_lines(all.take(i as int)),
                decreases paths.len() - i,
            {
                assert(all.take(i + 1).drop_last() == all.take(i as int));
                assert(all.take(i + 1).last() == paths@[i as int]@);
                r.append("  + ");
                r.append(&paths[i]);
                r.append("\n");
                i += 1;
            }
            assert(all.take(i as int) == all);
            r.append("dack: committed ");
            let d = text::nat_text(paths.len() as u128);
            r.append(&d);
            r.append(" path(s) as operator (");
            r.append(id);
            r.append(").");
            r
        },
        None => "dack: nothing staged — tree already clean at HEAD.".to_owned(),
    }
}

/// What was found where the daemon leaves its health.
pub enum SnapshotFile {
    Read(HealthSnapshot),
    Unreadable(String),
    Absent,
}

/// What the operator is told of the health of the machinery.
pub open spec fn health_text(f: SnapshotFile, now: i64) -> Seq<char> {
    match f {
        SnapshotFile::Read(s) => "\nhealth (from the daemon's last snapshot):\n"@ + health::report(s@, now) + "\n"@,
        SnapshotFile::Unreadable(e) => "\nhealth: snapshot unreadable ("@ + e@ + ")\n"@,
        SnapshotFile::Absent => "\nhealth: no snapshot yet (is the daemon running?)\n"@,
    }
}

/// One line for each duty that could not be read.
pub open spec fn malformed_lines(errors: Seq<(String, String)>) -> Seq<char>
    decreases errors.len(),
{
    if errors.len() == 0 {
        Seq::empty()
    } else {
        malformed_lines(errors.drop_last()) + "  ! "@ + errors.last().0@ + ": "@ + errors.last().1@ + "\n"@
    }
}

/// The whole status.
pub open spec fn status_report(
    depth: int,
    registered: int,
    errors: Seq<(String, String)>,
    f: SnapshotFile,
    now: i64,
) -> Seq<char> {
    "queue:  "@ + text::decimal(depth) + " pending\nduties: "@ + text::decimal(registered) + " registered, "@
        + text::decimal(errors.len() as int) + " malformed\n"@ + malformed_lines(errors) + health_text(f, now)
}

fn write_malformed(errors: &[(String, String)]) -> (r: String)
    ensures
        r@ == malformed_lines(errors@),
{
    let mut r = String::new();
    let mut i: usize = 0;
    assert(r@ == malformed_lines(errors@.take(0)));
    while i < errors.len()
        invariant
            i <= errors.len(),
            r@ == malformed_lines(errors@.take(i as int)),
        decreases errors.len() - i,
    {
        assert(errors@.take(i + 1).drop_last() == errors@.take(i as int));
        assert(errors@.take(i + 1).last() == errors@[i as int]);
        r.append("  ! ");
        r.append(&errors[i].0);
        r.append(": ");
        r.append(&errors[i].1);
        r.append("\n");
        i += 1;
    }
    assert(errors@.take(i as int) == errors@);
    r
}

/// The status that the operator reads: the queue, the duties, and the daemon's last health.
pub fn status_text(
    depth: usize,
    registered: usize,
    errors: &[(String, String)],
    snapshot: &SnapshotFile,
    now: i64,
) -> (r: String)
    ensures
        r@ == status_report(depth as int, registered as int, errors@, *snapshot, now),
{
    let mut r = "queue:  ".to_owned();
    let d = text::nat_text(depth as u128);
    r.append(&d);
    r.append(" pending\nduties: ");
    let n = text::nat_text(registered as u128);
    r.append(&n);
    r.append(" registered, ");
    let e = text::nat_text(errors.len() as u128);
    r.append(&e);
    r.append(" malformed\n");
    let m = write_malformed(errors);
    r.append(&m);
    let h = match snapshot {
        SnapshotFile::Read(s) => {
            let mut t = "\nhealth (from the daemon's last snapshot):\n".to_owned();
            let body = s.render(now);
            t.append(&body);
            t.append("\n");
            t
        },
        SnapshotFile::Unreadable(e) => {
            let mut t = "\nhealth: snapshot unreadable (".to_owned();
            t.append(e);
            t.append(")\n");
            t
        },
        SnapshotFile::Absent => "\nhealth: no snapshot yet (is the daemon running?)\n".to_owned(),
    };
    r.append(&h);
    r
}

/// What the owner of a new key is told: where it stands, its identifier, and the line of the
/// configuration that names it; the operator's identifier is to be set as well.
pub proof fn a_new_key_is_reported(role: Seq<char>, dir: Seq<char>, did: Seq<char>)
    ensures
        ("dack: generated "@ + role + " identity → "@ + dir
            + "/identity.pem (mode 0600, never commit it)\n  did:key: "@ + did + "\n"@).is_prefix_of(
            keygen_report(role, dir, did),
        ),
        role == "operator"@ ==> ("  → set `operator_did: \""@ + did
            + "\"` in dack.config.yaml,\n    and `identities: { operator: \""@ + dir + "\" }`.\n"@).is_suffix_of(
            keygen_report(role, dir, did),
        ),
        role != "operator"@ ==> ("  → set `identities: { "@ + role + ": \""@ + dir
            + "\" }` in dack.config.yaml.\n"@).is_suffix_of(keygen_report(role, dir, did)),
{
    let r = keygen_report(role, dir, did);
    let p = "dack: generated "@ + role + " identity → "@ + dir
        + "/identity.pem (mode 0600, never commit it)\n  did:key: "@ + did + "\n"@;
    assert(r.subrange(0, p.len() as int) == p);
    let x = "  → set `operator_did: \""@ + did + "\"` in dack.config.yaml,\n    and `identities: { operator: \""@
        + dir + "\" }`.\n"@;
    let y = "  → set `identities: { "@ + role + ": \""@ + dir + "\" }` in dack.config.yaml.\n"@;
    if role == "operator"@ {
        assert(r.subrange(r.len() - x.len(), r.len() as int) == x);
    } else {
        assert(r.subrange(r.len() - y.len(), r.len() as int) == y);
    }
}

/// What the operator is told of a reconciliation: a line for each path in order and the commit that keeps
/// them, or that there was nothing to keep.
pub proof fn a_reconciliation_is_reported(paths: Seq<Seq<char>>, p: Seq<char>, id: Seq<char>)
    ensures
        path_lines(Seq::empty()) == Seq::<char>::empty(),
        path_lines(paths.push(p)) == path_lines(paths) + "  + "@ + p + "\n"@,
        paths.len() > 0 ==> reconcile_report(paths, Some(id)) == path_lines(paths) + "dack: committed "@ + text::decimal(
            paths.len() as int,
        ) + " path(s) as operator ("@ + id + ")."@,
        paths.len() > 0 ==> reconcile_report(paths, None)
            == "dack: nothing staged — tree already clean at HEAD."@,
        paths.len() == 0 ==> reconcile_report(paths, Some(id)) == "dack: soul tree clean — nothing to reconcile."@,
{
    assert(paths.push(p).drop_last() == paths);
}

/// The status counts what is pending, registered and malformed, each in its place, names every malformed
/// duty with what is wrong with it, and ends on the health of the machinery.
pub proof fn a_status_counts_each_in_its_place(
    depth: int,
    registered: int,
    errors: Seq<(String, String)>,
    e: (String, String),
    f: SnapshotFile,
    now: i64,
)
    ensures
        status_report(depth, registered, errors, f, now) == "queue:  "@ + text::decimal(depth)
            + " pending\nduties: "@ + text::decimal(registered) + " registered, "@ + text::decimal(
            errors.len() as int,
        ) + " malformed\n"@ + malformed_lines(errors) + health_text(f, now),
        malformed_lines(Seq::empty()) == Seq::<char>::empty(),
        malformed_lines(errors.push(e)) == malformed_lines(errors) + "  ! "@ + e.0@ + ": "@ + e.1@ + "\n"@,
        f is Absent ==> health_text(f, now) == "\nhealth: no snapshot yet (is the daemon running?)\n"@,
        f matches SnapshotFile::Unreadable(x) ==> health_text(f, now) == "\nhealth: snapshot unreadable ("@ + x@
            + ")\n"@,
        f matches SnapshotFile::Read(s) ==> health_text(f, now) == "\nhealth (from the daemon's last snapshot):\n"@
            + health::report(s@, now) + "\n"@,
{
    assert(errors.push(e).drop_last() == errors);
}

/// Hand edits are committed as the operator's, with how many paths there were.
pub proof fn hand_edits_are_counted(n: int)
    ensures
        reconcile_commit(n) == "reconcile "@ + text::decimal(n) + " external path(s) (operator)"@,
{
}

} // verus!
