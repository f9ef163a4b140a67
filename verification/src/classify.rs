//! What a tool call does, by its name and input. Anything unknown is refused by default.

use serde_json::Value;
use vstd::prelude::*;

use crate::config;
use crate::config::CapabilityPrefix;
use crate::json;
use crate::json::Tree;
use crate::state::ToolClass;
use crate::text;

verus! {

/// The contents of some prefixes: each a prefix and its listed tools.
pub type Prefixes = Seq<(Seq<char>, Seq<Seq<char>>)>;

/// What the first prefix that a tool's name starts with says of it: whether the tool is admitted.
/// None where no prefix claims the tool.
pub open spec fn claim(prefixes: Prefixes, tool: Seq<char>) -> Option<bool>
    decreases prefixes.len(),
{
    if prefixes.len() == 0 {
        None
    } else {
        let (prefix, tools) = prefixes[0];
        if prefix.is_prefix_of(tool) {
            Some(tools.len() == 0 || tools.contains(tool.skip(prefix.len() as int)))
        } else {
            claim(prefixes.drop_first(), tool)
        }
    }
}

/// Whether a tool reads files.
pub open spec fn reads_files(tool: Seq<char>) -> bool {
    tool == "Read"@ || tool == "FileRead"@ || tool == "Grep"@ || tool == "Glob"@ || tool == "LS"@ || tool
        == "NotebookRead"@
}

/// Whether a tool reaches the network.
pub open spec fn reaches_out(tool: Seq<char>) -> bool {
    tool == "WebFetch"@ || tool == "WebSearch"@
}

/// Whether a tool reads what is neither a file nor the network.
pub open spec fn reads_locally(tool: Seq<char>) -> bool {
    tool == "LSP"@ || tool == "ReadMcpResource"@ || tool == "ListMcpResources"@ || tool == "ToolSearch"@ || tool
        == "TaskGet"@ || tool == "TaskList"@ || tool == "TaskOutput"@
}

/// Whether a tool writes files.
pub open spec fn writes_files(tool: Seq<char>) -> bool {
    tool == "Write"@ || tool == "FileWrite"@ || tool == "Edit"@ || tool == "FileEdit"@ || tool == "MultiEdit"@
        || tool == "NotebookEdit"@
}

/// Whether a tool runs commands.
pub open spec fn runs_commands(tool: Seq<char>) -> bool {
    tool == "Bash"@ || tool == "BashOutput"@ || tool == "KillShell"@ || tool == "PowerShell"@ || tool == "REPL"@
}

/// Whether a path has the private runlog directory as one of its segments.
pub open spec fn through_runlogs(path: Seq<char>) -> bool {
    exists|i: int|
        0 <= i < text::pieces(path, '/').len() && text::pieces(
            #[trigger] text::pieces(path, '/')[i],
            '\\',
        ).contains("runlogs"@)
}

/// Whether a member of the input that is a path goes through the private runlog directory.
pub open spec fn member_through_runlogs(input: Tree, key: Seq<char>) -> bool {
    json::text_member(input, key) matches Some(p) && through_runlogs(p)
}

/// Whether a read targets the private runlog directory.
pub open spec fn at_runlogs(input: Tree) -> bool {
    member_through_runlogs(input, "file_path"@) || member_through_runlogs(input, "path"@)
        || member_through_runlogs(input, "pattern"@)
}

/// The path that a write targets.
pub open spec fn write_target(input: Tree) -> Option<Seq<char>> {
    match json::member(input, "file_path"@) {
        Some(x) => json::chars(x),
        None => json::text_member(input, "path"@),
    }
}

/// The class of a tool that no prefix claims.
pub open spec fn builtin(tool: Seq<char>, input: Tree) -> (ToolClass, Option<Seq<char>>) {
    if reads_files(tool) {
        if at_runlogs(input) {
            (ToolClass::Other, None)
        } else {
            (ToolClass::Read, None)
        }
    } else if reaches_out(tool) {
        (ToolClass::Net, None)
    } else if reads_locally(tool) {
        (ToolClass::Read, None)
    } else if writes_files(tool) {
        (ToolClass::FileWrite, write_target(input))
    } else if runs_commands(tool) {
        (ToolClass::Shell, None)
    } else {
        (ToolClass::Other, None)
    }
}

/// The class of a tool call. The most privileged prefixes claim first, and the first to claim
/// decides: a tool that its server's list leaves out is refused, never passed on to a looser one.
pub open spec fn classified(
    tool: Seq<char>,
    input: Tree,
    settle: Prefixes,
    post: Prefixes,
    read: Prefixes,
) -> (ToolClass, Option<Seq<char>>) {
    let of = |admitted: bool, class: ToolClass|
        (if admitted {
            class
        } else {
            ToolClass::Other
        }, None::<Seq<char>>);
    match claim(settle, tool) {
        Some(a) => of(a, ToolClass::SettleTx),
        None => match claim(post, tool) {
            Some(a) => of(a, ToolClass::Post),
            None => match claim(read, tool) {
                Some(a) => of(a, ToolClass::Read),
                None => builtin(tool, input),
            },
        },
    }
}

fn first_claim(prefixes: &[CapabilityPrefix], tool: &str) -> (r: Option<bool>)
    ensures
        r == claim(config::prefix_views(prefixes@), tool@),
{
    let ghost all = config::prefix_views(prefixes@);
    let mut i: usize = 0;
    assert(all.skip(0) == all);
    while i < prefixes.len()
        invariant
            i <= prefixes.len(),
            all == config::prefix_views(prefixes@),
            claim(all.skip(i as int), tool@) == claim(all, tool@),
        decreases prefixes.len() - i,
    {
        assert(all.skip(i as int)[0] == config::prefix_view(prefixes@[i as int]));
        assert(all.skip(i as int).drop_first() == all.skip(i + 1));
        if let Some(bare) = text::strip_prefix(tool, &prefixes[i].prefix) {
            let listed = prefixes[i].tools.len() == 0 || text::member(&prefixes[i].tools, &bare);
            assert(text::views(prefixes@[i as int].tools@).len() == prefixes@[i as int].tools@.len());
            return Some(listed);
        }
        i += 1;
    }
    None
}

fn goes_through_runlogs(path: &str) -> (r: bool)
    ensures
        r == through_runlogs(path@),
{
    let parts = text::split(path, '/');
    let ghost all = text::pieces(path@, '/');
    assert(text::views(parts@).len() == parts@.len());
    let mut i: usize = 0;
    while i < parts.len()
        invariant
            i <= parts.len() == all.len(),
            all == text::views(parts@),
            all == text::pieces(path@, '/'),
            forall|j: int| 0 <= j < i ==> !text::pieces(#[trigger] all[j], '\\').contains("runlogs"@),
        decreases parts.len() - i,
    {
        let sub = text::split(&parts[i], '\\');
        assert(all[i as int] == parts@[i as int]@);
        if text::member(&sub, "runlogs") {
            return true;
        }
        i += 1;
    }
    false
}

fn member_goes_through_runlogs(input: &Value, key: &str) -> (r: bool)
    ensures
        r == member_through_runlogs(json::tree(*input), key@),
{
    match json::text_at(input, key) {
        Some(p) => goes_through_runlogs(&p),
        None => false,
    }
}

fn targets_runlogs(input: &Value) -> (r: bool)
    ensures
        r == at_runlogs(json::tree(*input)),
{
    member_goes_through_runlogs(input, "file_path") || member_goes_through_runlogs(input, "path")
        || member_goes_through_runlogs(input, "pattern")
}

fn extract_path(input: &Value) -> (r: Option<String>)
    ensures
        text::opt(r) == write_target(json::tree(*input)),
{
    match json::get(input, "file_path") {
        Some(x) => match json::as_str(x) {
            Some(s) => Some(s.to_owned()),
            None => None,
        },
        None => json::text_at(input, "path"),
    }
}

fn classify_builtin(tool: &str, input: &Value) -> (r: (ToolClass, Option<String>))
    ensures
        (r.0, text::opt(r.1)) == builtin(tool@, json::tree(*input)),
{
    if text::same(tool, "Read") || text::same(tool, "FileRead") || text::same(tool, "Grep") || text::same(
        tool,
        "Glob",
    ) || text::same(tool, "LS") || text::same(tool, "NotebookRead") {
        if targets_runlogs(input) {
            (ToolClass::Other, None)
        } else {
            (ToolClass::Read, None)
        }
    } else if text::same(tool, "WebFetch") || text::same(tool, "WebSearch") {
        (ToolClass::Net, None)
    } else if text::same(tool, "LSP") || text::same(tool, "ReadMcpResource") || text::same(
        tool,
        "ListMcpResources",
    ) || text::same(tool, "ToolSearch") || text::same(tool, "TaskGet") || text::same(tool, "TaskList")
        || text::same(tool, "TaskOutput") {
        (ToolClass::Read, None)
    } else if text::same(tool, "Write") || text::same(tool, "FileWrite") || text::same(tool, "Edit")
        || text::same(tool, "FileEdit") || text::same(tool, "MultiEdit") || text::same(tool, "NotebookEdit") {
        (ToolClass::FileWrite, extract_path(input))
    } else if text::same(tool, "Bash") || text::same(tool, "BashOutput") || text::same(tool, "KillShell")
        || text::same(tool, "PowerShell") || text::same(tool, "REPL") {
        (ToolClass::Shell, None)
    } else {
        (ToolClass::Other, None)
    }
}

/// The class of a tool call, and the path that a file write targets.
pub fn classify_tool(
    tool: &str,
    input: &Value,
    settle_tools: &[CapabilityPrefix],
    post_tools: &[CapabilityPrefix],
    read_tools: &[CapabilityPrefix],
) -> (r: (ToolClass, Option<String>))
    ensures
        (r.0, text::opt(r.1)) == classified(
            tool@,
            json::tree(*input),
            config::prefix_views(settle_tools@),
            config::prefix_views(post_tools@),
            config::prefix_views(read_tools@),
        ),
{
    if let Some(admitted) = first_claim(settle_tools, tool) {
        return (if admitted {
            ToolClass::SettleTx
        } else {
            ToolClass::Other
        }, None);
    }
    if let Some(admitted) = first_claim(post_tools, tool) {
        return (if admitted {
            ToolClass::Post
        } else {
            ToolClass::Other
        }, None);
    }
    if let Some(admitted) = first_claim(read_tools, tool) {
        return (if admitted {
            ToolClass::Read
        } else {
            ToolClass::Other
        }, None);
    }
    classify_builtin(tool, input)
}

/// An irreversible tool is never shadowed: what a settle prefix claims is a settlement or refused,
/// whatever the looser prefixes say, and what a post prefix claims next is never a read.
pub proof fn a_looser_prefix_never_shadows(
    tool: Seq<char>,
    input: Tree,
    settle: Prefixes,
    post: Prefixes,
    read: Prefixes,
)
    ensures
        claim(settle, tool) is Some ==> {
            let c = classified(tool, input, settle, post, read).0;
            c is SettleTx || c is Other
        },
        claim(settle, tool) is None && claim(post, tool) is Some ==> {
            let c = classified(tool, input, settle, post, read).0;
            c is Post || c is Other
        },
{
}

/// Refused by default: a tool that no prefix claims and that is no known builtin is refused, and so
/// is one that its server's list leaves out.
pub proof fn the_unknown_is_refused(
    tool: Seq<char>,
    input: Tree,
    settle: Prefixes,
    post: Prefixes,
    read: Prefixes,
)
    ensures
        claim(settle, tool) is None && claim(post, tool) is None && claim(read, tool) is None && !reads_files(tool)
            && !reaches_out(tool) && !reads_locally(tool) && !writes_files(tool) && !runs_commands(tool)
            ==> classified(tool, input, settle, post, read) == (ToolClass::Other, None::<Seq<char>>),
        claim(settle, tool) == Some(false) || (claim(settle, tool) is None && (claim(post, tool) == Some(false) || (
        claim(post, tool) is None && claim(read, tool) == Some(false)))) ==> classified(
            tool,
            input,
            settle,
            post,
            read,
        ) == (ToolClass::Other, None::<Seq<char>>),
{
}

/// No builtin read reaches the private runlogs.
pub proof fn runlogs_are_not_read_as_files(tool: Seq<char>, input: Tree)
    ensures
        reads_files(tool) && at_runlogs(input) ==> builtin(tool, input).0 is Other,
{
}

/// A path has `runlogs` as a segment exactly where that word stands in it between slashes or
/// backslashes, or at an end of it.
pub open spec fn has_segment(path: Seq<char>, word: Seq<char>) -> bool {
    exists|i: int|
        {
            &&& #[trigger] text::at(path, word, i)
            &&& i == 0 || path[i - 1] == '/' || path[i - 1] == '\\'
            &&& i + word.len() == path.len() || path[i + word.len()] == '/' || path[i + word.len()] == '\\'
        }
}

/// What each builtin does, by name, where no prefix claims it: the six that write files are file writes
/// on the path of their input, and never reads; the network and the shell have classes of their own; the
/// readers of files read unless they aim at the private runlogs; and nothing else is admitted.
pub proof fn every_builtin_has_its_class(
    tool: Seq<char>,
    input: Tree,
    settle: Prefixes,
    post: Prefixes,
    read: Prefixes,
)
    requires
        forall|i: int| 0 <= i < settle.len() ==> !(#[trigger] settle[i]).0.is_prefix_of(tool),
        forall|i: int| 0 <= i < post.len() ==> !(#[trigger] post[i]).0.is_prefix_of(tool),
        forall|i: int| 0 <= i < read.len() ==> !(#[trigger] read[i]).0.is_prefix_of(tool),
    ensures
        ({
            let (class, path) = classified(tool, input, settle, post, read);
            let writes = tool == "Write"@ || tool == "FileWrite"@ || tool == "Edit"@ || tool == "FileEdit"@ || tool
                == "MultiEdit"@ || tool == "NotebookEdit"@;
            let reads = tool == "Read"@ || tool == "FileRead"@ || tool == "Grep"@ || tool == "Glob"@ || tool
                == "LS"@ || tool == "NotebookRead"@;
            let looks = tool == "LSP"@ || tool == "ReadMcpResource"@ || tool == "ListMcpResources"@ || tool
                == "ToolSearch"@ || tool == "TaskGet"@ || tool == "TaskList"@ || tool == "TaskOutput"@;
            let fetches = tool == "WebFetch"@ || tool == "WebSearch"@;
            let runs = tool == "Bash"@ || tool == "BashOutput"@ || tool == "KillShell"@ || tool == "PowerShell"@
                || tool == "REPL"@;
            &&& class is FileWrite <==> writes
            &&& class is Shell <==> runs
            &&& class is Net <==> fetches
            &&& class is Read ==> reads || looks
            &&& looks ==> class is Read
            &&& !(class is Post) && !(class is SettleTx)
            &&& !writes && !runs && !fetches && !reads && !looks ==> class is Other
            &&& !writes ==> path is None
            &&& writes ==> path == match json::member(input, "file_path"@) {
                Some(Tree::Text(p)) => Some(p),
                Some(_) => None,
                None => match json::member(input, "path"@) {
                    Some(Tree::Text(p)) => Some(p),
                    _ => None,
                },
            }
        }),
{
    lemma_unclaimed(settle, tool);
    lemma_unclaimed(post, tool);
    lemma_unclaimed(read, tool);
    lemma_builtins_differ();
}

proof fn lemma_unclaimed(prefixes: Prefixes, tool: Seq<char>)
    requires
        forall|i: int| 0 <= i < prefixes.len() ==> !(#[trigger] prefixes[i]).0.is_prefix_of(tool),
    ensures
        claim(prefixes, tool) is None,
    decreases prefixes.len(),
{
    if prefixes.len() > 0 {
        let d = prefixes.drop_first();
        assert forall|i: int| 0 <= i < d.len() implies !(#[trigger] d[i]).0.is_prefix_of(tool) by {
            assert(d[i] == prefixes[i + 1]);
        }
        assert(!prefixes[0].0.is_prefix_of(tool));
        lemma_unclaimed(d, tool);
    }
}

/// No two builtins of different classes share a name.
proof fn lemma_builtins_differ()
    ensures
        "Write"@ != "Read"@,
        "Write"@ != "FileRead"@,
        "Write"@ != "Grep"@,
        "Write"@ != "Glob"@,
        "Write"@ != "LS"@,
        "Write"@ != "NotebookRead"@,
        "Write"@ != "LSP"@,
        "Write"@ != "ReadMcpResource"@,
        "Write"@ != "ListMcpResources"@,
        "Write"@ != "ToolSearch"@,
        "Write"@ != "TaskGet"@,
        "Write"@ != "TaskList"@,
        "Write"@ != "TaskOutput"@,
        "Write"@ != "WebFetch"@,
        "Write"@ != "WebSearch"@,
        "Write"@ != "Bash"@,
        "Write"@ != "BashOutput"@,
        "Write"@ != "KillShell"@,
        "Write"@ != "PowerShell"@,
        "Write"@ != "REPL"@,
        "FileWrite"@ != "Read"@,
        "FileWrite"@ != "FileRead"@,
        "FileWrite"@ != "Grep"@,
        "FileWrite"@ != "Glob"@,
        "FileWrite"@ != "LS"@,
        "FileWrite"@ != "NotebookRead"@,
        "FileWrite"@ != "LSP"@,
        "FileWrite"@ != "ReadMcpResource"@,
        "FileWrite"@ != "ListMcpResources"@,
        "FileWrite"@ != "ToolSearch"@,
        "FileWrite"@ != "TaskGet"@,
        "FileWrite"@ != "TaskList"@,
        "FileWrite"@ != "TaskOutput"@,
        "FileWrite"@ != "WebFetch"@,
        "FileWrite"@ != "WebSearch"@,
        "FileWrite"@ != "Bash"@,
        "FileWrite"@ != "BashOutput"@,
        "FileWrite"@ != "KillShell"@,
        "FileWrite"@ != "PowerShell"@,
        "FileWrite"@ != "REPL"@,
        "Edit"@ != "Read"@,
        "Edit"@ != "FileRead"@,
        "Edit"@ != "Grep"@,
        "Edit"@ != "Glob"@,
        "Edit"@ != "LS"@,
        "Edit"@ != "NotebookRead"@,
        "Edit"@ != "LSP"@,
        "Edit"@ != "ReadMcpResource"@,
        "Edit"@ != "ListMcpResources"@,
        "Edit"@ != "ToolSearch"@,
        "Edit"@ != "TaskGet"@,
        "Edit"@ != "TaskList"@,
        "Edit"@ != "TaskOutput"@,
        "Edit"@ != "WebFetch"@,
        "Edit"@ != "WebSearch"@,
        "Edit"@ != "Bash"@,
        "Edit"@ != "BashOutput"@,
        "Edit"@ != "KillShell"@,
        "Edit"@ != "PowerShell"@,
        "Edit"@ != "REPL"@,
        "FileEdit"@ != "Read"@,
        "FileEdit"@ != "FileRead"@,
        "FileEdit"@ != "Grep"@,
        "FileEdit"@ != "Glob"@,
        "FileEdit"@ != "LS"@,
        "FileEdit"@ != "NotebookRead"@,
        "FileEdit"@ != "LSP"@,
        "FileEdit"@ != "ReadMcpResource"@,
        "FileEdit"@ != "ListMcpResources"@,
        "FileEdit"@ != "ToolSearch"@,
        "FileEdit"@ != "TaskGet"@,
        "FileEdit"@ != "TaskList"@,
        "FileEdit"@ != "TaskOutput"@,
        "FileEdit"@ != "WebFetch"@,
        "FileEdit"@ != "WebSearch"@,
        "FileEdit"@ != "Bash"@,
        "FileEdit"@ != "BashOutput"@,
        "FileEdit"@ != "KillShell"@,
        "FileEdit"@ != "PowerShell"@,
        "FileEdit"@ != "REPL"@,
        "MultiEdit"@ != "Read"@,
        "MultiEdit"@ != "FileRead"@,
        "MultiEdit"@ != "Grep"@,
        "MultiEdit"@ != "Glob"@,
        "MultiEdit"@ != "LS"@,
        "MultiEdit"@ != "NotebookRead"@,
        "MultiEdit"@ != "LSP"@,
        "MultiEdit"@ != "ReadMcpResource"@,
        "MultiEdit"@ != "ListMcpResources"@,
        "MultiEdit"@ != "ToolSearch"@,
        "MultiEdit"@ != "TaskGet"@,
        "MultiEdit"@ != "TaskList"@,
        "MultiEdit"@ != "TaskOutput"@,
        "MultiEdit"@ != "WebFetch"@,
        "MultiEdit"@ != "WebSearch"@,
        "MultiEdit"@ != "Bash"@,
        "MultiEdit"@ != "BashOutput"@,
        "MultiEdit"@ != "KillShell"@,
        "MultiEdit"@ != "PowerShell"@,
        "MultiEdit"@ != "REPL"@,
        "NotebookEdit"@ != "Read"@,
        "NotebookEdit"@ != "FileRead"@,
        "NotebookEdit"@ != "Grep"@,
        "NotebookEdit"@ != "Glob"@,
        "NotebookEdit"@ != "LS"@,
        "NotebookEdit"@ != "NotebookRead"@,
        "NotebookEdit"@ != "LSP"@,
        "NotebookEdit"@ != "ReadMcpResource"@,
        "NotebookEdit"@ != "ListMcpResources"@,
        "NotebookEdit"@ != "ToolSearch"@,
        "NotebookEdit"@ != "TaskGet"@,
        "NotebookEdit"@ != "TaskList"@,
        "NotebookEdit"@ != "TaskOutput"@,
        "NotebookEdit"@ != "WebFetch"@,
        "NotebookEdit"@ != "WebSearch"@,
        "NotebookEdit"@ != "Bash"@,
        "NotebookEdit"@ != "BashOutput"@,
        "NotebookEdit"@ != "KillShell"@,
        "NotebookEdit"@ != "PowerShell"@,
        "NotebookEdit"@ != "REPL"@,
        "Read"@ != "LSP"@,
        "Read"@ != "ReadMcpResource"@,
        "Read"@ != "ListMcpResources"@,
        "Read"@ != "ToolSearch"@,
        "Read"@ != "TaskGet"@,
        "Read"@ != "TaskList"@,
        "Read"@ != "TaskOutput"@,
        "Read"@ != "WebFetch"@,
        "Read"@ != "WebSearch"@,
        "Read"@ != "Bash"@,
        "Read"@ != "BashOutput"@,
        "Read"@ != "KillShell"@,
        "Read"@ != "PowerShell"@,
        "Read"@ != "REPL"@,
        "FileRead"@ != "LSP"@,
        "FileRead"@ != "ReadMcpResource"@,
        "FileRead"@ != "ListMcpResources"@,
        "FileRead"@ != "ToolSearch"@,
        "FileRead"@ != "TaskGet"@,
        "FileRead"@ != "TaskList"@,
        "FileRead"@ != "TaskOutput"@,
        "FileRead"@ != "WebFetch"@,
        "FileRead"@ != "WebSearch"@,
        "FileRead"@ != "Bash"@,
        "FileRead"@ != "BashOutput"@,
        "FileRead"@ != "KillShell"@,
        "FileRead"@ != "PowerShell"@,
        "FileRead"@ != "REPL"@,
        "Grep"@ != "LSP"@,
        "Grep"@ != "ReadMcpResource"@,
        "Grep"@ != "ListMcpResources"@,
        "Grep"@ != "ToolSearch"@,
        "Grep"@ != "TaskGet"@,
        "Grep"@ != "TaskList"@,
        "Grep"@ != "TaskOutput"@,
        "Grep"@ != "WebFetch"@,
        "Grep"@ != "WebSearch"@,
        "Grep"@ != "Bash"@,
        "Grep"@ != "BashOutput"@,
        "Grep"@ != "KillShell"@,
        "Grep"@ != "PowerShell"@,
        "Grep"@ != "REPL"@,
        "Glob"@ != "LSP"@,
        "Glob"@ != "ReadMcpResource"@,
        "Glob"@ != "ListMcpResources"@,
        "Glob"@ != "ToolSearch"@,
        "Glob"@ != "TaskGet"@,
        "Glob"@ != "TaskList"@,
        "Glob"@ != "TaskOutput"@,
        "Glob"@ != "WebFetch"@,
        "Glob"@ != "WebSearch"@,
        "Glob"@ != "Bash"@,
        "Glob"@ != "BashOutput"@,
        "Glob"@ != "KillShell"@,
        "Glob"@ != "PowerShell"@,
        "Glob"@ != "REPL"@,
        "LS"@ != "LSP"@,
        "LS"@ != "ReadMcpResource"@,
        "LS"@ != "ListMcpResources"@,
        "LS"@ != "ToolSearch"@,
        "LS"@ != "TaskGet"@,
        "LS"@ != "TaskList"@,
        "LS"@ != "TaskOutput"@,
        "LS"@ != "WebFetch"@,
        "LS"@ != "WebSearch"@,
        "LS"@ != "Bash"@,
        "LS"@ != "BashOutput"@,
        "LS"@ != "KillShell"@,
        "LS"@ != "PowerShell"@,
        "LS"@ != "REPL"@,
        "NotebookRead"@ != "LSP"@,
        "NotebookRead"@ != "ReadMcpResource"@,
        "NotebookRead"@ != "ListMcpResources"@,
        "NotebookRead"@ != "ToolSearch"@,
        "NotebookRead"@ != "TaskGet"@,
        "NotebookRead"@ != "TaskList"@,
        "NotebookRead"@ != "TaskOutput"@,
        "NotebookRead"@ != "WebFetch"@,
        "NotebookRead"@ != "WebSearch"@,
        "NotebookRead"@ != "Bash"@,
        "NotebookRead"@ != "BashOutput"@,
        "NotebookRead"@ != "KillShell"@,
        "NotebookRead"@ != "PowerShell"@,
        "NotebookRead"@ != "REPL"@,
        "LSP"@ != "WebFetch"@,
        "LSP"@ != "WebSearch"@,
        "LSP"@ != "Bash"@,
        "LSP"@ != "BashOutput"@,
        "LSP"@ != "KillShell"@,
        "LSP"@ != "PowerShell"@,
        "LSP"@ != "REPL"@,
        "ReadMcpResource"@ != "WebFetch"@,
        "ReadMcpResource"@ != "WebSearch"@,
        "ReadMcpResource"@ != "Bash"@,
        "ReadMcpResource"@ != "BashOutput"@,
        "ReadMcpResource"@ != "KillShell"@,
        "ReadMcpResource"@ != "PowerShell"@,
        "ReadMcpResource"@ != "REPL"@,
        "ListMcpResources"@ != "WebFetch"@,
        "ListMcpResources"@ != "WebSearch"@,
        "ListMcpResources"@ != "Bash"@,
        "ListMcpResources"@ != "BashOutput"@,
        "ListMcpResources"@ != "KillShell"@,
        "ListMcpResources"@ != "PowerShell"@,
        "ListMcpResources"@ != "REPL"@,
        "ToolSearch"@ != "WebFetch"@,
        "ToolSearch"@ != "WebSearch"@,
        "ToolSearch"@ != "Bash"@,
        "ToolSearch"@ != "BashOutput"@,
        "ToolSearch"@ != "KillShell"@,
        "ToolSearch"@ != "PowerShell"@,
        "ToolSearch"@ != "REPL"@,
        "TaskGet"@ != "WebFetch"@,
        "TaskGet"@ != "WebSearch"@,
        "TaskGet"@ != "Bash"@,
        "TaskGet"@ != "BashOutput"@,
        "TaskGet"@ != "KillShell"@,
        "TaskGet"@ != "PowerShell"@,
        "TaskGet"@ != "REPL"@,
        "TaskList"@ != "WebFetch"@,
        "TaskList"@ != "WebSearch"@,
        "TaskList"@ != "Bash"@,
        "TaskList"@ != "BashOutput"@,
        "TaskList"@ != "KillShell"@,
        "TaskList"@ != "PowerShell"@,
        "TaskList"@ != "REPL"@,
        "TaskOutput"@ != "WebFetch"@,
        "TaskOutput"@ != "WebSearch"@,
        "TaskOutput"@ != "Bash"@,
        "TaskOutput"@ != "BashOutput"@,
        "TaskOutput"@ != "KillShell"@,
        "TaskOutput"@ != "PowerShell"@,
        "TaskOutput"@ != "REPL"@,
        "WebFetch"@ != "Bash"@,
        "WebFetch"@ != "BashOutput"@,
        "WebFetch"@ != "KillShell"@,
        "WebFetch"@ != "PowerShell"@,
        "WebFetch"@ != "REPL"@,
        "WebSearch"@ != "Bash"@,
        "WebSearch"@ != "BashOutput"@,
        "WebSearch"@ != "KillShell"@,
        "WebSearch"@ != "PowerShell"@,
        "WebSearch"@ != "REPL"@,
{
    reveal_strlit("Write");
    reveal_strlit("FileWrite");
    reveal_strlit("Edit");
    reveal_strlit("FileEdit");
    reveal_strlit("MultiEdit");
    reveal_strlit("NotebookEdit");
    reveal_strlit("Read");
    reveal_strlit("FileRead");
    reveal_strlit("Grep");
    reveal_strlit("Glob");
    reveal_strlit("LS");
    reveal_strlit("NotebookRead");
    reveal_strlit("LSP");
    reveal_strlit("ReadMcpResource");
    reveal_strlit("ListMcpResources");
    reveal_strlit("ToolSearch");
    reveal_strlit("TaskGet");
    reveal_strlit("TaskList");
    reveal_strlit("TaskOutput");
    reveal_strlit("WebFetch");
    reveal_strlit("WebSearch");
    reveal_strlit("Bash");
    reveal_strlit("BashOutput");
    reveal_strlit("KillShell");
    reveal_strlit("PowerShell");
    reveal_strlit("REPL");
    assert("Write"@.len() == 5);
    assert("FileWrite"@.len() == 9);
    assert("Edit"@.len() == 4);
    assert("FileEdit"@.len() == 8);
    assert("MultiEdit"@.len() == 9);
    assert("NotebookEdit"@.len() == 12);
    assert("Read"@.len() == 4);
    assert("FileRead"@.len() == 8);
    assert("Grep"@.len() == 4);
    assert("Glob"@.len() == 4);
    assert("LS"@.len() == 2);
    assert("NotebookRead"@.len() == 12);
    assert("LSP"@.len() == 3);
    assert("ReadMcpResource"@.len() == 15);
    assert("ListMcpResources"@.len() == 16);
    assert("ToolSearch"@.len() == 10);
    assert("TaskGet"@.len() == 7);
    assert("TaskList"@.len() == 8);
    assert("TaskOutput"@.len() == 10);
    assert("WebFetch"@.len() == 8);
    assert("WebSearch"@.len() == 9);
    assert("Bash"@.len() == 4);
    assert("BashOutput"@.len() == 10);
    assert("KillShell"@.len() == 9);
    assert("PowerShell"@.len() == 10);
    assert("REPL"@.len() == 4);
    assert("FileWrite"@[0] != "WebSearch"@[0]);
    assert("FileWrite"@[0] != "KillShell"@[0]);
    assert("Edit"@[0] != "Read"@[0]);
    assert("Edit"@[0] != "Grep"@[0]);
    assert("Edit"@[0] != "Glob"@[0]);
    assert("Edit"@[0] != "Bash"@[0]);
    assert("Edit"@[0] != "REPL"@[0]);
    assert("FileEdit"@[4] != "FileRead"@[4]);
    assert("FileEdit"@[0] != "TaskList"@[0]);
    assert("FileEdit"@[0] != "WebFetch"@[0]);
    assert("MultiEdit"@[0] != "WebSearch"@[0]);
    assert("MultiEdit"@[0] != "KillShell"@[0]);
    assert("NotebookEdit"@[8] != "NotebookRead"@[8]);
    assert("Read"@[0] != "Bash"@[0]);
    assert("Read"@[1] != "REPL"@[1]);
    assert("FileRead"@[0] != "TaskList"@[0]);
    assert("FileRead"@[0] != "WebFetch"@[0]);
    assert("Grep"@[0] != "Bash"@[0]);
    assert("Grep"@[0] != "REPL"@[0]);
    assert("Glob"@[0] != "Bash"@[0]);
    assert("Glob"@[0] != "REPL"@[0]);
    assert("ToolSearch"@[0] != "BashOutput"@[0]);
    assert("ToolSearch"@[0] != "PowerShell"@[0]);
    assert("TaskList"@[0] != "WebFetch"@[0]);
    assert("TaskOutput"@[0] != "BashOutput"@[0]);
    assert("TaskOutput"@[0] != "PowerShell"@[0]);
    assert("WebSearch"@[0] != "KillShell"@[0]);
}

/// What a prefix claims: the first one that a tool's name starts with decides, and it admits the tool
/// where it lists none or lists what stands behind it.
proof fn lemma_first_claim(prefixes: Prefixes, i: int, tool: Seq<char>)
    requires
        0 <= i < prefixes.len(),
        prefixes[i].0.is_prefix_of(tool),
        forall|j: int| 0 <= j < i ==> !(#[trigger] prefixes[j]).0.is_prefix_of(tool),
    ensures
        claim(prefixes, tool) == Some(
            prefixes[i].1.len() == 0 || prefixes[i].1.contains(tool.skip(prefixes[i].0.len() as int)),
        ),
    decreases i,
{
    if i > 0 {
        let d = prefixes.drop_first();
        assert(!prefixes[0].0.is_prefix_of(tool));
        assert(d[i - 1] == prefixes[i]);
        assert forall|j: int| 0 <= j < i - 1 implies !(#[trigger] d[j]).0.is_prefix_of(tool) by {
            assert(d[j] == prefixes[j + 1]);
        }
        lemma_first_claim(d, i - 1, tool);
    }
}

/// A server's prefix decides over its tools: the first that fits, of the settling ones before the posting
/// ones before the reading ones, gives the call its class where it lists no tools or lists this one, and
/// else refuses it. Such a call has no path.
pub proof fn the_first_prefix_decides(
    tool: Seq<char>,
    input: Tree,
    settle: Prefixes,
    post: Prefixes,
    read: Prefixes,
    i: int,
)
    ensures
        claimed_by(settle, i, tool) ==> classified(tool, input, settle, post, read) == (if lists(settle[i], tool) {
            ToolClass::SettleTx
        } else {
            ToolClass::Other
        }, None::<Seq<char>>),
        unclaimed(settle, tool) && claimed_by(post, i, tool) ==> classified(tool, input, settle, post, read) == (
        if lists(post[i], tool) {
            ToolClass::Post
        } else {
            ToolClass::Other
        }, None::<Seq<char>>),
        unclaimed(settle, tool) && unclaimed(post, tool) && claimed_by(read, i, tool) ==> classified(
            tool,
            input,
            settle,
            post,
            read,
        ) == (if lists(read[i], tool) {
            ToolClass::Read
        } else {
            ToolClass::Other
        }, None::<Seq<char>>),
{
    if claimed_by(settle, i, tool) {
        lemma_first_claim(settle, i, tool);
    }
    if unclaimed(settle, tool) {
        lemma_unclaimed(settle, tool);
        if claimed_by(post, i, tool) {
            lemma_first_claim(post, i, tool);
        }
        if unclaimed(post, tool) {
            lemma_unclaimed(post, tool);
            if claimed_by(read, i, tool) {
                lemma_first_claim(read, i, tool);
            }
        }
    }
}

/// Whether prefix `i` is the first that a tool's name starts with.
pub open spec fn claimed_by(prefixes: Prefixes, i: int, tool: Seq<char>) -> bool {
    0 <= i < prefixes.len() && prefixes[i].0.is_prefix_of(tool) && forall|j: int|
        0 <= j < i ==> !(#[trigger] prefixes[j]).0.is_prefix_of(tool)
}

/// Whether a tool's name starts with none of the prefixes.
pub open spec fn unclaimed(prefixes: Prefixes, tool: Seq<char>) -> bool {
    forall|i: int| 0 <= i < prefixes.len() ==> !(#[trigger] prefixes[i]).0.is_prefix_of(tool)
}

/// Whether a prefix lists a tool: by what stands behind the prefix, or by listing none at all.
pub open spec fn lists(prefix: (Seq<char>, Seq<Seq<char>>), tool: Seq<char>) -> bool {
    prefix.1.len() == 0 || prefix.1.contains(tool.skip(prefix.0.len() as int))
}

/// Whether one of the path-like members of an input goes through the private runlogs.
pub open spec fn aims_at_runlogs(input: Tree) -> bool {
    ||| json::member(input, "file_path"@) matches Some(Tree::Text(p)) && has_segment(p, "runlogs"@)
    ||| json::member(input, "path"@) matches Some(Tree::Text(p)) && has_segment(p, "runlogs"@)
    ||| json::member(input, "pattern"@) matches Some(Tree::Text(p)) && has_segment(p, "runlogs"@)
}

proof fn lemma_runlogs_segment(path: Seq<char>)
    ensures
        through_runlogs(path) == has_segment(path, "runlogs"@),
{
    reveal_strlit("runlogs");
    let w = "runlogs"@;
    let all = text::pieces(path, '/');
    if through_runlogs(path) {
        let i = choose|i: int|
            0 <= i < all.len() && text::pieces(#[trigger] all[i], '\\').contains(w);
        let p = all[i];
        let j = text::lemma_piece_place(path, '/', i);
        let k = choose|k: int| 0 <= k < text::pieces(p, '\\').len() && text::pieces(p, '\\')[k] == w;
        let m = text::lemma_piece_place(p, '\\', k);
        assert(path.subrange(j, j + p.len()) == p);
        assert(path.subrange(j + m, j + m + w.len()) == p.subrange(m, m + w.len()));
        assert(m > 0 ==> path[j + m - 1] == p[m - 1]);
        assert(m + w.len() < p.len() ==> path[j + m + w.len()] == p[m + w.len()]);
        assert(text::at(path, w, j + m));
    }
    if has_segment(path, w) {
        let i = choose|i: int|
            {
                &&& #[trigger] text::at(path, w, i)
                &&& i == 0 || path[i - 1] == '/' || path[i - 1] == '\\'
                &&& i + w.len() == path.len() || path[i + w.len()] == '/' || path[i + w.len()] == '\\'
            };
        let l = text::lemma_start_of_piece(path, '/', i);
        let r = text::lemma_end_of_piece(path, '/', i + w.len());
        assert forall|x: int| i <= x < i + w.len() implies path[x] != '/' by {
            assert(path[x] == path.subrange(i, i + w.len())[x - i]);
        }
        let p = path.subrange(l, r);
        assert(!p.contains('/')) by {
            if p.contains('/') {
                let x = p.index_of('/');
                assert(path[l + x] == '/');
            }
        }
        text::lemma_place_is_piece(path, '/', l, p);
        assert(p.subrange(i - l, i - l + w.len()) == path.subrange(i, i + w.len()));
        assert(!w.contains('\\')) by {
            if w.contains('\\') {
                let x = w.index_of('\\');
                assert(w[x] == '\\');
            }
        }
        assert(i > l ==> p[i - l - 1] == path[i - 1]);
        assert(i + w.len() < r ==> p[i - l + w.len()] == path[i + w.len()]);
        text::lemma_place_is_piece(p, '\\', i - l, w);
        let k = choose|k: int| 0 <= k < all.len() && all[k] == p;
        assert(text::pieces(all[k], '\\').contains(w));
    }
}

/// The private runlogs are not read as files: a builtin that reads files is refused exactly where one of
/// the paths in its input has `runlogs` as a segment, and reads otherwise.
pub proof fn a_reader_is_refused_at_the_runlogs(
    tool: Seq<char>,
    input: Tree,
    settle: Prefixes,
    post: Prefixes,
    read: Prefixes,
)
    requires
        unclaimed(settle, tool),
        unclaimed(post, tool),
        unclaimed(read, tool),
        tool == "Read"@ || tool == "FileRead"@ || tool == "Grep"@ || tool == "Glob"@ || tool == "LS"@ || tool
            == "NotebookRead"@,
    ensures
        classified(tool, input, settle, post, read) == (if aims_at_runlogs(input) {
            ToolClass::Other
        } else {
            ToolClass::Read
        }, None::<Seq<char>>),
{
    lemma_unclaimed(settle, tool);
    lemma_unclaimed(post, tool);
    lemma_unclaimed(read, tool);
    assert forall|p: Seq<char>| #[trigger] through_runlogs(p) == has_segment(p, "runlogs"@) by {
        lemma_runlogs_segment(p);
    }
    if let Some(Tree::Text(p)) = json::member(input, "file_path"@) {
        lemma_runlogs_segment(p);
    }
    if let Some(Tree::Text(p)) = json::member(input, "path"@) {
        lemma_runlogs_segment(p);
    }
    if let Some(Tree::Text(p)) = json::member(input, "pattern"@) {
        lemma_runlogs_segment(p);
    }
}

/// No builtin has two classes: the names of those that read files, that reach the network, that look
/// things up, that write files and that run commands have none in common, so that nothing that writes
/// files is ever a read.
pub proof fn no_builtin_has_two_classes(tool: Seq<char>)
    ensures
        writes_files(tool) ==> !reads_files(tool) && !reads_locally(tool) && !reaches_out(tool) && !runs_commands(tool),
        reads_files(tool) ==> !reads_locally(tool) && !reaches_out(tool) && !runs_commands(tool),
        reads_locally(tool) ==> !reaches_out(tool) && !runs_commands(tool),
        reaches_out(tool) ==> !runs_commands(tool),
{
    lemma_builtins_differ();
}

} // verus!
