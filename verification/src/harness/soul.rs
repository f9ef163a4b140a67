//! The soul's integrity after a step: which of its changed files the running state was allowed to
//! write, and which are put back.

use vstd::prelude::*;

use crate::state;
use crate::state::ConsciousnessState;
use crate::text;

verus! {

/// Whether a path stands under one of the directories.
pub open spec fn permitted(path: Seq<char>, writable: Seq<Seq<char>>) -> bool {
    exists|i: int| 0 <= i < writable.len() && (#[trigger] writable[i]).is_prefix_of(path)
}

/// The paths that are permitted, or those that are not, in their order.
pub open spec fn sorted_out(paths: Seq<Seq<char>>, writable: Seq<Seq<char>>, keep: bool) -> Seq<Seq<char>>
    decreases paths.len(),
{
    if paths.len() == 0 {
        paths
    } else {
        let rest = sorted_out(paths.drop_last(), writable, keep);
        if permitted(paths.last(), writable) == keep {
            rest.push(paths.last())
        } else {
            rest
        }
    }
}

fn is_permitted(path: &str, writable: &[String]) -> (r: bool)
    ensures
        r == permitted(path@, text::views(writable@)),
{
    let ghost w = text::views(writable@);
    let mut i: usize = 0;
    while i < writable.len()
        invariant
            i <= writable.len(),
            w == text::views(writable@),
            forall|j: int| 0 <= j < i ==> !(#[trigger] w[j]).is_prefix_of(path@),
        decreases writable.len() - i,
    {
        assert(w[i as int] == writable@[i as int]@);
        if text::starts_with(path, &writable[i]) {
            return true;
        }
        i += 1;
    }
    false
}

/// What becomes of the changed files: those to commit, and those to put back.
pub struct Sweep {
    pub allowed: Vec<String>,
    pub reverted: Vec<String>,
}

/// Sorts the changed files of the soul by what the running state may write.
pub fn reconcile_soul(changed: &[String], writable: &[String]) -> (r: Sweep)
    ensures
        text::views(r.allowed@) == sorted_out(text::views(changed@), text::views(writable@), true),
        text::views(r.reverted@) == sorted_out(text::views(changed@), text::views(writable@), false),
{
    let ghost all = text::views(changed@);
    let ghost w = text::views(writable@);
    let mut allowed: Vec<String> = Vec::new();
    let mut reverted: Vec<String> = Vec::new();
    let mut i: usize = 0;
    assert(text::views(allowed@) == sorted_out(all.take(0), w, true));
    assert(text::views(reverted@) == sorted_out(all.take(0), w, false));
    while i < changed.len()
        invariant
            i <= changed.len(),
            all == text::views(changed@),
            w == text::views(writable@),
            text::views(allowed@) == sorted_out(all.take(i as int), w, true),
            text::views(reverted@) == sorted_out(all.take(i as int), w, false),
        decreases changed.len() - i,
    {
        assert(all.take(i + 1).drop_last() == all.take(i as int));
        assert(all.take(i + 1).last() == changed@[i as int]@);
        let p = changed[i].clone();
        if is_permitted(&changed[i], writable) {
            let ghost before = allowed@;
            allowed.push(p);
            assert(text::views(allowed@) == text::views(before).push(p@));
        } else {
            let ghost before = reverted@;
            reverted.push(p);
            assert(text::views(reverted@) == text::views(before).push(p@));
        }
        i += 1;
    }
    assert(all.take(i as int) == all);
    Sweep { allowed, reverted }
}

/// Every changed file is either kept or put back, and never both; what is kept the state may write,
/// and what is put back it may not.
pub proof fn every_change_is_kept_or_reverted(paths: Seq<Seq<char>>, writable: Seq<Seq<char>>)
    ensures
        paths.to_multiset() == sorted_out(paths, writable, true).to_multiset().add(
            sorted_out(paths, writable, false).to_multiset(),
        ),
        forall|i: int|
            0 <= i < sorted_out(paths, writable, true).len() ==> permitted(
                #[trigger] sorted_out(paths, writable, true)[i],
                writable,
            ),
        forall|i: int|
            0 <= i < sorted_out(paths, writable, false).len() ==> !permitted(
                #[trigger] sorted_out(paths, writable, false)[i],
                writable,
            ),
    decreases paths.len(),
{
    broadcast use vstd::seq_lib::group_to_multiset_ensures;

    if paths.len() > 0 {
        let d = paths.drop_last();
        every_change_is_kept_or_reverted(d, writable);
        assert(paths == d.push(paths.last()));
        let a = sorted_out(d, writable, true);
        let b = sorted_out(d, writable, false);
        let x = paths.last();
        assert(paths.to_multiset() == d.to_multiset().insert(x));
        if permitted(x, writable) {
            assert(sorted_out(paths, writable, true).to_multiset() == a.to_multiset().insert(x));
            assert(a.to_multiset().insert(x).add(b.to_multiset()) =~= a.to_multiset().add(b.to_multiset()).insert(x));
        } else {
            assert(sorted_out(paths, writable, false).to_multiset() == b.to_multiset().insert(x));
            assert(a.to_multiset().add(b.to_multiset().insert(x)) =~= a.to_multiset().add(b.to_multiset()).insert(x));
        }
    } else {
        assert(paths.to_multiset() =~= sorted_out(paths, writable, true).to_multiset().add(
            sorted_out(paths, writable, false).to_multiset(),
        ));
    }
}

/// A state that may write nothing leaves nothing behind.
pub proof fn a_reader_leaves_no_trace(paths: Seq<Seq<char>>)
    ensures
        sorted_out(paths, Seq::empty(), true) == Seq::<Seq<char>>::empty(),
        sorted_out(paths, Seq::empty(), false) == paths,
    decreases paths.len(),
{
    if paths.len() > 0 {
        a_reader_leaves_no_trace(paths.drop_last());
        assert(paths == paths.drop_last().push(paths.last()));
    }
}

/// The message of the commit that keeps the allowed changes.
pub open spec fn sweep_text(run_id: Seq<char>, state: ConsciousnessState, n: int) -> Seq<char> {
    "run "@ + run_id + " "@ + state::name(state) + ": sweep "@ + text::decimal(n) + " path(s)"@
}

/// The message of the commit that keeps the allowed changes.
pub fn sweep_message(run_id: &str, state: ConsciousnessState, n: usize) -> (r: String)
    ensures
        r@ == sweep_text(run_id@, state, n as int),
{
    let mut r = "run ".to_owned();
    r.append(run_id);
    r.append(" ");
    r.append(state::state_name(state));
    r.append(": sweep ");
    let d = text::nat_text(n as u128);
    r.append(&d);
    r.append(" path(s)");
    r
}

/// A path is permitted where it stands under one of the directories that the state may write, and each
/// path is sorted in its order to the kept or to the reverted.
pub proof fn a_path_is_kept_under_its_directory(
    paths: Seq<Seq<char>>,
    writable: Seq<Seq<char>>,
    dir: Seq<char>,
    rest: Seq<char>,
    other: Seq<char>,
)
    ensures
        writable.contains(dir) ==> sorted_out(paths.push(dir + rest), writable, true) == sorted_out(
            paths,
            writable,
            true,
        ).push(dir + rest) && sorted_out(paths.push(dir + rest), writable, false) == sorted_out(
            paths,
            writable,
            false,
        ),
        (forall|i: int| 0 <= i < writable.len() ==> !(#[trigger] writable[i]).is_prefix_of(other)) ==> sorted_out(
            paths.push(other),
            writable,
            true,
        ) == sorted_out(paths, writable, true) && sorted_out(paths.push(other), writable, false) == sorted_out(
            paths,
            writable,
            false,
        ).push(other),
{
    assert(paths.push(dir + rest).drop_last() == paths);
    assert(paths.push(other).drop_last() == paths);
    if writable.contains(dir) {
        let i = choose|i: int| 0 <= i < writable.len() && writable[i] == dir;
        assert((dir + rest).subrange(0, dir.len() as int) == dir);
        assert(writable[i].is_prefix_of(dir + rest));
        assert(permitted(dir + rest, writable));
    }
}

/// A sweep is committed under its run, its state and how many paths it keeps.
pub proof fn a_sweep_names_its_run(run_id: Seq<char>, state: ConsciousnessState, n: int)
    ensures
        sweep_text(run_id, state, n) == "run "@ + run_id + " "@ + state::name(state) + ": sweep "@ + text::decimal(n)
            + " path(s)"@,
{
}

} // verus!
