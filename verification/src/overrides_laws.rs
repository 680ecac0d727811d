//! What putting local overrides aside, bringing them back and removing them does in the end.

use crate::lists::{chosen, lemma_chosen_next, lemma_chosen_none};
use crate::overrides::{
    base64_bytes, indexed_of, is_unsafe, non_empty, saved_file, skipped_of, Contents, FileView,
    Phase, SavedFile,
};
use crate::overrides_flow::{
    apply_after, both_errors, first_bad_status, prepare_after, removal_after, suspend_start,
    ApplyStep, PrepareStep, RemovalStep, SuspendFacts, SuspendStart,
};
use crate::text::{lower_text, split_on};
use crate::text_laws::law_pieces_make_up_the_text;
use vstd::prelude::*;

verus! {

/// The first `n` steps of putting overrides aside.
pub open spec fn prepared(n: nat) -> Seq<PrepareStep>
    decreases n,
{
    if n == 0 {
        Seq::empty()
    } else {
        let before = prepared((n - 1) as nat);
        before.push(
            prepare_after(
                if before.len() == 0 {
                    None
                } else {
                    Some(before.last())
                },
            ),
        )
    }
}

/// Putting overrides aside ends only once the contents were saved, the flags cleared, the files removed,
/// those of the index checked out, and the state noted, each once and in that order.
pub proof fn law_overrides_are_put_aside_whole()
    ensures
        prepared(6) == seq![
            PrepareStep::Save,
            PrepareStep::ClearFlags,
            PrepareStep::RemoveFiles,
            PrepareStep::CheckoutIndex,
            PrepareStep::SaveSuspended,
            PrepareStep::Done,
        ],
{
    reveal_with_fuel(prepared, 7);
    assert(prepared(1) =~= seq![PrepareStep::Save]);
    assert(prepared(2) =~= seq![PrepareStep::Save, PrepareStep::ClearFlags]);
    assert(prepared(3) =~= seq![
        PrepareStep::Save,
        PrepareStep::ClearFlags,
        PrepareStep::RemoveFiles,
    ]);
    assert(prepared(4) =~= prepared(3).push(PrepareStep::CheckoutIndex));
    assert(prepared(5) =~= prepared(4).push(PrepareStep::SaveSuspended));
    assert(prepared(6) =~= prepared(5).push(PrepareStep::Done));
}

/// The first `n` steps of bringing overrides back.
pub open spec fn applied(n: nat) -> Seq<ApplyStep>
    decreases n,
{
    if n == 0 {
        Seq::empty()
    } else {
        let before = applied((n - 1) as nat);
        before.push(
            apply_after(
                if before.len() == 0 {
                    None
                } else {
                    Some(before.last())
                },
            ),
        )
    }
}

/// Bringing overrides back ends only once nothing was found staged, the contents were saved, the
/// commands run, the flags set, and the mark and the saved state removed, each once and in that order.
pub proof fn law_overrides_are_brought_back_whole()
    ensures
        applied(7) == seq![
            ApplyStep::CheckStaged,
            ApplyStep::Save,
            ApplyStep::RunHooks,
            ApplyStep::SetFlags,
            ApplyStep::RemoveMarker,
            ApplyStep::RemoveState,
            ApplyStep::Done,
        ],
{
    reveal_with_fuel(applied, 8);
    assert(applied(1) =~= seq![ApplyStep::CheckStaged]);
    assert(applied(2) =~= seq![ApplyStep::CheckStaged, ApplyStep::Save]);
    assert(applied(3) =~= applied(2).push(ApplyStep::RunHooks));
    assert(applied(4) =~= applied(3).push(ApplyStep::SetFlags));
    assert(applied(5) =~= applied(4).push(ApplyStep::RemoveMarker));
    assert(applied(6) =~= applied(5).push(ApplyStep::RemoveState));
    assert(applied(7) =~= applied(6).push(ApplyStep::Done));
}

/// Removing overrides first marks them as disabled, then drops the saved state, and then ends.
pub proof fn law_overrides_are_removed_whole()
    ensures
        ({
            let one = removal_after(None);
            let two = removal_after(Some(one));
            one == RemovalStep::WriteMarker && two == RemovalStep::RemoveState && removal_after(
                Some(two),
            ) == RemovalStep::Done
        }),
{
}

/// What an operation begins with. Without a saved state overrides are put aside, unless there are none
/// or the operation is a recovery; that has to wait while another operation is under way. A saved state
/// stops every operation but a recovery, which first takes back what was only begun, and first ends a
/// removal unless an operation is under way.
pub proof fn law_operation_begins_with_the_overrides(f: SuspendFacts)
    ensures
        ({
            let start = suspend_start(f);
            let active = !f.disabled && f.configured;
            &&& start == Some(SuspendStart::Prepare) <==> f.saved is None && !f.recovery && active
                && !f.busy
            &&& start == Some(SuspendStart::Run) <==> f.saved is None && (f.recovery || !active)
            &&& start == Some(SuspendStart::RollBackThenRun) <==> f.recovery && (f.saved matches
                Some((phase, _)) && phase == Phase::Preparing)
            &&& start == Some(SuspendStart::FinishRemovalThenRun) <==> f.recovery && !f.busy && (
            f.saved matches Some((phase, removing)) && phase != Phase::Preparing && removing)
            &&& start == Some(SuspendStart::Resume) <==> f.recovery && (f.saved matches Some(
                (phase, removing),
            ) && phase != Phase::Preparing && !removing)
            &&& start is None <==> (f.saved is None && !f.recovery && active && f.busy) || (f.saved
                is Some && !f.recovery) || (f.recovery && f.busy && (f.saved matches Some(
                (phase, removing),
            ) && phase != Phase::Preparing && removing))
        }),
{
}

/// No error is lost: there is one exactly where there was one, and both are told where there were two.
pub proof fn law_no_error_is_lost(
    first: Option<Seq<char>>,
    joint: Seq<char>,
    second: Option<Seq<char>>,
)
    ensures
        both_errors(first, joint, second) is None <==> first is None && second is None,
        first is Some ==> first->0.is_prefix_of(both_errors(first, joint, second)->0),
        first is Some && second is Some ==> both_errors(first, joint, second) == Some(
            first->0 + joint + second->0,
        ),
        first is None ==> both_errors(first, joint, second) == second,
{
    if first is Some && second is Some {
        let all = first->0 + joint + second->0;
        assert(all.take(first->0.len() as int) =~= first->0);
    }
}

/// The failure that ends the commands is the first one.
pub proof fn law_first_failure_counts(statuses: Seq<Option<String>>)
    ensures
        ({
            let i = first_bad_status(statuses);
            &&& 0 <= i <= statuses.len()
            &&& i < statuses.len() ==> statuses[i] is Some
            &&& forall|j: int| 0 <= j < i ==> (#[trigger] statuses[j]) is None
        }),
    decreases statuses.len(),
{
    if statuses.len() > 0 && statuses[0] is None {
        let rest = statuses.drop_first();
        law_first_failure_counts(rest);
        let i = first_bad_status(statuses);
        assert forall|j: int| 0 <= j < i implies (#[trigger] statuses[j]) is None by {
            if j > 0 {
                assert(rest[j - 1] == statuses[j]);
            }
        }
    }
}

/// The paths of a listing are its pieces between zeros, but for empty ones.
pub proof fn law_listed_paths(v: Seq<Seq<char>>, n: int)
    requires
        0 <= n <= v.len(),
    ensures
        non_empty(v.take(n)) == chosen(n, |k: int| v[k].len() > 0, |k: int| v[k]),
        skipped_of(v.take(n)) == chosen(
            n,
            |k: int| "S "@.is_prefix_of(v[k]) || "s "@.is_prefix_of(v[k]),
            |k: int| v[k].skip(2),
        ),
    decreases n,
{
    let filled = |k: int| v[k].len() > 0;
    let all = |k: int| v[k];
    let skipped = |k: int| "S "@.is_prefix_of(v[k]) || "s "@.is_prefix_of(v[k]);
    let path = |k: int| v[k].skip(2);
    if n > 0 {
        law_listed_paths(v, n - 1);
        lemma_chosen_next(n - 1, filled, all);
        lemma_chosen_next(n - 1, skipped, path);
        assert(v.take(n).drop_last() =~= v.take(n - 1));
        assert(v.take(n).last() == v[n - 1]);
    } else {
        lemma_chosen_none(filled, all);
        lemma_chosen_none(skipped, path);
    }
}

/// Git is told of every saved file that is in the index, or of those among them that have the flag or
/// have it not.
pub proof fn law_files_of_the_index(files: Seq<SavedFile>, skip: Option<bool>, n: int)
    requires
        0 <= n <= files.len(),
    ensures
        indexed_of(files.take(n), skip) == chosen(
            n,
            |k: int| files[k].indexed && (skip matches Some(b) ==> files[k].skip == b),
            |k: int| files[k].path@,
        ),
    decreases n,
{
    let keep = |k: int| files[k].indexed && (skip matches Some(b) ==> files[k].skip == b);
    let give = |k: int| files[k].path@;
    if n > 0 {
        law_files_of_the_index(files, skip, n - 1);
        lemma_chosen_next(n - 1, keep, give);
        assert(files.take(n).drop_last() =~= files.take(n - 1));
        assert(files.take(n).last() == files[n - 1]);
    } else {
        lemma_chosen_none(keep, give);
    }
}

/// A path that is accepted does not begin at the root, does not go up anywhere, and has no part that is
/// git's own directory in whatever case.
pub proof fn law_accepted_path_stays_inside(name: Seq<char>)
    requires
        !is_unsafe(name),
    ensures
        !"/"@.is_prefix_of(name),
        forall|i: int|
            0 <= i < split_on(name, '/').len() ==> #[trigger] split_on(name, '/')[i] != ".."@
                && lower_text(split_on(name, '/')[i]) != ".git"@,
        split_on(name, '/')[0] != "."@,
{
    law_pieces_make_up_the_text(name, '/');
}

/// What is brought back is a file where one was saved, a link where one was, and nothing where there was
/// nothing; it fails only for contents that cannot be read.
pub proof fn law_saved_kind_is_brought_back(c: Contents)
    ensures
        c is Missing <==> saved_file(c) == Some(FileView::Missing),
        c matches Contents::Symlink(target) ==> saved_file(c) == Some(FileView::Symlink(target@)),
        c matches Contents::File { data, mode } ==> match base64_bytes(data@) {
            Some(bytes) => saved_file(c) == Some(FileView::File(bytes, mode)),
            None => saved_file(c) is None,
        },
{
}

} // verus!
