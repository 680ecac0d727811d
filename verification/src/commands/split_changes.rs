//! What `kin split` makes of the rows of the edited text: which branches are created or moved.

use crate::commands::split::pairs;
use crate::lists::{chosen, lemma_chosen_next, lemma_chosen_none};
use crate::text::{has_text, is_text, opt_string, strs};
use vstd::prelude::*;

verus! {

/// What is done about a branch that the edited text names.
#[derive(Debug, Clone, Copy, PartialEq, Eq, Structural)]
pub enum SplitAction {
    /// It is where it should be.
    Keep,
    /// There is no such branch yet.
    Create,
    /// It belongs to the stack and moves.
    Move,
    /// It does not belong to the stack: the user is asked.
    AskOverwrite,
}

/// What is done about a branch. `existing` is none where there is no such branch; a branch may be
/// without a commit of its own.
pub open spec fn action_for(
    name: Seq<char>,
    id: Seq<char>,
    existing: Option<Option<Seq<char>>>,
    initial: Seq<Seq<char>>,
    allowed: Seq<Seq<char>>,
) -> SplitAction {
    match existing {
        None => SplitAction::Create,
        Some(tip) => if tip == Some(id) {
            SplitAction::Keep
        } else if initial.contains(name) || (tip is Some && allowed.contains(tip->0)) {
            SplitAction::Move
        } else {
            SplitAction::AskOverwrite
        },
    }
}

pub open spec fn opt_opt(s: Option<Option<String>>) -> Option<Option<Seq<char>>> {
    match s {
        Some(t) => Some(opt_string(t)),
        None => None,
    }
}

/// Decides about one branch. `initial_names` are the branches of the path and `allowed_ids` its
/// commits.
pub fn split_action(
    name: &str,
    id: &str,
    existing: &Option<Option<String>>,
    initial_names: &Vec<String>,
    allowed_ids: &Vec<String>,
) -> (r: SplitAction)
    ensures
        r == action_for(
            name@,
            id@,
            opt_opt(*existing),
            strs(initial_names@),
            strs(allowed_ids@),
        ),
{
    match existing {
        None => SplitAction::Create,
        Some(tip) => {
            if is_text(tip, id) {
                return SplitAction::Keep;
            }
            let on_path = match tip {
                Some(t) => has_text(allowed_ids, t.as_str()),
                None => false,
            };
            if has_text(initial_names, name) || on_path {
                SplitAction::Move
            } else {
                SplitAction::AskOverwrite
            }
        },
    }
}

/// A branch outside the stack is never moved without asking.
pub proof fn law_foreign_branches_are_asked_about(
    name: Seq<char>,
    id: Seq<char>,
    tip: Option<Seq<char>>,
    initial: Seq<Seq<char>>,
    allowed: Seq<Seq<char>>,
)
    requires
        !initial.contains(name),
        tip is Some ==> !allowed.contains(tip->0),
    ensures
        action_for(name, id, Some(tip), initial, allowed) != SplitAction::Move,
        action_for(name, id, Some(tip), initial, allowed) != SplitAction::Create,
{
}

/// A branch that is created or moved.
#[derive(Debug)]
pub struct BranchChange {
    pub name: String,
    pub id: String,
    /// The branch is there already.
    pub force: bool,
}

/// A branch, its new commit, and whether it is there already.
pub type PlacedView = (Seq<char>, Seq<char>, bool);

pub open spec fn placed_view(c: BranchChange) -> PlacedView {
    (c.name@, c.id@, c.force)
}

pub open spec fn placed_views(v: Seq<BranchChange>) -> Seq<PlacedView> {
    Seq::new(v.len(), |i: int| placed_view(v[i]))
}

/// What each row's branch is now.
pub open spec fn tips_now(v: Seq<Option<Option<String>>>) -> Seq<Option<Option<Seq<char>>>> {
    Seq::new(v.len(), |i: int| opt_opt(v[i]))
}

/// What becomes of a row: nothing where the branch is in place, or where the user does not agree to
/// overwrite it.
pub open spec fn change_for(
    row: (Seq<char>, Seq<char>),
    existing: Option<Option<Seq<char>>>,
    initial: Seq<Seq<char>>,
    allowed: Seq<Seq<char>>,
    agreed: Seq<Seq<char>>,
) -> Option<PlacedView> {
    match action_for(row.0, row.1, existing, initial, allowed) {
        SplitAction::Keep => None,
        SplitAction::Create => Some((row.0, row.1, false)),
        SplitAction::Move => Some((row.0, row.1, true)),
        SplitAction::AskOverwrite => if agreed.contains(row.0) {
            Some((row.0, row.1, true))
        } else {
            None
        },
    }
}

/// The branches that are created or moved, in the order of the rows.
pub open spec fn changes_of(
    rows: Seq<(Seq<char>, Seq<char>)>,
    existing: Seq<Option<Option<Seq<char>>>>,
    initial: Seq<Seq<char>>,
    allowed: Seq<Seq<char>>,
    agreed: Seq<Seq<char>>,
) -> Seq<PlacedView>
    decreases rows.len(),
{
    if rows.len() == 0 {
        Seq::empty()
    } else {
        let before = changes_of(rows.drop_last(), existing, initial, allowed, agreed);
        match change_for(rows.last(), existing[rows.len() - 1], initial, allowed, agreed) {
            Some(change) => before.push(change),
            None => before,
        }
    }
}

/// The branches that the user is asked about, in the order of the rows.
pub open spec fn asked(
    rows: Seq<(Seq<char>, Seq<char>)>,
    existing: Seq<Option<Option<Seq<char>>>>,
    initial: Seq<Seq<char>>,
    allowed: Seq<Seq<char>>,
) -> Seq<Seq<char>>
    decreases rows.len(),
{
    if rows.len() == 0 {
        Seq::empty()
    } else {
        let before = asked(rows.drop_last(), existing, initial, allowed);
        let row = rows.last();
        if action_for(row.0, row.1, existing[rows.len() - 1], initial, allowed)
            == SplitAction::AskOverwrite {
            before.push(row.0)
        } else {
            before
        }
    }
}

/// The branches that the user is asked about. `existing` holds what each row's branch is now.
pub fn overwrites_to_ask(
    rows: &Vec<(String, String)>,
    existing: &Vec<Option<Option<String>>>,
    initial_names: &Vec<String>,
    allowed_ids: &Vec<String>,
) -> (r: Vec<String>)
    requires
        existing@.len() == rows@.len(),
    ensures
        strs(r@) == asked(
            pairs(rows@),
            tips_now(existing@),
            strs(initial_names@),
            strs(allowed_ids@),
        ),
{
    let ghost all = pairs(rows@);
    let ghost now = tips_now(existing@);
    let ghost initial = strs(initial_names@);
    let ghost allowed = strs(allowed_ids@);
    let mut out: Vec<String> = Vec::new();
    let mut i: usize = 0;
    assert(strs(out@) =~= Seq::<Seq<char>>::empty());
    while i < rows.len()
        invariant
            i <= rows@.len() == existing@.len(),
            all == pairs(rows@),
            now == tips_now(existing@),
            initial == strs(initial_names@),
            allowed == strs(allowed_ids@),
            strs(out@) == asked(all.take(i as int), now, initial, allowed),
        decreases rows@.len() - i,
    {
        let row = &rows[i];
        proof {
            assert(all.take(i + 1).drop_last() =~= all.take(i as int));
            assert(all.take(i + 1).last() == (row.0@, row.1@));
            assert(now[i as int] == opt_opt(existing@[i as int]));
        }
        let ghost before = out@;
        let action = split_action(
            row.0.as_str(),
            row.1.as_str(),
            &existing[i],
            initial_names,
            allowed_ids,
        );
        if action == SplitAction::AskOverwrite {
            out.push(row.0.clone());
            assert(strs(out@) =~= strs(before).push(row.0@));
        }
        i += 1;
    }
    assert(all.take(all.len() as int) =~= all);
    out
}

/// The branches that are created or moved. `existing` holds what each row's branch is now, and
/// `agreed` the branches that the user agrees to overwrite.
pub fn split_changes(
    rows: &Vec<(String, String)>,
    existing: &Vec<Option<Option<String>>>,
    initial_names: &Vec<String>,
    allowed_ids: &Vec<String>,
    agreed: &Vec<String>,
) -> (r: Vec<BranchChange>)
    requires
        existing@.len() == rows@.len(),
    ensures
        placed_views(r@) == changes_of(
            pairs(rows@),
            tips_now(existing@),
            strs(initial_names@),
            strs(allowed_ids@),
            strs(agreed@),
        ),
{
    let ghost all = pairs(rows@);
    let ghost now = tips_now(existing@);
    let ghost initial = strs(initial_names@);
    let ghost allowed = strs(allowed_ids@);
    let ghost yes = strs(agreed@);
    let mut out: Vec<BranchChange> = Vec::new();
    let mut i: usize = 0;
    assert(placed_views(out@) =~= Seq::<PlacedView>::empty());
    while i < rows.len()
        invariant
            i <= rows@.len() == existing@.len(),
            all == pairs(rows@),
            now == tips_now(existing@),
            initial == strs(initial_names@),
            allowed == strs(allowed_ids@),
            yes == strs(agreed@),
            placed_views(out@) == changes_of(all.take(i as int), now, initial, allowed, yes),
        decreases rows@.len() - i,
    {
        let row = &rows[i];
        proof {
            assert(all.take(i + 1).drop_last() =~= all.take(i as int));
            assert(all.take(i + 1).last() == (row.0@, row.1@));
            assert(now[i as int] == opt_opt(existing@[i as int]));
        }
        let ghost before = out@;
        let action = split_action(
            row.0.as_str(),
            row.1.as_str(),
            &existing[i],
            initial_names,
            allowed_ids,
        );
        let force: Option<bool> = match action {
            SplitAction::Keep => None,
            SplitAction::Create => Some(false),
            SplitAction::Move => Some(true),
            SplitAction::AskOverwrite => if has_text(agreed, row.0.as_str()) {
                Some(true)
            } else {
                None
            },
        };
        if let Some(force) = force {
            let change = BranchChange { name: row.0.clone(), id: row.1.clone(), force };
            out.push(change);
            assert(placed_views(out@) =~= placed_views(before).push(placed_view(change)));
        }
        i += 1;
    }
    assert(all.take(all.len() as int) =~= all);
    out
}

/// The changes come from the rows: a branch that is in place and one that the user does not agree
/// to overwrite are left out, every other row has its change, and a change is forced exactly where
/// the branch is there.
pub proof fn law_changes_follow_the_rows(
    rows: Seq<(Seq<char>, Seq<char>)>,
    existing: Seq<Option<Option<Seq<char>>>>,
    initial: Seq<Seq<char>>,
    allowed: Seq<Seq<char>>,
    agreed: Seq<Seq<char>>,
)
    requires
        existing.len() == rows.len(),
    ensures
        forall|c: PlacedView| #[trigger]
            changes_of(rows, existing, initial, allowed, agreed).contains(c) <==> exists|i: int| {
                &&& 0 <= i < rows.len()
                &&& #[trigger] rows[i] == (c.0, c.1)
                &&& existing[i] != Some(Some(c.1))
                &&& c.2 == (existing[i] is Some)
                &&& action_for(c.0, c.1, existing[i], initial, allowed) == SplitAction::AskOverwrite
                    ==> agreed.contains(c.0)
            },
{
    assert forall|c: PlacedView| #[trigger]
        changes_of(rows, existing, initial, allowed, agreed).contains(c) <==> exists|i: int| {
            &&& 0 <= i < rows.len()
            &&& #[trigger] rows[i] == (c.0, c.1)
            &&& existing[i] != Some(Some(c.1))
            &&& c.2 == (existing[i] is Some)
            &&& action_for(c.0, c.1, existing[i], initial, allowed) == SplitAction::AskOverwrite
                ==> agreed.contains(c.0)
        } by {
        lemma_change_of_row(rows, existing, initial, allowed, agreed, c);
        let all = changes_of(rows, existing, initial, allowed, agreed);
        if all.contains(c) {
            let i = choose|i: int|
                0 <= i < rows.len() && change_for(
                    #[trigger] rows[i],
                    existing[i],
                    initial,
                    allowed,
                    agreed,
                ) == Some(c);
            assert(rows[i] == (c.0, c.1));
        }
        if exists|i: int| {
            &&& 0 <= i < rows.len()
            &&& #[trigger] rows[i] == (c.0, c.1)
            &&& existing[i] != Some(Some(c.1))
            &&& c.2 == (existing[i] is Some)
            &&& action_for(c.0, c.1, existing[i], initial, allowed) == SplitAction::AskOverwrite
                ==> agreed.contains(c.0)
        } {
            let i = choose|i: int| {
                &&& 0 <= i < rows.len()
                &&& #[trigger] rows[i] == (c.0, c.1)
                &&& existing[i] != Some(Some(c.1))
                &&& c.2 == (existing[i] is Some)
                &&& action_for(c.0, c.1, existing[i], initial, allowed) == SplitAction::AskOverwrite
                    ==> agreed.contains(c.0)
            };
            assert(change_for(rows[i], existing[i], initial, allowed, agreed) == Some(c));
        }
    }
}

/// A change is in the list exactly where a row makes it.
pub proof fn lemma_change_of_row(
    rows: Seq<(Seq<char>, Seq<char>)>,
    existing: Seq<Option<Option<Seq<char>>>>,
    initial: Seq<Seq<char>>,
    allowed: Seq<Seq<char>>,
    agreed: Seq<Seq<char>>,
    c: PlacedView,
)
    requires
        existing.len() >= rows.len(),
    ensures
        changes_of(rows, existing, initial, allowed, agreed).contains(c) <==> exists|i: int|
            0 <= i < rows.len() && change_for(
                #[trigger] rows[i],
                existing[i],
                initial,
                allowed,
                agreed,
            ) == Some(c),
    decreases rows.len(),
{
    if rows.len() > 0 {
        let short = rows.drop_last();
        lemma_change_of_row(short, existing, initial, allowed, agreed, c);
        let before = changes_of(short, existing, initial, allowed, agreed);
        let all = changes_of(rows, existing, initial, allowed, agreed);
        let n = rows.len() - 1;
        if all.contains(c) {
            let k = all.index_of(c);
            if k < before.len() {
                assert(before[k] == c);
                let i = choose|i: int|
                    0 <= i < short.len() && change_for(
                        #[trigger] short[i],
                        existing[i],
                        initial,
                        allowed,
                        agreed,
                    ) == Some(c);
                assert(rows[i] == short[i]);
            } else {
                assert(change_for(rows[n], existing[n], initial, allowed, agreed) == Some(c));
            }
        }
        if exists|i: int|
            0 <= i < rows.len() && change_for(
                #[trigger] rows[i],
                existing[i],
                initial,
                allowed,
                agreed,
            ) == Some(c) {
            let i = choose|i: int|
                0 <= i < rows.len() && change_for(
                    #[trigger] rows[i],
                    existing[i],
                    initial,
                    allowed,
                    agreed,
                ) == Some(c);
            if i < n {
                assert(short[i] == rows[i]);
                let k = before.index_of(c);
                assert(all[k] == c);
            } else {
                assert(all[all.len() - 1] == c);
            }
        }
    }
}

/// The user is asked about a branch exactly where it is there, elsewhere than the row puts it, was not
/// on the path before, and is on no commit that the split may take branches from.
pub proof fn law_user_is_asked(
    rows: Seq<(Seq<char>, Seq<char>)>,
    existing: Seq<Option<Option<Seq<char>>>>,
    initial: Seq<Seq<char>>,
    allowed: Seq<Seq<char>>,
    n: int,
)
    requires
        0 <= n <= rows.len(),
    ensures
        asked(rows.take(n), existing, initial, allowed) == chosen(
            n,
            |k: int|
                existing[k] is Some && existing[k]->0 != Some(rows[k].1) && !initial.contains(
                    rows[k].0,
                ) && !(existing[k]->0 matches Some(tip) && allowed.contains(tip)),
            |k: int| rows[k].0,
        ),
    decreases n,
{
    let keep = |k: int|
        existing[k] is Some && existing[k]->0 != Some(rows[k].1) && !initial.contains(rows[k].0)
            && !(existing[k]->0 matches Some(tip) && allowed.contains(tip));
    let give = |k: int| rows[k].0;
    if n > 0 {
        law_user_is_asked(rows, existing, initial, allowed, n - 1);
        lemma_chosen_next(n - 1, keep, give);
        assert(rows.take(n).drop_last() =~= rows.take(n - 1));
        assert(rows.take(n).last() == rows[n - 1]);
    } else {
        lemma_chosen_none(keep, give);
    }
}

/// A row makes the branch where there is none, leaves it where it is there already, and else moves it,
/// after a question where it is not one of the path.
pub proof fn law_row_is_carried_out(
    name: Seq<char>,
    id: Seq<char>,
    existing: Option<Option<Seq<char>>>,
    initial: Seq<Seq<char>>,
    allowed: Seq<Seq<char>>,
)
    ensures
        ({
            let a = action_for(name, id, existing, initial, allowed);
            let known = initial.contains(name) || (existing matches Some(Some(tip))
                && allowed.contains(tip));
            &&& a == SplitAction::Create <==> existing is None
            &&& a == SplitAction::Keep <==> existing == Some(Some(id))
            &&& a == SplitAction::Move <==> existing is Some && existing != Some(Some(id)) && known
            &&& a == SplitAction::AskOverwrite <==> existing is Some && existing != Some(Some(id))
                && !known
        }),
{
}

} // verus!
