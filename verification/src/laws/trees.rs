//! Laws of trees and of the directories in them.
use vstd::prelude::*;
#[allow(unused_imports)]
use crate::plan::{PlanView, ReportView};
#[allow(unused_imports)]
use crate::tree::{
    a_place_below_is_under, a_place_under_is_below, all_applied, below, home, place_of, replaced,
    rest, seen_from, under,
};
#[allow(unused_imports)]
use crate::upkeep::{applied, at_path, lists, place};

verus! {

/// What is seen from a directory is what the tree holds below it, by the rest of
/// its place.
pub proof fn what_is_seen_from_a_directory(
    tree: Map<Seq<char>, Seq<char>>,
    directory: Seq<char>,
    path: Seq<char>,
)
    ensures
        directory.len() > 0 ==> below(directory, path) == directory + "/"@ + path,
        directory.len() == 0 ==> below(directory, path) == path,
        seen_from(tree, directory).contains_key(path) <==> tree.contains_key(
            below(directory, path),
        ),
        tree.contains_key(below(directory, path)) ==> seen_from(tree, directory)[path]
            == tree[below(directory, path)],
        at_path(tree, path) == (if tree.contains_key(path) {
            Some(tree[path])
        } else {
            None::<Seq<char>>
        }),
{
}

/// Replacing what a tree holds below a directory changes that, and nothing else.
pub proof fn only_the_directory_is_replaced(
    tree: Map<Seq<char>, Seq<char>>,
    directory: Seq<char>,
    now: Map<Seq<char>, Seq<char>>,
    full: Seq<char>,
)
    ensures
        (forall|path: Seq<char>| #[trigger] below(directory, path) != full) ==> at_path(
            replaced(tree, directory, now),
            full,
        ) == at_path(tree, full),
        forall|path: Seq<char>| #[trigger]
            below(directory, path) == full ==> at_path(replaced(tree, directory, now), full)
                == at_path(now, path),
{
    if under(directory, full) {
        a_place_under_is_below(directory, full);
        assert(below(directory, rest(directory, full)) == full);
    }
    assert forall|path: Seq<char>| #[trigger] below(directory, path) == full implies at_path(
        replaced(tree, directory, now),
        full,
    ) == at_path(now, path) by {
        a_place_below_is_under(directory, path);
    }
}

/// Plans are kept up one after the other, each in its own directory as the ones
/// before have left it.
pub proof fn plans_are_kept_up_one_after_the_other(
    plans: Seq<PlanView>,
    plan: PlanView,
    check: bool,
    tree: Map<Seq<char>, Seq<char>>,
    found: Seq<Seq<Seq<char>>>,
)
    ensures
        all_applied(Seq::empty(), check, tree, found) == (Seq::<ReportView>::empty(), tree),
        ({
            let (reports, before) = all_applied(plans, check, tree, found);
            let directory = place(plan.directory);
            let (report, now) = applied(
                plan,
                check,
                seen_from(before, directory),
                found[plans.len() as int],
            );
            all_applied(plans.push(plan), check, tree, found) == (
                reports.push(report),
                replaced(before, directory, now),
            )
        }),
        home(plan) == place(plan.directory),
        forall|i: int|
            0 <= i < plan.files.len() ==> #[trigger] place_of(plan, i) == below(
                place(plan.directory),
                place(plan.files[i].path),
            ),
{
    assert(plans.push(plan).drop_last() =~= plans);
}

/// A listing names all that a directory holds, and nothing else.
pub proof fn a_listing_names_all(
    found: Seq<Seq<char>>,
    directory: Map<Seq<char>, Seq<char>>,
    path: Seq<char>,
)
    requires
        lists(found, directory),
    ensures
        directory.contains_key(path) <==> exists|i: int|
            0 <= i < found.len() && #[trigger] found[i] == path,
{
    assert(found.contains(path) <==> directory.contains_key(path));
    if exists|i: int| 0 <= i < found.len() && #[trigger] found[i] == path {
        assert(found.contains(path));
    }
}

} // verus!
