//! What keeping a directory up to date comes to, over a model of the directory:
//! each file's contents by its path, as a listing of the directory gives it. The
//! model has no links, and nothing in it fails to be read, written or removed.
use vstd::prelude::*;
#[allow(unused_imports)]
use crate::files::FileView;
#[allow(unused_imports)]
use crate::plan::{
    blank, is_stale, lies_in, observed, owned, planned, stale_among, PlanView, ReportView,
};
#[allow(unused_imports)]
use crate::signature::signed;
#[allow(unused_imports)]
use crate::text::{
    joined, sorted, sorted_is_an_ordered_rearrangement, sorted_is_the_same_for_every_order, split,
};

verus! {

/// What stands at a path.
pub open spec fn at_path(directory: Map<Seq<char>, Seq<char>>, path: Seq<char>) -> Option<
    Seq<char>,
> {
    if directory.contains_key(path) {
        Some(directory[path])
    } else {
        None
    }
}

/// The components of a path that are not empty and do not stand for the
/// directory itself.
pub open spec fn components(path: Seq<char>) -> Seq<Seq<char>> {
    split(path, '/').filter(|part: Seq<char>| part.len() > 0 && part != "."@)
}

/// The path by which a listing names what is written to a path: without the
/// components that are empty or stand for the directory itself. No component
/// is taken to climb out of its directory.
pub open spec fn place(path: Seq<char>) -> Seq<char> {
    joined(components(path), "/"@)
}

/// Whether a file of a plan is written to a place.
pub open spec fn placed_at(plan: PlanView, path: Seq<char>) -> bool {
    exists|i: int| 0 <= i < plan.files.len() && place((#[trigger] plan.files[i]).path) == path
}

/// A file of a plan as it is written.
pub open spec fn written(plan: PlanView, file: FileView) -> Seq<char> {
    signed(file.path, file.body, plan.style)
}

/// The report and the directory after the first `n` files of a plan. A check
/// looks and writes nothing.
pub open spec fn after_files(
    plan: PlanView,
    check: bool,
    directory: Map<Seq<char>, Seq<char>>,
    n: nat,
) -> (ReportView, Map<Seq<char>, Seq<char>>)
    decreases n,
{
    if n == 0 {
        (blank(), directory)
    } else {
        let (report, now) = after_files(plan, check, directory, (n - 1) as nat);
        let file = plan.files[n - 1];
        let found = at_path(now, place(file.path));
        (
            observed(report, file, plan.style, found),
            if check || found == Some(written(plan, file)) {
                now
            } else {
                now.insert(place(file.path), written(plan, file))
            },
        )
    }
}

/// Whether a listing names what a directory holds, in whatever order.
pub open spec fn lists(found: Seq<Seq<char>>, directory: Map<Seq<char>, Seq<char>>) -> bool {
    forall|path: Seq<char>| #[trigger] found.contains(path) <==> directory.contains_key(path)
}

/// The report and the directory after all of a plan, with `found` the listing
/// of the directory after the plan's files. A check removes nothing.
pub open spec fn applied(
    plan: PlanView,
    check: bool,
    directory: Map<Seq<char>, Seq<char>>,
    found: Seq<Seq<char>>,
) -> (ReportView, Map<Seq<char>, Seq<char>>) {
    let (report, now) = after_files(plan, check, directory, plan.files.len());
    let deleted = sorted(stale_among(plan, found));
    (
        ReportView { deleted, ..report },
        if check {
            now
        } else {
            now.remove_keys(deleted.to_set())
        },
    )
}

/// Whether what a plan writes to one place is always the same.
pub open spec fn consistent(plan: PlanView) -> bool {
    forall|i: int, j: int|
        0 <= i < j < plan.files.len() && place((#[trigger] plan.files[i]).path) == place(
            (#[trigger] plan.files[j]).path,
        ) ==> written(plan, plan.files[i]) == written(plan, plan.files[j])
}

/// Whether no two files of a plan have one place.
pub open spec fn places_apart(plan: PlanView) -> bool {
    forall|i: int, j: int|
        0 <= i < j < plan.files.len() ==> place((#[trigger] plan.files[i]).path) != place(
            (#[trigger] plan.files[j]).path,
        )
}

/// Whether no file of a plan is stale by the path under which it is listed.
pub open spec fn lasting(plan: PlanView) -> bool {
    forall|i: int|
        0 <= i < plan.files.len() ==> !is_stale(plan, place((#[trigger] plan.files[i]).path))
}

/// A plan that names its files as a listing does removes none of them.
pub proof fn plainly_named_files_last(plan: PlanView)
    requires
        forall|i: int|
            0 <= i < plan.files.len() ==> place((#[trigger] plan.files[i]).path)
                == plan.files[i].path,
    ensures
        lasting(plan),
{
}

/// A stale path is one that was found and is stale.
pub proof fn stale_among_is_a_choice(plan: PlanView, found: Seq<Seq<char>>, path: Seq<char>)
    ensures
        stale_among(plan, found).contains(path) <==> found.contains(path) && is_stale(plan, path),
    decreases found.len(),
{
    if found.len() > 0 {
        let front = found.drop_last();
        let before = stale_among(plan, front);
        let all = stale_among(plan, found);
        stale_among_is_a_choice(plan, front, path);
        if found.contains(path) {
            let i = choose|i: int| 0 <= i < found.len() && found[i] == path;
            if i < front.len() {
                assert(front[i] == path);
            }
        }
        if front.contains(path) {
            let i = choose|i: int| 0 <= i < front.len() && front[i] == path;
            assert(found[i] == path);
        }
        if before.contains(path) {
            let i = choose|i: int| 0 <= i < before.len() && before[i] == path;
            assert(all[i] == path);
        }
        if all.contains(path) {
            let i = choose|i: int| 0 <= i < all.len() && all[i] == path;
            if i < before.len() {
                assert(before[i] == path);
            } else {
                assert(found[found.len() - 1] == path);
            }
        }
        if path == found.last() && is_stale(plan, path) {
            assert(all[all.len() - 1] == path);
            assert(found[found.len() - 1] == path);
        }
    }
}

proof fn sorted_keeps_members(items: Seq<Seq<char>>, item: Seq<char>)
    ensures
        sorted(items).contains(item) <==> items.contains(item),
{
    broadcast use vstd::seq_lib::group_to_multiset_ensures;

    sorted_is_an_ordered_rearrangement(items);
    assert(sorted(items).contains(item) <==> sorted(items).to_multiset().count(item) > 0);
    assert(items.contains(item) <==> items.to_multiset().count(item) > 0);
}

/// What is deleted is what was found and is stale.
pub proof fn deleted_is_what_is_stale(
    plan: PlanView,
    check: bool,
    directory: Map<Seq<char>, Seq<char>>,
    found: Seq<Seq<char>>,
    path: Seq<char>,
)
    ensures
        applied(plan, check, directory, found).0.deleted.contains(path) <==> found.contains(path)
            && is_stale(plan, path),
{
    sorted_keeps_members(stale_among(plan, found), path);
    stale_among_is_a_choice(plan, found, path);
}

/// A check leaves the directory as it is.
pub proof fn a_check_changes_nothing(
    plan: PlanView,
    directory: Map<Seq<char>, Seq<char>>,
    found: Seq<Seq<char>>,
)
    ensures
        applied(plan, true, directory, found).1 == directory,
{
    a_check_changes_no_file(plan, directory, plan.files.len());
}

/// A check leaves the directory as it is after any number of files.
pub proof fn a_check_changes_no_file(plan: PlanView, directory: Map<Seq<char>, Seq<char>>, n: nat)
    ensures
        after_files(plan, true, directory, n).1 == directory,
    decreases n,
{
    if n > 0 {
        a_check_changes_no_file(plan, directory, (n - 1) as nat);
    }
}

/// What the directory holds after the first `n` files.
proof fn files_are_written(
    plan: PlanView,
    directory: Map<Seq<char>, Seq<char>>,
    n: nat,
    path: Seq<char>,
)
    requires
        consistent(plan),
        n <= plan.files.len(),
    ensures
        ({
            let now = after_files(plan, false, directory, n).1;
            &&& forall|i: int|
                0 <= i < n && place((#[trigger] plan.files[i]).path) == path ==> at_path(now, path)
                    == Some(written(plan, plan.files[i]))
            &&& (forall|i: int| 0 <= i < n ==> place((#[trigger] plan.files[i]).path) != path)
                ==> at_path(now, path) == at_path(directory, path)
        }),
    decreases n,
{
    if n > 0 {
        files_are_written(plan, directory, (n - 1) as nat, path);
        let now = after_files(plan, false, directory, n).1;
        let file = plan.files[n - 1];
        if place(file.path) == path {
            assert forall|i: int|
                0 <= i < n && place((#[trigger] plan.files[i]).path) == path implies at_path(
                now,
                path,
            ) == Some(written(plan, plan.files[i])) by {
                if i < n - 1 {
                    assert(written(plan, plan.files[i]) == written(plan, plan.files[n - 1]));
                }
            }
        }
    }
}

/// After a plan is written, its directory holds nothing stale; it holds each
/// file of the plan as signed, and of all else what it held before.
pub proof fn generating_leaves_the_plan(
    plan: PlanView,
    directory: Map<Seq<char>, Seq<char>>,
    found: Seq<Seq<char>>,
    path: Seq<char>,
)
    requires
        consistent(plan),
        lists(found, after_files(plan, false, directory, plan.files.len()).1),
    ensures
        ({
            let after = applied(plan, false, directory, found).1;
            &&& is_stale(plan, path) ==> at_path(after, path) is None
            &&& !is_stale(plan, path) ==> forall|i: int|
                0 <= i < plan.files.len() && place((#[trigger] plan.files[i]).path) == path
                    ==> at_path(after, path) == Some(written(plan, plan.files[i]))
            &&& !is_stale(plan, path) && !placed_at(plan, path) ==> at_path(after, path)
                == at_path(directory, path)
        }),
{
    let now = after_files(plan, false, directory, plan.files.len()).1;
    let report = applied(plan, false, directory, found).0;
    let after = applied(plan, false, directory, found).1;
    files_are_written(plan, directory, plan.files.len(), path);
    deleted_is_what_is_stale(plan, false, directory, found, path);
    assert(report.deleted.to_set().contains(path) <==> report.deleted.contains(path));
    assert(found.contains(path) <==> now.contains_key(path));
}

/// Whether each file of a plan stands in a directory as signed.
pub open spec fn in_place(plan: PlanView, directory: Map<Seq<char>, Seq<char>>) -> bool {
    forall|i: int|
        0 <= i < plan.files.len() ==> at_path(directory, place((#[trigger] plan.files[i]).path))
            == Some(written(plan, plan.files[i]))
}

/// Whether nothing that was found is stale.
pub open spec fn none_stale(plan: PlanView, found: Seq<Seq<char>>) -> bool {
    forall|path: Seq<char>| #[trigger] found.contains(path) ==> !is_stale(plan, path)
}

/// The report on a plan whose files all stand as signed.
pub open spec fn all_in_place(plan: PlanView) -> ReportView {
    ReportView { unchanged: plan.files.map_values(|file: FileView| file.path), ..blank() }
}

/// Files that all stand as signed are taken down as unchanged and left alone.
pub proof fn files_in_place_are_unchanged(
    plan: PlanView,
    check: bool,
    directory: Map<Seq<char>, Seq<char>>,
    n: nat,
)
    requires
        n <= plan.files.len(),
        in_place(plan, directory),
    ensures
        after_files(plan, check, directory, n).0 == (ReportView {
            unchanged: plan.files.take(n as int).map_values(|file: FileView| file.path),
            ..blank()
        }),
        after_files(plan, check, directory, n).1 == directory,
    decreases n,
{
    let paths = |file: FileView| file.path;
    if n > 0 {
        files_in_place_are_unchanged(plan, check, directory, (n - 1) as nat);
        assert(plan.files.take(n as int).map_values(paths) =~= plan.files.take(n - 1).map_values(
            paths,
        ).push(plan.files[n - 1].path));
    } else {
        assert(plan.files.take(0).map_values(paths) =~= Seq::empty());
    }
}

/// Where each file stands as signed and nothing found is stale, there is
/// nothing to do, for a check and for a run that generates: each file is
/// reported unchanged, and the directory stays as it is.
pub proof fn nothing_is_done_where_all_stands(
    plan: PlanView,
    check: bool,
    directory: Map<Seq<char>, Seq<char>>,
    found: Seq<Seq<char>>,
)
    requires
        in_place(plan, directory),
        none_stale(plan, found),
    ensures
        applied(plan, check, directory, found) == (all_in_place(plan), directory),
        all_in_place(plan).changes() == 0,
{
    files_in_place_are_unchanged(plan, check, directory, plan.files.len());
    assert(plan.files.take(plan.files.len() as int) =~= plan.files);
    let (report, after) = applied(plan, check, directory, found);
    assert(report.deleted =~= Seq::empty()) by {
        if report.deleted.len() > 0 {
            let path = report.deleted[0];
            assert(report.deleted.contains(path));
            deleted_is_what_is_stale(plan, check, directory, found, path);
        }
    }
    assert(report.deleted.to_set() =~= Set::empty());
    assert(after =~= directory);
}

/// What a check of the first `n` files comes to, where it takes down no change.
proof fn no_change_means_in_place(plan: PlanView, directory: Map<Seq<char>, Seq<char>>, n: nat)
    requires
        n <= plan.files.len(),
        after_files(plan, true, directory, n).0.created.len() == 0,
        after_files(plan, true, directory, n).0.updated.len() == 0,
    ensures
        forall|i: int|
            0 <= i < n ==> at_path(directory, place((#[trigger] plan.files[i]).path)) == Some(
                written(plan, plan.files[i]),
            ),
    decreases n,
{
    if n > 0 {
        a_check_changes_no_file(plan, directory, (n - 1) as nat);
        no_change_means_in_place(plan, directory, (n - 1) as nat);
    }
}

/// A check reports no change exactly where each file of the plan stands as
/// signed and nothing that was found is stale.
pub proof fn a_check_finds_every_difference(
    plan: PlanView,
    directory: Map<Seq<char>, Seq<char>>,
    found: Seq<Seq<char>>,
)
    ensures
        applied(plan, true, directory, found).0.changes() == 0 <==> in_place(plan, directory)
            && none_stale(plan, found),
{
    let report = applied(plan, true, directory, found).0;
    if in_place(plan, directory) && none_stale(plan, found) {
        nothing_is_done_where_all_stands(plan, true, directory, found);
    }
    if report.changes() == 0 {
        no_change_means_in_place(plan, directory, plan.files.len());
        assert forall|path: Seq<char>| #[trigger] found.contains(path) implies !is_stale(
            plan,
            path,
        ) by {
            deleted_is_what_is_stale(plan, true, directory, found, path);
        }
    }
}

/// After a plan is written, each of its files stands as signed, and nothing
/// that the directory holds is stale.
proof fn generating_sets_all_right(
    plan: PlanView,
    directory: Map<Seq<char>, Seq<char>>,
    found: Seq<Seq<char>>,
    found_again: Seq<Seq<char>>,
)
    requires
        consistent(plan),
        lasting(plan),
        lists(found, after_files(plan, false, directory, plan.files.len()).1),
        lists(found_again, applied(plan, false, directory, found).1),
    ensures
        in_place(plan, applied(plan, false, directory, found).1),
        none_stale(plan, found_again),
{
    let after = applied(plan, false, directory, found).1;
    assert forall|i: int| 0 <= i < plan.files.len() implies at_path(
        after,
        place((#[trigger] plan.files[i]).path),
    ) == Some(written(plan, plan.files[i])) by {
        generating_leaves_the_plan(plan, directory, found, place(plan.files[i].path));
    }
    assert forall|path: Seq<char>| #[trigger] found_again.contains(path) implies !is_stale(
        plan,
        path,
    ) by {
        generating_leaves_the_plan(plan, directory, found, path);
    }
}

/// Right after a plan is written there is nothing to do, for a check and for
/// another run that generates: no file is created, updated, removed or found
/// tampered with, each file of the plan is reported unchanged, and the directory
/// stays as it is.
pub proof fn a_run_after_generating_does_nothing(
    plan: PlanView,
    check: bool,
    directory: Map<Seq<char>, Seq<char>>,
    found: Seq<Seq<char>>,
    found_again: Seq<Seq<char>>,
)
    requires
        consistent(plan),
        lasting(plan),
        lists(found, after_files(plan, false, directory, plan.files.len()).1),
        lists(found_again, applied(plan, false, directory, found).1),
    ensures
        applied(plan, check, applied(plan, false, directory, found).1, found_again) == (
            all_in_place(plan),
            applied(plan, false, directory, found).1,
        ),
        all_in_place(plan).changes() == 0,
{
    generating_sets_all_right(plan, directory, found, found_again);
    nothing_is_done_where_all_stands(
        plan,
        check,
        applied(plan, false, directory, found).1,
        found_again,
    );
}

/// What a check and a run that generates take down for the first `n` files,
/// where no place is written twice.
proof fn both_observe_the_same(plan: PlanView, directory: Map<Seq<char>, Seq<char>>, n: nat)
    requires
        places_apart(plan),
        n <= plan.files.len(),
    ensures
        after_files(plan, true, directory, n).0 == after_files(plan, false, directory, n).0,
    decreases n,
{
    if n > 0 {
        both_observe_the_same(plan, directory, (n - 1) as nat);
        a_check_changes_no_file(plan, directory, (n - 1) as nat);
        assert(consistent(plan));
        let path = place(plan.files[n - 1].path);
        files_are_written(plan, directory, (n - 1) as nat, path);
        assert forall|i: int| 0 <= i < n - 1 implies place((#[trigger] plan.files[i]).path)
            != path by {
            assert(place(plan.files[i].path) != place(plan.files[n - 1].path));
        }
    }
}

proof fn stale_among_repeats_nothing(plan: PlanView, found: Seq<Seq<char>>)
    requires
        found.no_duplicates(),
    ensures
        stale_among(plan, found).no_duplicates(),
    decreases found.len(),
{
    if found.len() > 0 {
        let front = found.drop_last();
        stale_among_repeats_nothing(plan, front);
        stale_among_is_a_choice(plan, front, found.last());
        assert(!front.contains(found.last()));
    }
}

/// What is removed depends on what a listing without repeats names, not on the
/// order in which it does.
pub proof fn deleted_is_the_same_for_every_order(
    plan: PlanView,
    found: Seq<Seq<char>>,
    found_after: Seq<Seq<char>>,
)
    requires
        found.no_duplicates(),
        found_after.no_duplicates(),
        forall|path: Seq<char>|
            is_stale(plan, path) ==> (#[trigger] found.contains(path) <==> found_after.contains(
                path,
            )),
    ensures
        sorted(stale_among(plan, found)) == sorted(stale_among(plan, found_after)),
{
    broadcast use vstd::seq_lib::group_to_multiset_ensures;

    let a = stale_among(plan, found);
    let b = stale_among(plan, found_after);
    stale_among_repeats_nothing(plan, found);
    stale_among_repeats_nothing(plan, found_after);
    a.lemma_multiset_has_no_duplicates();
    b.lemma_multiset_has_no_duplicates();
    assert forall|path: Seq<char>| #[trigger]
        a.to_multiset().count(path) == b.to_multiset().count(path) by {
        stale_among_is_a_choice(plan, found, path);
        stale_among_is_a_choice(plan, found_after, path);
        assert(found.contains(path) || !found.contains(path));
        assert(a.contains(path) <==> a.to_multiset().count(path) > 0);
        assert(b.contains(path) <==> b.to_multiset().count(path) > 0);
        assert(a.contains(path) <==> b.contains(path));
        assert(a.to_multiset().contains(path) ==> a.to_multiset().count(path) == 1);
        assert(b.to_multiset().contains(path) ==> b.to_multiset().count(path) == 1);
    }
    assert(a.to_multiset() =~= b.to_multiset());
    sorted_is_the_same_for_every_order(a, b);
}

/// A check reports what generating does: the same paths as created, updated,
/// unchanged and tampered with, and the same as to be removed; where no listing
/// names a path twice, the two reports are the same.
pub proof fn a_check_foretells_generating(
    plan: PlanView,
    directory: Map<Seq<char>, Seq<char>>,
    found: Seq<Seq<char>>,
    found_after: Seq<Seq<char>>,
    path: Seq<char>,
)
    requires
        places_apart(plan),
        lasting(plan),
        lists(found, directory),
        lists(found_after, after_files(plan, false, directory, plan.files.len()).1),
    ensures
        ({
            let check = applied(plan, true, directory, found).0;
            let report = applied(plan, false, directory, found_after).0;
            &&& check.created == report.created
            &&& check.updated == report.updated
            &&& check.unchanged == report.unchanged
            &&& check.tampered == report.tampered
            &&& check.deleted.contains(path) <==> report.deleted.contains(path)
            &&& found.no_duplicates() && found_after.no_duplicates() ==> check == report
        }),
{
    both_observe_the_same(plan, directory, plan.files.len());
    assert(consistent(plan));
    let now = after_files(plan, false, directory, plan.files.len()).1;
    assert forall|stale: Seq<char>| is_stale(plan, stale) implies (#[trigger] found.contains(stale)
        <==> found_after.contains(stale)) by {
        files_are_written(plan, directory, plan.files.len(), stale);
        assert(found.contains(stale) <==> directory.contains_key(stale));
        assert(found_after.contains(stale) <==> now.contains_key(stale));
    }
    deleted_is_what_is_stale(plan, true, directory, found, path);
    deleted_is_what_is_stale(plan, false, directory, found_after, path);
    assert(found.contains(path) || !found.contains(path));
    if found.no_duplicates() && found_after.no_duplicates() {
        deleted_is_the_same_for_every_order(plan, found, found_after);
    }
}

/// Nothing is removed that the plan has, that has an extension the plan does
/// not own, or that lies in another target's directory.
pub proof fn removal_is_scoped(
    plan: PlanView,
    check: bool,
    directory: Map<Seq<char>, Seq<char>>,
    found: Seq<Seq<char>>,
    path: Seq<char>,
)
    requires
        planned(plan, path) || !owned(plan, path) || lies_in(path, plan.reserved),
    ensures
        !applied(plan, check, directory, found).0.deleted.contains(path),
        at_path(directory, path) is Some ==> at_path(
            applied(plan, check, directory, found).1,
            path,
        ) is Some,
{
    deleted_is_what_is_stale(plan, check, directory, found, path);
    let report = applied(plan, check, directory, found).0;
    assert(report.deleted.to_set().contains(path) <==> report.deleted.contains(path));
    nothing_is_lost(plan, check, directory, plan.files.len(), path);
}

proof fn nothing_is_lost(
    plan: PlanView,
    check: bool,
    directory: Map<Seq<char>, Seq<char>>,
    n: nat,
    path: Seq<char>,
)
    ensures
        directory.contains_key(path) ==> after_files(plan, check, directory, n).1.contains_key(
            path,
        ),
    decreases n,
{
    if n > 0 {
        nothing_is_lost(plan, check, directory, (n - 1) as nat, path);
    }
}

} // verus!
