//! What keeping several directories up to date comes to, over a model of the
//! tree in which they lie: each file's contents by its place. One directory may
//! lie within another.
use vstd::prelude::*;
#[allow(unused_imports)]
use crate::plan::{is_stale, PlanView, ReportView};
#[allow(unused_imports)]
use crate::upkeep::{
    a_check_changes_no_file, a_check_changes_nothing, a_check_finds_every_difference, after_files,
    all_in_place, applied, at_path, consistent, files_in_place_are_unchanged,
    generating_leaves_the_plan, in_place, lasting, lists, none_stale,
    nothing_is_done_where_all_stands, place, placed_at, written,
};

verus! {

/// The place of a path below a directory.
pub open spec fn below(directory: Seq<char>, path: Seq<char>) -> Seq<char> {
    if directory.len() == 0 {
        path
    } else {
        directory + "/"@ + path
    }
}

/// Whether a place is one below a directory.
pub open spec fn under(directory: Seq<char>, path: Seq<char>) -> bool {
    directory.len() == 0 || (directory + "/"@).is_prefix_of(path)
}

/// A place below a directory, as seen from there.
pub open spec fn rest(directory: Seq<char>, path: Seq<char>) -> Seq<char> {
    if directory.len() == 0 {
        path
    } else {
        path.skip(directory.len() as int + 1)
    }
}

/// What a tree holds below a directory.
pub open spec fn seen_from(
    tree: Map<Seq<char>, Seq<char>>,
    directory: Seq<char>,
) -> Map<Seq<char>, Seq<char>> {
    Map::new(
        |path: Seq<char>| tree.contains_key(below(directory, path)),
        |path: Seq<char>| tree[below(directory, path)],
    )
}

/// A tree with what it holds below a directory replaced.
pub open spec fn replaced(
    tree: Map<Seq<char>, Seq<char>>,
    directory: Seq<char>,
    now: Map<Seq<char>, Seq<char>>,
) -> Map<Seq<char>, Seq<char>> {
    Map::new(
        |path: Seq<char>|
            if under(directory, path) {
                now.contains_key(rest(directory, path))
            } else {
                tree.contains_key(path)
            },
        |path: Seq<char>|
            if under(directory, path) {
                now[rest(directory, path)]
            } else {
                tree[path]
            },
    )
}

/// The place of the directory of a plan.
pub open spec fn home(plan: PlanView) -> Seq<char> {
    place(plan.directory)
}

/// The place of a file of a plan.
pub open spec fn place_of(plan: PlanView, i: int) -> Seq<char> {
    below(home(plan), place(plan.files[i].path))
}

/// The reports and the tree after all of the plans, one after the other, with
/// `found[i]` the listing of the directory of plan `i`.
pub open spec fn all_applied(
    plans: Seq<PlanView>,
    check: bool,
    tree: Map<Seq<char>, Seq<char>>,
    found: Seq<Seq<Seq<char>>>,
) -> (Seq<ReportView>, Map<Seq<char>, Seq<char>>)
    decreases plans.len(),
{
    if plans.len() == 0 {
        (Seq::empty(), tree)
    } else {
        let plan = plans.last();
        let (reports, before) = all_applied(plans.drop_last(), check, tree, found);
        let (report, now) = applied(
            plan,
            check,
            seen_from(before, home(plan)),
            found[plans.len() - 1],
        );
        (reports.push(report), replaced(before, home(plan), now))
    }
}

/// Whether each listing names what its directory holds when it is made: after
/// the plans before, and after the files of its own plan.
pub open spec fn all_listed(
    plans: Seq<PlanView>,
    check: bool,
    tree: Map<Seq<char>, Seq<char>>,
    found: Seq<Seq<Seq<char>>>,
) -> bool
    decreases plans.len(),
{
    plans.len() > 0 ==> {
        let plan = plans.last();
        let before = all_applied(plans.drop_last(), check, tree, found).1;
        &&& all_listed(plans.drop_last(), check, tree, found)
        &&& lists(
            found[plans.len() - 1],
            after_files(plan, check, seen_from(before, home(plan)), plan.files.len()).1,
        )
    }
}

/// Whether nothing that another plan writes is stale for a plan.
pub open spec fn spares(plan: PlanView, other: PlanView) -> bool {
    forall|k: int|
        0 <= k < other.files.len() && under(home(plan), #[trigger] place_of(other, k))
            ==> !is_stale(plan, rest(home(plan), place_of(other, k)))
}

/// Whether what two plans write to one place is the same.
pub open spec fn agree(plan: PlanView, other: PlanView) -> bool {
    forall|k: int, m: int|
        0 <= k < plan.files.len() && 0 <= m < other.files.len() && #[trigger] place_of(plan, k)
            == #[trigger] place_of(other, m) ==> written(plan, plan.files[k]) == written(
            other,
            other.files[m],
        )
}

/// Whether the plans keep out of each other's way.
pub open spec fn kept_apart(plans: Seq<PlanView>) -> bool {
    forall|i: int, j: int|
        0 <= i < plans.len() && 0 <= j < plans.len() && i != j ==> spares(
            #[trigger] plans[i],
            #[trigger] plans[j],
        ) && agree(plans[i], plans[j])
}

/// Whether each plan writes the same to one place always, and has no file that
/// is stale where it is listed.
pub open spec fn all_orderly(plans: Seq<PlanView>) -> bool {
    forall|i: int|
        0 <= i < plans.len() ==> consistent(#[trigger] plans[i]) && lasting(plans[i])
}

/// Whether in a tree each file of the plans stands as signed, and nothing that
/// is stale for one of them stands below its directory.
pub open spec fn all_stand(plans: Seq<PlanView>, tree: Map<Seq<char>, Seq<char>>) -> bool {
    &&& forall|i: int|
        0 <= i < plans.len() ==> in_place(
            #[trigger] plans[i],
            seen_from(tree, home(plans[i])),
        )
    &&& forall|i: int, path: Seq<char>|
        0 <= i < plans.len() && #[trigger] is_stale(plans[i], path) ==> !tree.contains_key(
            below(home(plans[i]), path),
        )
}

/// A place below a directory is under it, and seen from there as it was named.
pub proof fn a_place_below_is_under(directory: Seq<char>, path: Seq<char>)
    ensures
        under(directory, below(directory, path)),
        rest(directory, below(directory, path)) == path,
{
    reveal_strlit("/");
    assert((directory + "/"@).is_prefix_of(directory + "/"@ + path));
    assert((directory + "/"@ + path).skip(directory.len() as int + 1) =~= path);
}

/// A place under a directory is below it by what is seen from there.
pub proof fn a_place_under_is_below(directory: Seq<char>, path: Seq<char>)
    requires
        under(directory, path),
    ensures
        below(directory, rest(directory, path)) == path,
{
    reveal_strlit("/");
    if directory.len() > 0 {
        assert(directory + "/"@ + path.skip(directory.len() as int + 1) =~= path);
    }
}

/// What a tree holds below a directory after it was replaced there.
pub proof fn what_is_replaced_is_seen(
    tree: Map<Seq<char>, Seq<char>>,
    directory: Seq<char>,
    now: Map<Seq<char>, Seq<char>>,
)
    ensures
        seen_from(replaced(tree, directory, now), directory) == now,
{
    let seen = seen_from(replaced(tree, directory, now), directory);
    assert forall|path: Seq<char>| #[trigger]
        seen.contains_key(path) <==> now.contains_key(path) by {
        a_place_below_is_under(directory, path);
    }
    assert forall|path: Seq<char>| #[trigger] now.contains_key(path) implies seen[path]
        == now[path] by {
        a_place_below_is_under(directory, path);
    }
    assert(seen =~= now);
}

/// Replacing what a tree holds by what it holds leaves the tree as it is.
pub proof fn what_is_seen_can_be_replaced(tree: Map<Seq<char>, Seq<char>>, directory: Seq<char>)
    ensures
        replaced(tree, directory, seen_from(tree, directory)) == tree,
{
    let again = replaced(tree, directory, seen_from(tree, directory));
    assert forall|path: Seq<char>| #[trigger]
        again.contains_key(path) <==> tree.contains_key(path) by {
        if under(directory, path) {
            a_place_under_is_below(directory, path);
        }
    }
    assert forall|path: Seq<char>| #[trigger] again.contains_key(path) implies again[path]
        == tree[path] by {
        if under(directory, path) {
            a_place_under_is_below(directory, path);
        }
    }
    assert(again =~= tree);
}

/// What was replaced twice is as it was replaced last.
pub proof fn the_last_replacement_counts(
    tree: Map<Seq<char>, Seq<char>>,
    directory: Seq<char>,
    between: Map<Seq<char>, Seq<char>>,
    now: Map<Seq<char>, Seq<char>>,
)
    ensures
        replaced(replaced(tree, directory, between), directory, now) == replaced(
            tree,
            directory,
            now,
        ),
{
    assert(replaced(replaced(tree, directory, between), directory, now) =~= replaced(
        tree,
        directory,
        now,
    ));
}

/// What stands at a place of which a plan writes nothing and which is not stale
/// for it stays; what it writes stands as signed; what is stale is gone.
pub proof fn what_a_plan_does_to_a_place(
    plan: PlanView,
    before: Map<Seq<char>, Seq<char>>,
    found: Seq<Seq<char>>,
    full: Seq<char>,
)
    requires
        consistent(plan),
        lists(
            found,
            after_files(plan, false, seen_from(before, home(plan)), plan.files.len()).1,
        ),
    ensures
        ({
            let now = applied(plan, false, seen_from(before, home(plan)), found).1;
            let tree = replaced(before, home(plan), now);
            let path = rest(home(plan), full);
            &&& !under(home(plan), full) ==> at_path(tree, full) == at_path(before, full)
            &&& under(home(plan), full) && is_stale(plan, path) ==> at_path(tree, full) is None
            &&& under(home(plan), full) && !is_stale(plan, path) && !placed_at(plan, path)
                ==> at_path(tree, full) == at_path(before, full)
        }),
{
    if under(home(plan), full) {
        let path = rest(home(plan), full);
        a_place_under_is_below(home(plan), full);
        generating_leaves_the_plan(plan, seen_from(before, home(plan)), found, path);
    }
}

proof fn earlier_plans_are_as_good(plans: Seq<PlanView>)
    requires
        plans.len() > 0,
        kept_apart(plans),
        all_orderly(plans),
    ensures
        kept_apart(plans.drop_last()),
        all_orderly(plans.drop_last()),
{
    let front = plans.drop_last();
    assert forall|i: int, j: int|
        0 <= i < front.len() && 0 <= j < front.len() && i != j implies spares(
        #[trigger] front[i],
        #[trigger] front[j],
    ) && agree(front[i], front[j]) by {
        assert(spares(plans[i], plans[j]) && agree(plans[i], plans[j]));
    }
    assert forall|i: int| 0 <= i < front.len() implies consistent(#[trigger] front[i]) && lasting(
        front[i],
    ) by {
        assert(front[i] == plans[i]);
    }
}

/// The last plan leaves the files of an earlier one as they stand.
proof fn an_earlier_file_stays(
    plans: Seq<PlanView>,
    before: Map<Seq<char>, Seq<char>>,
    found: Seq<Seq<char>>,
    i: int,
)
    requires
        kept_apart(plans),
        all_orderly(plans),
        0 <= i < plans.len() - 1,
        in_place(plans[i], seen_from(before, home(plans[i]))),
        lists(
            found,
            after_files(
                plans.last(),
                false,
                seen_from(before, home(plans.last())),
                plans.last().files.len(),
            ).1,
        ),
    ensures
        in_place(
            plans[i],
            seen_from(
                replaced(
                    before,
                    home(plans.last()),
                    applied(
                        plans.last(),
                        false,
                        seen_from(before, home(plans.last())),
                        found,
                    ).1,
                ),
                home(plans[i]),
            ),
        ),
{
    let last = plans[plans.len() - 1];
    let tree = replaced(
        before,
        home(last),
        applied(last, false, seen_from(before, home(last)), found).1,
    );
    let plan = plans[i];
    assert(consistent(last));
    assert forall|k: int| 0 <= k < plan.files.len() implies at_path(
        seen_from(tree, home(plan)),
        place((#[trigger] plan.files[k]).path),
    ) == Some(written(plan, plan.files[k])) by {
        let full = place_of(plans[i], k);
        assert(at_path(seen_from(before, home(plan)), place(plan.files[k].path)) == Some(
            written(plan, plan.files[k]),
        ));
        what_a_plan_does_to_a_place(last, before, found, full);
        if under(home(last), full) {
            let path = rest(home(last), full);
            a_place_under_is_below(home(last), full);
            assert(spares(plans[plans.len() - 1], plans[i]));
            assert(!is_stale(last, path));
            if placed_at(last, path) {
                let m = choose|m: int|
                    0 <= m < last.files.len() && place((#[trigger] last.files[m]).path) == path;
                assert(agree(plans[plans.len() - 1], plans[i]));
                assert(place_of(last, m) == place_of(plan, k));
                generating_leaves_the_plan(last, seen_from(before, home(last)), found, path);
            }
        }
        assert(at_path(tree, full) == Some(written(plan, plan.files[k])));
    }
}

/// The last plan brings nothing back that is stale for an earlier one.
proof fn nothing_stale_comes_back(
    plans: Seq<PlanView>,
    before: Map<Seq<char>, Seq<char>>,
    found: Seq<Seq<char>>,
    i: int,
    path: Seq<char>,
)
    requires
        kept_apart(plans),
        all_orderly(plans),
        0 <= i < plans.len() - 1,
        is_stale(plans[i], path),
        !before.contains_key(below(home(plans[i]), path)),
        lists(
            found,
            after_files(
                plans.last(),
                false,
                seen_from(before, home(plans.last())),
                plans.last().files.len(),
            ).1,
        ),
    ensures
        !replaced(
            before,
            home(plans.last()),
            applied(plans.last(), false, seen_from(before, home(plans.last())), found).1,
        ).contains_key(below(home(plans[i]), path)),
{
    let n = plans.len() - 1;
    let last = plans[n];
    let full = below(home(plans[i]), path);
    assert(consistent(last));
    what_a_plan_does_to_a_place(last, before, found, full);
    if under(home(last), full) {
        let inner = rest(home(last), full);
        a_place_under_is_below(home(last), full);
        if placed_at(last, inner) {
            let m = choose|m: int|
                0 <= m < last.files.len() && place((#[trigger] last.files[m]).path) == inner;
            assert(place_of(plans[n], m) == full);
            a_place_below_is_under(home(plans[i]), path);
            assert(spares(plans[i], plans[n]));
            assert(under(home(plans[i]), place_of(plans[n], m)));
        }
    }
}

/// The last plan leaves its own files as signed, and nothing stale.
proof fn the_last_plan_stands(
    plan: PlanView,
    before: Map<Seq<char>, Seq<char>>,
    found: Seq<Seq<char>>,
)
    requires
        consistent(plan),
        lasting(plan),
        lists(
            found,
            after_files(plan, false, seen_from(before, home(plan)), plan.files.len()).1,
        ),
    ensures
        ({
            let now = applied(plan, false, seen_from(before, home(plan)), found).1;
            let tree = replaced(before, home(plan), now);
            &&& in_place(plan, seen_from(tree, home(plan)))
            &&& forall|path: Seq<char>| #[trigger]
                is_stale(plan, path) ==> !tree.contains_key(below(home(plan), path))
        }),
{
    let now = applied(plan, false, seen_from(before, home(plan)), found).1;
    let tree = replaced(before, home(plan), now);
    what_is_replaced_is_seen(before, home(plan), now);
    assert forall|k: int| 0 <= k < plan.files.len() implies at_path(
        now,
        place((#[trigger] plan.files[k]).path),
    ) == Some(written(plan, plan.files[k])) by {
        generating_leaves_the_plan(
            plan,
            seen_from(before, home(plan)),
            found,
            place(plan.files[k].path),
        );
    }
    assert forall|path: Seq<char>| #[trigger] is_stale(plan, path) implies !tree.contains_key(
        below(home(plan), path),
    ) by {
        a_place_below_is_under(home(plan), path);
        what_a_plan_does_to_a_place(plan, before, found, below(home(plan), path));
    }
}

/// After the plans are written, each of their files stands as signed, and
/// nothing stale is left below any of their directories.
pub proof fn generating_all_sets_all_right(
    plans: Seq<PlanView>,
    tree: Map<Seq<char>, Seq<char>>,
    found: Seq<Seq<Seq<char>>>,
)
    requires
        kept_apart(plans),
        all_orderly(plans),
        all_listed(plans, false, tree, found),
    ensures
        all_stand(plans, all_applied(plans, false, tree, found).1),
    decreases plans.len(),
{
    if plans.len() > 0 {
        let n = plans.len() - 1;
        let front = plans.drop_last();
        let last = plans[n];
        let before = all_applied(front, false, tree, found).1;
        let after = all_applied(plans, false, tree, found).1;
        assert(consistent(last) && lasting(last));
        earlier_plans_are_as_good(plans);
        generating_all_sets_all_right(front, tree, found);
        the_last_plan_stands(last, before, found[n]);
        assert forall|i: int| 0 <= i < plans.len() implies in_place(
            #[trigger] plans[i],
            seen_from(after, home(plans[i])),
        ) by {
            if i < n {
                assert(in_place(front[i], seen_from(before, home(front[i]))));
                an_earlier_file_stays(plans, before, found[n], i);
            }
        }
        assert forall|i: int, path: Seq<char>|
            0 <= i < plans.len() && #[trigger] is_stale(
                plans[i],
                path,
            ) implies !after.contains_key(below(home(plans[i]), path)) by {
            if i < n {
                assert(is_stale(front[i], path));
                nothing_stale_comes_back(plans, before, found[n], i, path);
            }
        }
    }
}

/// Where all stands as it should there is nothing to do, for a check and for a
/// run that generates: the tree stays as it is, and each report is that all
/// files are in place.
pub proof fn nothing_is_done_where_all_plans_stand(
    plans: Seq<PlanView>,
    check: bool,
    tree: Map<Seq<char>, Seq<char>>,
    found: Seq<Seq<Seq<char>>>,
)
    requires
        all_stand(plans, tree),
        all_listed(plans, check, tree, found),
    ensures
        all_applied(plans, check, tree, found).1 == tree,
        all_applied(plans, check, tree, found).0.len() == plans.len(),
        forall|i: int|
            0 <= i < plans.len() ==> #[trigger] all_applied(plans, check, tree, found).0[i]
                == all_in_place(plans[i]) && all_in_place(plans[i]).changes() == 0,
    decreases plans.len(),
{
    if plans.len() > 0 {
        let n = plans.len() - 1;
        let front = plans.drop_last();
        let last = plans[n];
        assert forall|i: int| 0 <= i < front.len() implies in_place(
            #[trigger] front[i],
            seen_from(tree, home(front[i])),
        ) by {
            assert(front[i] == plans[i]);
        }
        assert forall|i: int, path: Seq<char>|
            0 <= i < front.len() && #[trigger] is_stale(
                front[i],
                path,
            ) implies !tree.contains_key(below(home(front[i]), path)) by {
            assert(is_stale(plans[i], path));
        }
        nothing_is_done_where_all_plans_stand(front, check, tree, found);
        let seen = seen_from(tree, home(last));
        assert(in_place(plans[n], seen));
        files_in_place_are_unchanged(last, check, seen, last.files.len());
        assert forall|path: Seq<char>| #[trigger] found[n].contains(path) implies !is_stale(
            last,
            path,
        ) by {
            assert(seen.contains_key(path));
            assert(is_stale(plans[n], path) ==> !tree.contains_key(below(home(last), path)));
        }
        nothing_is_done_where_all_stands(last, check, seen, found[n]);
        what_is_seen_can_be_replaced(tree, home(last));
        let reports = all_applied(plans, check, tree, found).0;
        assert forall|i: int| 0 <= i < plans.len() implies #[trigger] reports[i] == all_in_place(
            plans[i],
        ) && all_in_place(plans[i]).changes() == 0 by {
            if i < n {
                assert(all_applied(front, check, tree, found).0[i] == all_in_place(front[i]));
            }
        }
    }
}

/// A check leaves the tree as it is, and its reports are on the directories as
/// they stand there.
pub proof fn a_check_of_all_changes_nothing(
    plans: Seq<PlanView>,
    tree: Map<Seq<char>, Seq<char>>,
    found: Seq<Seq<Seq<char>>>,
)
    ensures
        all_applied(plans, true, tree, found).1 == tree,
        all_applied(plans, true, tree, found).0.len() == plans.len(),
        forall|i: int|
            0 <= i < plans.len() ==> #[trigger] all_applied(plans, true, tree, found).0[i]
                == applied(plans[i], true, seen_from(tree, home(plans[i])), found[i]).0,
        all_listed(plans, true, tree, found) ==> forall|i: int|
            0 <= i < plans.len() ==> lists(
                #[trigger] found[i],
                seen_from(tree, home(plans[i])),
            ),
    decreases plans.len(),
{
    if plans.len() > 0 {
        let n = plans.len() - 1;
        let front = plans.drop_last();
        let last = plans[n];
        let seen = seen_from(tree, home(last));
        a_check_of_all_changes_nothing(front, tree, found);
        a_check_changes_nothing(last, seen, found[n]);
        a_check_changes_no_file(last, seen, last.files.len());
        what_is_seen_can_be_replaced(tree, home(last));
        let reports = all_applied(plans, true, tree, found).0;
        assert forall|i: int| 0 <= i < plans.len() implies #[trigger] reports[i] == applied(
            plans[i],
            true,
            seen_from(tree, home(plans[i])),
            found[i],
        ).0 by {
            if i < n {
                assert(all_applied(front, true, tree, found).0[i] == applied(
                    front[i],
                    true,
                    seen_from(tree, home(front[i])),
                    found[i],
                ).0);
            }
        }
        if all_listed(plans, true, tree, found) {
            assert forall|i: int| 0 <= i < plans.len() implies lists(
                #[trigger] found[i],
                seen_from(tree, home(plans[i])),
            ) by {
                if i < n {
                    assert(lists(found[i], seen_from(tree, home(front[i]))));
                }
            }
        }
    }
}

/// Plans whose files all stand as signed in one tree, with nothing stale, keep
/// out of each other's way.
proof fn plans_that_stand_are_kept_apart(plans: Seq<PlanView>, tree: Map<Seq<char>, Seq<char>>)
    requires
        all_stand(plans, tree),
    ensures
        kept_apart(plans),
        all_orderly(plans),
{
    assert forall|i: int, k: int|
        0 <= i < plans.len() && 0 <= k < plans[i].files.len() implies at_path(
        tree,
        #[trigger] place_of(plans[i], k),
    ) == Some(written(plans[i], plans[i].files[k])) by {
        assert(in_place(plans[i], seen_from(tree, home(plans[i]))));
        assert(at_path(
            seen_from(tree, home(plans[i])),
            place(plans[i].files[k].path),
        ) == Some(written(plans[i], plans[i].files[k])));
    }
    assert forall|i: int, j: int|
        0 <= i < plans.len() && 0 <= j < plans.len() && i != j implies spares(
        #[trigger] plans[i],
        #[trigger] plans[j],
    ) && agree(plans[i], plans[j]) by {
        assert forall|k: int|
            0 <= k < plans[j].files.len() && under(
                home(plans[i]),
                #[trigger] place_of(plans[j], k),
            ) implies !is_stale(plans[i], rest(home(plans[i]), place_of(plans[j], k))) by {
            a_place_under_is_below(home(plans[i]), place_of(plans[j], k));
        }
    }
    assert forall|i: int| 0 <= i < plans.len() implies consistent(#[trigger] plans[i]) && lasting(
        plans[i],
    ) by {
        let plan = plans[i];
        assert(in_place(plan, seen_from(tree, home(plan))));
        assert forall|k: int| 0 <= k < plan.files.len() implies !is_stale(
            plan,
            place((#[trigger] plan.files[k]).path),
        ) by {
            assert(at_path(tree, place_of(plans[i], k)) is Some);
        }
    }
}

/// A check right after generating finds nothing to do for any of the plans
/// exactly where they keep out of each other's way and each is orderly, also
/// where their directories lie within each other. Each report is then that all
/// files are in place. The check leaves the tree as it is in any case.
pub proof fn a_check_after_generating_all_is_clean(
    plans: Seq<PlanView>,
    tree: Map<Seq<char>, Seq<char>>,
    found: Seq<Seq<Seq<char>>>,
    found_again: Seq<Seq<Seq<char>>>,
)
    requires
        all_listed(plans, false, tree, found),
        all_listed(plans, true, all_applied(plans, false, tree, found).1, found_again),
    ensures
        ({
            let after = all_applied(plans, false, tree, found).1;
            let (reports, checked) = all_applied(plans, true, after, found_again);
            &&& checked == after
            &&& reports.len() == plans.len()
            &&& kept_apart(plans) && all_orderly(plans) <==> forall|i: int|
                0 <= i < plans.len() ==> (#[trigger] reports[i]).changes() == 0
            &&& kept_apart(plans) && all_orderly(plans) ==> forall|i: int|
                0 <= i < plans.len() ==> #[trigger] reports[i] == all_in_place(plans[i])
        }),
{
    let after = all_applied(plans, false, tree, found).1;
    let reports = all_applied(plans, true, after, found_again).0;
    a_check_of_all_changes_nothing(plans, after, found_again);
    if kept_apart(plans) && all_orderly(plans) {
        generating_all_sets_all_right(plans, tree, found);
        nothing_is_done_where_all_plans_stand(plans, true, after, found_again);
    }
    if forall|i: int| 0 <= i < plans.len() ==> (#[trigger] reports[i]).changes() == 0 {
        assert forall|i: int| 0 <= i < plans.len() implies in_place(
            #[trigger] plans[i],
            seen_from(after, home(plans[i])),
        ) && none_stale(plans[i], found_again[i]) by {
            assert(reports[i].changes() == 0);
            a_check_finds_every_difference(
                plans[i],
                seen_from(after, home(plans[i])),
                found_again[i],
            );
        }
        assert forall|i: int, path: Seq<char>|
            0 <= i < plans.len() && #[trigger] is_stale(
                plans[i],
                path,
            ) implies !after.contains_key(below(home(plans[i]), path)) by {
            assert(none_stale(plans[i], found_again[i]));
            assert(lists(found_again[i], seen_from(after, home(plans[i]))));
            assert(found_again[i].contains(path) <==> seen_from(
                after,
                home(plans[i]),
            ).contains_key(path));
        }
        plans_that_stand_are_kept_apart(plans, after);
    }
}

/// Generating again right after generating changes nothing.
pub proof fn generating_all_again_does_nothing(
    plans: Seq<PlanView>,
    tree: Map<Seq<char>, Seq<char>>,
    found: Seq<Seq<Seq<char>>>,
    found_again: Seq<Seq<Seq<char>>>,
)
    requires
        kept_apart(plans),
        all_orderly(plans),
        all_listed(plans, false, tree, found),
        all_listed(plans, false, all_applied(plans, false, tree, found).1, found_again),
    ensures
        ({
            let after = all_applied(plans, false, tree, found).1;
            let (reports, again) = all_applied(plans, false, after, found_again);
            &&& again == after
            &&& reports.len() == plans.len()
            &&& forall|i: int|
                0 <= i < plans.len() ==> #[trigger] reports[i] == all_in_place(plans[i])
                    && reports[i].changes() == 0
        }),
{
    generating_all_sets_all_right(plans, tree, found);
    nothing_is_done_where_all_plans_stand(
        plans,
        false,
        all_applied(plans, false, tree, found).1,
        found_again,
    );
}

} // verus!
