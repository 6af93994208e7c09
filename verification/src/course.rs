//! How the steps of a run keep a directory up to date, when the world outside
//! does as it is told.
use vstd::prelude::*;
#[allow(unused_imports)]
use crate::plan::{blank, stale_among, PlanView, ReportView};
#[allow(unused_imports)]
use crate::session::{
    finished, found, kept_up, listed, plan_done, removed, upkeep_begun, NextView, ReadingView,
    StepView, UpkeepView,
};
#[allow(unused_imports)]
use crate::text::sorted;
#[allow(unused_imports)]
use crate::tree::{
    all_applied, all_listed, home, replaced, seen_from, the_last_replacement_counts,
    what_is_seen_can_be_replaced,
};
#[allow(unused_imports)]
use crate::upkeep::{after_files, applied, at_path, lists, place, written};

verus! {

/// Whether a step follows a state that keeps up a directory, with the directory
/// before and after: a file is read as it stands, written as asked, the
/// directory listed as it is, a stale file removed.
pub open spec fn obeyed(
    state: NextView,
    directory: Map<Seq<char>, Seq<char>>,
    found_there: Seq<Seq<char>>,
    step: StepView,
    directory_after: Map<Seq<char>, Seq<char>>,
) -> bool {
    match state {
        NextView::Read(upkeep) => {
            let path = upkeep.current().files[upkeep.file as int].path;
            &&& directory_after == directory
            &&& step == found(
                upkeep,
                match at_path(directory, place(path)) {
                    Some(contents) => ReadingView::Contents(contents),
                    None => ReadingView::Missing,
                },
            )
        },
        NextView::Write { upkeep, path, contents } => {
            &&& directory_after == directory.insert(place(path), contents)
            &&& step == kept_up(upkeep)
        },
        NextView::List(upkeep) => {
            &&& directory_after == directory
            &&& lists(found_there, directory)
            &&& step == listed(upkeep, found_there)
        },
        NextView::Remove { upkeep, next } => {
            &&& directory_after == directory.remove(upkeep.report.deleted[next as int])
            &&& step == removed(upkeep, next)
        },
        _ => false,
    }
}

/// Whether a state is about the plan at which the upkeep started.
pub open spec fn same_plan(start: UpkeepView, upkeep: UpkeepView) -> bool {
    &&& upkeep.check == start.check
    &&& upkeep.plans == start.plans
    &&& upkeep.plan == start.plan
    &&& upkeep.dirty == start.dirty
    &&& upkeep.unchanged == start.unchanged
    &&& upkeep.file <= start.current().files.len()
}

/// Where the upkeep of a plan stands: what a state has taken down and what the
/// directory holds are what the plan comes to up to there, from the directory
/// as it was at the start.
pub open spec fn on_course(
    start: UpkeepView,
    at_start: Map<Seq<char>, Seq<char>>,
    found_there: Seq<Seq<char>>,
    state: NextView,
    directory: Map<Seq<char>, Seq<char>>,
) -> bool {
    let plan = start.current();
    let all = plan.files.len();
    match state {
        NextView::Read(upkeep) => {
            &&& same_plan(start, upkeep)
            &&& upkeep.file < all
            &&& upkeep.report == after_files(plan, start.check, at_start, upkeep.file).0
            &&& directory == after_files(plan, start.check, at_start, upkeep.file).1
        },
        NextView::Write { upkeep, path, contents } => {
            &&& same_plan(start, upkeep)
            &&& !start.check
            &&& upkeep.report == after_files(plan, false, at_start, upkeep.file).0
            &&& directory.insert(place(path), contents) == after_files(
                plan,
                false,
                at_start,
                upkeep.file,
            ).1
        },
        NextView::List(upkeep) => {
            &&& same_plan(start, upkeep)
            &&& upkeep.file == all
            &&& upkeep.report == after_files(plan, start.check, at_start, all).0
            &&& directory == after_files(plan, start.check, at_start, all).1
        },
        NextView::Remove { upkeep, next } => {
            &&& same_plan(start, upkeep)
            &&& upkeep.file == all
            &&& !start.check
            &&& upkeep.report == applied(plan, false, at_start, found_there).0
            &&& next < upkeep.report.deleted.len()
            &&& directory == after_files(plan, false, at_start, all).1.remove_keys(
                upkeep.report.deleted.take(next as int).to_set(),
            )
        },
        _ => false,
    }
}

/// How many steps the upkeep of a plan has left at most.
pub open spec fn steps_left(start: UpkeepView, found_there: Seq<Seq<char>>, state: NextView) -> int {
    let all = start.current().files.len();
    let stale: int = sorted(stale_among(start.current(), found_there)).len() as int;
    match state {
        NextView::Read(upkeep) => 2 * (all - upkeep.file) + stale + 1,
        NextView::Write { upkeep, path, contents } => 2 * (all - upkeep.file) + stale + 2,
        NextView::List(upkeep) => stale + 1,
        NextView::Remove { upkeep, next } => stale - next,
        _ => 0,
    }
}

/// The upkeep of a plan when all of it is done.
pub open spec fn plan_kept(
    start: UpkeepView,
    at_start: Map<Seq<char>, Seq<char>>,
    found_there: Seq<Seq<char>>,
) -> UpkeepView {
    UpkeepView {
        file: start.current().files.len(),
        report: applied(start.current(), start.check, at_start, found_there).0,
        ..start
    }
}

/// The upkeep of a plan starts on its course.
pub proof fn upkeep_starts_on_course(
    start: UpkeepView,
    at_start: Map<Seq<char>, Seq<char>>,
    found_there: Seq<Seq<char>>,
)
    requires
        start.plan < start.plans.len(),
        start.file == 0,
        start.report == blank(),
    ensures
        on_course(start, at_start, found_there, kept_up(start).next, at_start),
{
}

proof fn removing_one_more(
    directory: Map<Seq<char>, Seq<char>>,
    paths: Seq<Seq<char>>,
    n: int,
)
    requires
        0 <= n < paths.len(),
    ensures
        directory.remove_keys(paths.take(n).to_set()).remove(paths[n]) == directory.remove_keys(
            paths.take(n + 1).to_set(),
        ),
{
    let front = paths.take(n);
    let more = paths.take(n + 1);
    let before = front.to_set();
    let after = more.to_set();
    assert forall|path: Seq<char>| after.contains(path) <==> before.contains(path) || path
        == paths[n] by {
        if more.contains(path) {
            let i = choose|i: int| 0 <= i < more.len() && more[i] == path;
            if i < n {
                assert(front[i] == path);
            }
        }
        if front.contains(path) {
            let i = choose|i: int| 0 <= i < front.len() && front[i] == path;
            assert(more[i] == path);
        }
        assert(more[n] == paths[n]);
    }
    assert(directory.remove_keys(before).remove(paths[n]) =~= directory.remove_keys(after));
}

/// Each step stays on the course, with fewer steps left, until the plan is
/// done; then the report and the directory are what the plan comes to.
pub proof fn upkeep_stays_on_course(
    start: UpkeepView,
    at_start: Map<Seq<char>, Seq<char>>,
    found_there: Seq<Seq<char>>,
    state: NextView,
    directory: Map<Seq<char>, Seq<char>>,
    step: StepView,
    directory_after: Map<Seq<char>, Seq<char>>,
)
    requires
        start.plan < start.plans.len(),
        on_course(start, at_start, found_there, state, directory),
        obeyed(state, directory, found_there, step, directory_after),
    ensures
        ({
            ||| {
                &&& step.print.len() == 0
                &&& on_course(start, at_start, found_there, step.next, directory_after)
                &&& 0 < steps_left(start, found_there, step.next) < steps_left(
                    start,
                    found_there,
                    state,
                )
            }
            ||| {
                &&& step == finished(plan_kept(start, at_start, found_there))
                &&& directory_after == applied(
                    start.current(),
                    start.check,
                    at_start,
                    found_there,
                ).1
            }
        }),
{
    let plan = start.current();
    let all = plan.files.len();
    let deleted = sorted(stale_among(plan, found_there));
    let now = after_files(plan, start.check, at_start, all).1;
    match state {
        NextView::List(upkeep) => {
            assert(UpkeepView { report: ReportView { deleted, ..upkeep.report }, ..upkeep }
                == plan_kept(start, at_start, found_there));
            assert(deleted.take(0).to_set() =~= Set::empty());
            assert(now.remove_keys(Set::empty()) =~= now);
            assert(deleted.len() == 0 ==> deleted.to_set() =~= Set::empty());
        },
        NextView::Remove { upkeep, next } => {
            removing_one_more(now, deleted, next as int);
            assert(deleted.take(deleted.len() as int) =~= deleted);
            assert(upkeep == plan_kept(start, at_start, found_there));
        },
        _ => {},
    }
}

/// The upkeep with the first plans done, given what each came to.
pub open spec fn after_plans(
    check: bool,
    plans: Seq<PlanView>,
    reports: Seq<ReportView>,
) -> UpkeepView
    decreases reports.len(),
{
    if reports.len() == 0 {
        upkeep_begun(check, plans)
    } else {
        plan_done(
            UpkeepView { report: reports.last(), ..after_plans(check, plans, reports.drop_last()) },
        )
    }
}

/// How many files all the reports leave unchanged.
pub open spec fn all_unchanged(reports: Seq<ReportView>) -> nat
    decreases reports.len(),
{
    if reports.len() == 0 {
        0
    } else {
        all_unchanged(reports.drop_last()) + reports.last().unchanged.len()
    }
}

/// How many of the reports tell of a change.
pub open spec fn all_dirty(reports: Seq<ReportView>) -> nat
    decreases reports.len(),
{
    if reports.len() == 0 {
        0
    } else {
        all_dirty(reports.drop_last()) + if reports.last().changes() > 0 {
            1nat
        } else {
            0nat
        }
    }
}

proof fn plans_are_counted(check: bool, plans: Seq<PlanView>, reports: Seq<ReportView>)
    ensures
        ({
            let upkeep = after_plans(check, plans, reports);
            &&& upkeep.check == check
            &&& upkeep.plans == plans
            &&& upkeep.plan == reports.len()
            &&& upkeep.unchanged == all_unchanged(reports)
            &&& check ==> upkeep.dirty == all_dirty(reports)
            &&& !check ==> upkeep.dirty == 0
        }),
        all_dirty(reports) == 0 <==> forall|i: int|
            0 <= i < reports.len() ==> (#[trigger] reports[i]).changes() == 0,
    decreases reports.len(),
{
    if reports.len() > 0 {
        let front = reports.drop_last();
        plans_are_counted(check, plans, front);
        if all_dirty(reports) == 0 {
            assert forall|i: int| 0 <= i < reports.len() implies (
            #[trigger] reports[i]).changes() == 0 by {
                if i < front.len() {
                    assert(front[i].changes() == 0);
                }
            }
        }
        if forall|i: int| 0 <= i < reports.len() ==> (#[trigger] reports[i]).changes() == 0 {
            assert forall|i: int| 0 <= i < front.len() implies (
            #[trigger] front[i]).changes() == 0 by {
                assert(reports[i].changes() == 0);
            }
            assert(reports[reports.len() - 1].changes() == 0);
        }
    }
}

/// Plan after plan is kept up: each starts with nothing taken down of it, and
/// is counted by its report when it is done.
pub proof fn a_kept_plan_is_counted(
    check: bool,
    plans: Seq<PlanView>,
    reports: Seq<ReportView>,
    directory: Map<Seq<char>, Seq<char>>,
    found_there: Seq<Seq<char>>,
)
    requires
        reports.len() < plans.len(),
    ensures
        ({
            let start = after_plans(check, plans, reports);
            let report = applied(plans[reports.len() as int], check, directory, found_there).0;
            &&& start.file == 0
            &&& start.report == blank()
            &&& start.current() == plans[reports.len() as int]
            &&& plan_done(plan_kept(start, directory, found_there)) == after_plans(
                check,
                plans,
                reports.push(report),
            )
        }),
{
    plans_are_counted(check, plans, reports);
    let start = after_plans(check, plans, reports);
    let report = applied(plans[reports.len() as int], check, directory, found_there).0;
    assert(reports.push(report).drop_last() =~= reports);
}

/// When all plans are done, a run that checks ends with code 0 if no report
/// tells of a change, and with code 1 otherwise; one that generates ends with
/// code 0.
pub proof fn a_check_fails_on_any_difference(
    check: bool,
    plans: Seq<PlanView>,
    reports: Seq<ReportView>,
)
    requires
        reports.len() == plans.len(),
    ensures
        ({
            let last = kept_up(after_plans(check, plans, reports)).next;
            let clean = forall|i: int|
                0 <= i < reports.len() ==> (#[trigger] reports[i]).changes() == 0;
            &&& last is Exit
            &&& last->code == (if check && !clean {
                1int
            } else {
                0int
            })
        }),
{
    plans_are_counted(check, plans, reports);
}

/// The upkeep that a state is part of.
pub open spec fn upkeep_of(state: NextView) -> Option<UpkeepView> {
    match state {
        NextView::Read(upkeep) => Some(upkeep),
        NextView::Write { upkeep, path, contents } => Some(upkeep),
        NextView::List(upkeep) => Some(upkeep),
        NextView::Remove { upkeep, next } => Some(upkeep),
        _ => None,
    }
}

/// Whether a step follows a state that keeps up one of several directories,
/// with the tree in which they lie before and after: the outside does as it is
/// told below the directory of the plan, and nothing elsewhere.
pub open spec fn obeyed_in_tree(
    state: NextView,
    tree: Map<Seq<char>, Seq<char>>,
    found: Seq<Seq<Seq<char>>>,
    step: StepView,
    tree_after: Map<Seq<char>, Seq<char>>,
) -> bool {
    match upkeep_of(state) {
        None => false,
        Some(upkeep) => {
            let directory = home(upkeep.current());
            &&& obeyed(
                state,
                seen_from(tree, directory),
                found[upkeep.plan as int],
                step,
                seen_from(tree_after, directory),
            )
            &&& tree_after == replaced(tree, directory, seen_from(tree_after, directory))
        },
    }
}

/// Where the upkeep of several plans stands: the plans before the current one
/// are done, in order, and the current one is on its course.
pub open spec fn on_course_in_tree(
    check: bool,
    plans: Seq<PlanView>,
    at_start: Map<Seq<char>, Seq<char>>,
    found: Seq<Seq<Seq<char>>>,
    state: NextView,
    tree: Map<Seq<char>, Seq<char>>,
) -> bool {
    match upkeep_of(state) {
        None => false,
        Some(upkeep) => {
            let n = upkeep.plan;
            let done = plans.take(n as int);
            let (reports, before) = all_applied(done, check, at_start, found);
            let directory = home(plans[n as int]);
            &&& n < plans.len()
            &&& all_listed(done, check, at_start, found)
            &&& on_course(
                after_plans(check, plans, reports),
                seen_from(before, directory),
                found[n as int],
                state,
                seen_from(tree, directory),
            )
            &&& tree == replaced(before, directory, seen_from(tree, directory))
            &&& state is Remove ==> lists(
                found[n as int],
                after_files(
                    plans[n as int],
                    check,
                    seen_from(before, directory),
                    plans[n as int].files.len(),
                ).1,
            )
        },
    }
}

/// Whether the upkeep of all plans is at its end: the tree is what the plans
/// come to, and the run exits as their reports say.
pub open spec fn all_kept(
    check: bool,
    plans: Seq<PlanView>,
    at_start: Map<Seq<char>, Seq<char>>,
    found: Seq<Seq<Seq<char>>>,
    state: NextView,
    tree: Map<Seq<char>, Seq<char>>,
) -> bool {
    let (reports, after) = all_applied(plans, check, at_start, found);
    &&& all_listed(plans, check, at_start, found)
    &&& reports.len() == plans.len()
    &&& tree == after
    &&& state is Exit
    &&& state == kept_up(after_plans(check, plans, reports)).next
}

proof fn reports_are_one_for_each_plan(
    plans: Seq<PlanView>,
    check: bool,
    tree: Map<Seq<char>, Seq<char>>,
    found: Seq<Seq<Seq<char>>>,
)
    ensures
        all_applied(plans, check, tree, found).0.len() == plans.len(),
    decreases plans.len(),
{
    if plans.len() > 0 {
        reports_are_one_for_each_plan(plans.drop_last(), check, tree, found);
    }
}

/// When the first `n` plans are done, the upkeep goes on with the next, or is
/// at its end.
proof fn upkeep_goes_on(
    check: bool,
    plans: Seq<PlanView>,
    at_start: Map<Seq<char>, Seq<char>>,
    found: Seq<Seq<Seq<char>>>,
    n: int,
)
    requires
        0 <= n <= plans.len(),
        all_listed(plans.take(n), check, at_start, found),
    ensures
        ({
            let (reports, tree) = all_applied(plans.take(n), check, at_start, found);
            let state = kept_up(after_plans(check, plans, reports)).next;
            if n < plans.len() {
                on_course_in_tree(check, plans, at_start, found, state, tree)
            } else {
                all_kept(check, plans, at_start, found, state, tree)
            }
        }),
{
    let (reports, tree) = all_applied(plans.take(n), check, at_start, found);
    reports_are_one_for_each_plan(plans.take(n), check, at_start, found);
    plans_are_counted(check, plans, reports);
    if n < plans.len() {
        let directory = home(plans[n]);
        let start = after_plans(check, plans, reports);
        a_kept_plan_is_counted(check, plans, reports, seen_from(tree, directory), found[n]);
        upkeep_starts_on_course(start, seen_from(tree, directory), found[n]);
        what_is_seen_can_be_replaced(tree, directory);
    } else {
        assert(plans.take(n) =~= plans);
    }
}

/// The upkeep of several plans starts on its course, or is at its end where
/// there are none.
pub proof fn upkeep_starts_on_course_in_tree(
    check: bool,
    plans: Seq<PlanView>,
    at_start: Map<Seq<char>, Seq<char>>,
    found: Seq<Seq<Seq<char>>>,
)
    ensures
        ({
            let state = kept_up(upkeep_begun(check, plans)).next;
            ||| on_course_in_tree(check, plans, at_start, found, state, at_start)
            ||| all_kept(check, plans, at_start, found, state, at_start)
        }),
{
    assert(plans.take(0) =~= Seq::empty());
    upkeep_goes_on(check, plans, at_start, found, 0);
}

/// Each step of the upkeep of several plans stays on the course or comes to its
/// end.
#[verifier::rlimit(40)]
pub proof fn upkeep_stays_on_course_in_tree(
    check: bool,
    plans: Seq<PlanView>,
    at_start: Map<Seq<char>, Seq<char>>,
    found: Seq<Seq<Seq<char>>>,
    state: NextView,
    tree: Map<Seq<char>, Seq<char>>,
    step: StepView,
    tree_after: Map<Seq<char>, Seq<char>>,
)
    requires
        on_course_in_tree(check, plans, at_start, found, state, tree),
        obeyed_in_tree(state, tree, found, step, tree_after),
    ensures
        ({
            ||| on_course_in_tree(check, plans, at_start, found, step.next, tree_after)
            ||| all_kept(check, plans, at_start, found, step.next, tree_after)
        }),
{
    let n = upkeep_of(state)->0.plan as int;
    let done = plans.take(n);
    let (reports, before) = all_applied(done, check, at_start, found);
    let directory = home(plans[n]);
    let start = after_plans(check, plans, reports);
    let seen = seen_from(before, directory);
    reports_are_one_for_each_plan(done, check, at_start, found);
    plans_are_counted(check, plans, reports);
    assert(upkeep_of(state)->0.current() == plans[n]);
    upkeep_stays_on_course(
        start,
        seen,
        found[n],
        state,
        seen_from(tree, directory),
        step,
        seen_from(tree_after, directory),
    );
    the_last_replacement_counts(
        before,
        directory,
        seen_from(tree, directory),
        seen_from(tree_after, directory),
    );
    if step == finished(plan_kept(start, seen, found[n])) && seen_from(tree_after, directory)
        == applied(plans[n], check, seen, found[n]).1 {
        let more = plans.take(n + 1);
        assert(more.drop_last() =~= done);
        assert(more.last() == plans[n]);
        assert(all_listed(more, check, at_start, found));
        a_kept_plan_is_counted(check, plans, reports, seen, found[n]);
        upkeep_goes_on(check, plans, at_start, found, n + 1);
    }
}

} // verus!
