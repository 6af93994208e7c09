//! Whole runs in a world that answers the same each time: the compiler, the
//! project's configuration and the builders say what they say, and what is
//! written stands in the tree until it is written again or removed.
use vstd::prelude::*;
#[allow(unused_imports)]
use crate::codec::json_decoded;
#[allow(unused_imports)]
use crate::conduct::commands_differ;
#[allow(unused_imports)]
use crate::config::{
    builder_resolved, config_loaded, names_apart, no_config, ConfigView, Probe, TargetView,
};
#[allow(unused_imports)]
use crate::course::{
    a_check_fails_on_any_difference, all_kept, obeyed_in_tree, on_course_in_tree,
    upkeep_starts_on_course_in_tree, upkeep_stays_on_course_in_tree,
};
#[allow(unused_imports)]
use crate::json::JsonView;
#[allow(unused_imports)]
use crate::layout::{each_two_separated, made_for, plans_of_a_project_are_kept_apart};
#[allow(unused_imports)]
use crate::options::{
    a_check_is_asked_for, a_choice_keeps_targets_apart, options_read, targets_chosen, OptionsView,
};
#[allow(unused_imports)]
use crate::plan::PlanView;
#[allow(unused_imports)]
use crate::request::{intake, IntakeView, RequestView};
#[allow(unused_imports)]
use crate::response::{plan_made, provided};
#[allow(unused_imports)]
use crate::session::{
    answered, begun, carried_on, configured, done, faulted, heard, kept_up, resolved, taken_in,
    upkeep_begun, work_begun, AskingView, NextView, StepView, WorkView,
};
#[allow(unused_imports)]
use crate::tree::{
    a_check_after_generating_all_is_clean, all_applied, all_orderly, kept_apart,
};

verus! {

/// What the world outside answers: the compiler's input, the contents of the
/// configuration, and for each target that is worked on, by its number, what is
/// found where its builder may be and what its builder replies.
pub struct Answers {
    pub input: Seq<char>,
    pub contents: Option<Seq<char>>,
    pub probes: Seq<Seq<Probe>>,
    pub replies: Seq<Result<JsonView, Seq<char>>>,
}

/// Whether a state comes before the directories are touched.
pub open spec fn at_work(state: NextView) -> bool {
    state is Listen || state is Configure || state is Resolve || state is Ask
}

/// What the configuration is loaded as.
pub open spec fn loaded_by(root: Seq<char>, answers: Answers) -> Result<ConfigView, Seq<char>> {
    match answers.contents {
        Some(text) => config_loaded(root, json_decoded(text)),
        None => Err(no_config(root)),
    }
}

/// The step that follows a state at work.
pub open spec fn answered_by(state: NextView, answers: Answers) -> StepView
    recommends
        at_work(state),
{
    match state {
        NextView::Listen(options) => heard(options, intake(answers.input)),
        NextView::Configure { options, request } => configured(
            options,
            request,
            loaded_by(options.root, answers),
        ),
        NextView::Resolve(work) => resolved(work, answers.probes[work.next as int]),
        NextView::Ask(asking) => answered(
            asking.work,
            answers.replies[asking.work.next as int],
        ),
        _ => StepView { print: Seq::empty(), next: state },
    }
}

/// Whether a step follows a state, with the tree before and after.
pub open spec fn told(
    state: NextView,
    tree: Map<Seq<char>, Seq<char>>,
    answers: Answers,
    found: Seq<Seq<Seq<char>>>,
    step: StepView,
    tree_after: Map<Seq<char>, Seq<char>>,
) -> bool {
    if at_work(state) {
        step == answered_by(state, answers) && tree_after == tree
    } else {
        obeyed_in_tree(state, tree, found, step, tree_after)
    }
}

/// Whether steps, each with the tree that it finds, make up a run in a world
/// that answers so, where `found[i]` is the listing of the directory of plan
/// `i`.
pub open spec fn is_told_run(
    args: Seq<Seq<char>>,
    answers: Answers,
    at_start: Map<Seq<char>, Seq<char>>,
    found: Seq<Seq<Seq<char>>>,
    steps: Seq<StepView>,
    trees: Seq<Map<Seq<char>, Seq<char>>>,
) -> bool {
    &&& steps.len() > 0
    &&& steps.len() == trees.len()
    &&& steps[0] == begun(args)
    &&& trees[0] == at_start
    &&& forall|i: int|
        0 <= i < steps.len() - 1 ==> told(
            (#[trigger] steps[i]).next,
            trees[i],
            answers,
            found,
            steps[i + 1],
            trees[i + 1],
        )
}

/// Whether step `k` is the first after the work: all before it are at work, and
/// it is not.
pub open spec fn work_ends_at(steps: Seq<StepView>, k: int) -> bool {
    &&& 0 < k < steps.len()
    &&& !at_work(steps[k].next)
    &&& forall|i: int| 0 <= i < k ==> at_work((#[trigger] steps[i]).next)
}

/// The plans that there are after the last state at work.
pub open spec fn plans_from(state: NextView, answers: Answers) -> Seq<PlanView> {
    match state {
        NextView::Resolve(work) => work.plans,
        NextView::Ask(asking) => taken_in(
            asking.work,
            answers.replies[asking.work.next as int],
        ).plans,
        _ => Seq::empty(),
    }
}

/// The options of a state at work.
pub open spec fn options_of(state: NextView) -> OptionsView {
    match state {
        NextView::Listen(options) => options,
        NextView::Configure { options, request } => options,
        NextView::Resolve(work) => work.options,
        NextView::Ask(asking) => asking.work.options,
        _ => arbitrary(),
    }
}

/// The options of a run that checks instead.
pub open spec fn checking(options: OptionsView) -> OptionsView {
    OptionsView { check: true, ..options }
}

/// The work of a run that checks instead.
pub open spec fn checking_work(work: WorkView) -> WorkView {
    WorkView { options: checking(work.options), ..work }
}

/// The state at work of a run that checks instead.
pub open spec fn checking_state(state: NextView) -> NextView {
    match state {
        NextView::Listen(options) => NextView::Listen(checking(options)),
        NextView::Configure { options, request } => NextView::Configure {
            options: checking(options),
            request,
        },
        NextView::Resolve(work) => NextView::Resolve(checking_work(work)),
        NextView::Ask(asking) => NextView::Ask(
            AskingView { work: checking_work(asking.work), ..asking },
        ),
        _ => state,
    }
}

/// What follows work that has come to where it is, in a run that generates.
proof fn work_that_generates(work: WorkView)
    requires
        work.options.command == "generate"@,
    ensures
        ({
            let next = carried_on(work).next;
            let shadow = carried_on(checking_work(work)).next;
            ||| next == NextView::Resolve(work) && shadow == NextView::Resolve(checking_work(work))
            ||| next is Exit && next->code != 0 && shadow == next
            ||| next == kept_up(upkeep_begun(work.options.check, work.plans)).next && shadow
                == kept_up(upkeep_begun(true, work.plans)).next
        }),
{
    commands_differ();
}

/// What a step of a run that generates leads to, and what the same step of one
/// that checks leads to.
proof fn a_step_at_work(state: NextView, answers: Answers)
    requires
        at_work(state),
        options_of(state).command == "generate"@,
    ensures
        ({
            let next = answered_by(state, answers).next;
            let shadow = answered_by(checking_state(state), answers).next;
            let plans = plans_from(state, answers);
            ||| at_work(next) && options_of(next) == options_of(state) && shadow
                == checking_state(next)
            ||| next is Exit && next->code != 0 && shadow == next
            ||| next == kept_up(upkeep_begun(options_of(state).check, plans)).next && shadow
                == kept_up(upkeep_begun(true, plans)).next
        }),
{
    commands_differ();
    match state {
        NextView::Configure { options, request } => {
            match loaded_by(options.root, answers) {
                Ok(config) => {
                    if targets_chosen(config.targets, options.selected) is Ok {
                        let targets = targets_chosen(config.targets, options.selected)->Ok_0;
                        let work = work_begun(options, request, config, targets);
                        work_that_generates(work);
                        assert(checking_work(work) == work_begun(
                            checking(options),
                            request,
                            config,
                            targets,
                        ));
                    }
                },
                Err(fault) => {},
            }
        },
        NextView::Resolve(work) => {
            let probes = answers.probes[work.next as int];
            match builder_resolved(
                work.options.root,
                work.config.builders,
                work.target(),
                probes,
            ) {
                Err(fault) => {
                    work_that_generates(faulted(work, fault));
                    assert(checking_work(faulted(work, fault)) == faulted(
                        checking_work(work),
                        fault,
                    ));
                },
                Ok(program) => {},
            }
        },
        NextView::Ask(asking) => {
            let reply = answers.replies[asking.work.next as int];
            work_that_generates(taken_in(asking.work, reply));
            assert(checking_work(taken_in(asking.work, reply)) == taken_in(
                checking_work(asking.work),
                reply,
            ));
        },
        _ => {},
    }
}

/// The work of a run that generates changes nothing in the tree.
proof fn the_work_touches_nothing(
    args: Seq<Seq<char>>,
    answers: Answers,
    at_start: Map<Seq<char>, Seq<char>>,
    found: Seq<Seq<Seq<char>>>,
    steps: Seq<StepView>,
    trees: Seq<Map<Seq<char>, Seq<char>>>,
    j: int,
)
    requires
        is_told_run(args, answers, at_start, found, steps, trees),
        options_read(args) is Ok,
        options_read(args)->Ok_0.command == "generate"@,
        0 <= j < steps.len(),
        forall|i: int| 0 <= i < j ==> at_work((#[trigger] steps[i]).next),
    ensures
        trees[j] == at_start,
        at_work(steps[j].next) ==> options_of(steps[j].next) == options_read(args)->Ok_0,
    decreases j,
{
    commands_differ();
    if j > 0 {
        the_work_touches_nothing(args, answers, at_start, found, steps, trees, j - 1);
        assert(at_work(steps[j - 1].next));
        assert(told(
            steps[j - 1].next,
            trees[j - 1],
            answers,
            found,
            steps[j - 1 + 1],
            trees[j - 1 + 1],
        ));
        a_step_at_work(steps[j - 1].next, answers);
        let plans = plans_from(steps[j - 1].next, answers);
        assert(!at_work(kept_up(upkeep_begun(options_read(args)->Ok_0.check, plans)).next));
    }
}

/// Where the work of a run that generates ends, the run exits with a code that
/// is not 0, or goes on to keep up the plans that it has made.
pub proof fn the_work_leads_to_the_upkeep(
    args: Seq<Seq<char>>,
    answers: Answers,
    at_start: Map<Seq<char>, Seq<char>>,
    found: Seq<Seq<Seq<char>>>,
    steps: Seq<StepView>,
    trees: Seq<Map<Seq<char>, Seq<char>>>,
    k: int,
)
    requires
        is_told_run(args, answers, at_start, found, steps, trees),
        options_read(args) is Ok,
        options_read(args)->Ok_0.command == "generate"@,
        work_ends_at(steps, k),
    ensures
        trees[k] == at_start,
        ({
            let plans = plans_from(steps[k - 1].next, answers);
            ||| steps[k].next is Exit && steps[k].next->code != 0
            ||| steps[k].next == kept_up(upkeep_begun(options_read(args)->Ok_0.check, plans)).next
        }),
{
    the_work_touches_nothing(args, answers, at_start, found, steps, trees, k);
    the_work_touches_nothing(args, answers, at_start, found, steps, trees, k - 1);
    assert(at_work(steps[k - 1].next));
    assert(told(
        steps[k - 1].next,
        trees[k - 1],
        answers,
        found,
        steps[k - 1 + 1],
        trees[k - 1 + 1],
    ));
    a_step_at_work(steps[k - 1].next, answers);
}

/// From where it begins, the upkeep runs its course to its end.
proof fn the_upkeep_runs_its_course(
    args: Seq<Seq<char>>,
    answers: Answers,
    at_start: Map<Seq<char>, Seq<char>>,
    found: Seq<Seq<Seq<char>>>,
    steps: Seq<StepView>,
    trees: Seq<Map<Seq<char>, Seq<char>>>,
    check: bool,
    plans: Seq<PlanView>,
    k: int,
    j: int,
)
    requires
        is_told_run(args, answers, at_start, found, steps, trees),
        0 <= k <= j < steps.len(),
        trees[k] == at_start,
        steps[k].next == kept_up(upkeep_begun(check, plans)).next,
    ensures
        ({
            ||| on_course_in_tree(check, plans, at_start, found, steps[j].next, trees[j])
            ||| all_kept(check, plans, at_start, found, steps[j].next, trees[j])
        }),
    decreases j,
{
    if j == k {
        upkeep_starts_on_course_in_tree(check, plans, at_start, found);
    } else {
        the_upkeep_runs_its_course(
            args,
            answers,
            at_start,
            found,
            steps,
            trees,
            check,
            plans,
            k,
            j - 1,
        );
        assert(told(
            steps[j - 1].next,
            trees[j - 1],
            answers,
            found,
            steps[j - 1 + 1],
            trees[j - 1 + 1],
        ));
        upkeep_stays_on_course_in_tree(
            check,
            plans,
            at_start,
            found,
            steps[j - 1].next,
            trees[j - 1],
            steps[j],
            trees[j],
        );
    }
}

/// A run that generates and has kept up its plans leaves the tree as all of
/// them come to.
pub proof fn a_run_leaves_what_its_plans_come_to(
    args: Seq<Seq<char>>,
    answers: Answers,
    at_start: Map<Seq<char>, Seq<char>>,
    found: Seq<Seq<Seq<char>>>,
    steps: Seq<StepView>,
    trees: Seq<Map<Seq<char>, Seq<char>>>,
    k: int,
)
    requires
        is_told_run(args, answers, at_start, found, steps, trees),
        options_read(args) is Ok,
        options_read(args)->Ok_0.command == "generate"@,
        work_ends_at(steps, k),
        !(steps[k].next is Exit && steps[k].next->code != 0),
        steps.last().next is Exit,
    ensures
        all_kept(
            options_read(args)->Ok_0.check,
            plans_from(steps[k - 1].next, answers),
            at_start,
            found,
            steps.last().next,
            trees.last(),
        ),
{
    the_work_leads_to_the_upkeep(args, answers, at_start, found, steps, trees, k);
    the_upkeep_runs_its_course(
        args,
        answers,
        at_start,
        found,
        steps,
        trees,
        options_read(args)->Ok_0.check,
        plans_from(steps[k - 1].next, answers),
        k,
        steps.len() - 1,
    );
}

/// A run that checks does the same work as one that generates, step by step.
proof fn a_check_does_the_same_work(
    args: Seq<Seq<char>>,
    answers: Answers,
    at_start: Map<Seq<char>, Seq<char>>,
    found: Seq<Seq<Seq<char>>>,
    steps: Seq<StepView>,
    trees: Seq<Map<Seq<char>, Seq<char>>>,
    at_start_again: Map<Seq<char>, Seq<char>>,
    found_again: Seq<Seq<Seq<char>>>,
    steps_again: Seq<StepView>,
    trees_again: Seq<Map<Seq<char>, Seq<char>>>,
    j: int,
)
    requires
        options_read(args) is Ok,
        options_read(args)->Ok_0.command == "generate"@,
        is_told_run(args, answers, at_start, found, steps, trees),
        is_told_run(
            args.push("--check"@),
            answers,
            at_start_again,
            found_again,
            steps_again,
            trees_again,
        ),
        steps_again.last().next is Exit,
        0 <= j < steps.len(),
        forall|i: int| 0 <= i < j ==> at_work((#[trigger] steps[i]).next),
    ensures
        j < steps_again.len(),
        trees_again[j] == at_start_again,
        at_work(steps[j].next) ==> steps_again[j].next == checking_state(steps[j].next),
        j > 0 ==> steps_again[j] == answered_by(checking_state(steps[j - 1].next), answers),
    decreases j,
{
    commands_differ();
    a_check_is_asked_for(args);
    if j > 0 {
        a_check_does_the_same_work(
            args,
            answers,
            at_start,
            found,
            steps,
            trees,
            at_start_again,
            found_again,
            steps_again,
            trees_again,
            j - 1,
        );
        the_work_touches_nothing(args, answers, at_start, found, steps, trees, j - 1);
        assert(at_work(steps[j - 1].next));
        assert(at_work(steps_again[j - 1].next));
        assert(told(
            steps[j - 1].next,
            trees[j - 1],
            answers,
            found,
            steps[j - 1 + 1],
            trees[j - 1 + 1],
        ));
        assert(j < steps_again.len());
        assert(told(
            steps_again[j - 1].next,
            trees_again[j - 1],
            answers,
            found_again,
            steps_again[j - 1 + 1],
            trees_again[j - 1 + 1],
        ));
        a_step_at_work(steps[j - 1].next, answers);
        let plans = plans_from(steps[j - 1].next, answers);
        assert(!at_work(kept_up(upkeep_begun(options_of(steps[j - 1].next).check, plans)).next));
    }
}

/// After a run that generates and exits with code 0, the same run with
/// `--check` leaves the tree as it is. It exits with code 0 exactly where the
/// plans keep out of each other's way and each is orderly, for any number of
/// targets, nested or not; otherwise it exits with code 1.
pub proof fn what_a_check_after_generating_comes_to(
    args: Seq<Seq<char>>,
    answers: Answers,
    at_start: Map<Seq<char>, Seq<char>>,
    found: Seq<Seq<Seq<char>>>,
    steps: Seq<StepView>,
    trees: Seq<Map<Seq<char>, Seq<char>>>,
    found_again: Seq<Seq<Seq<char>>>,
    steps_again: Seq<StepView>,
    trees_again: Seq<Map<Seq<char>, Seq<char>>>,
    k: int,
)
    requires
        options_read(args) is Ok,
        options_read(args)->Ok_0.command == "generate"@,
        !options_read(args)->Ok_0.check,
        is_told_run(args, answers, at_start, found, steps, trees),
        steps.last().next is Exit,
        steps.last().next->code == 0,
        is_told_run(
            args.push("--check"@),
            answers,
            trees.last(),
            found_again,
            steps_again,
            trees_again,
        ),
        steps_again.last().next is Exit,
        work_ends_at(steps, k),
    ensures
        steps_again.last().next->code == (if kept_apart(plans_from(steps[k - 1].next, answers))
            && all_orderly(plans_from(steps[k - 1].next, answers)) {
            0int
        } else {
            1int
        }),
        trees_again.last() == trees.last(),
{
    let plans = plans_from(steps[k - 1].next, answers);
    if steps[k].next is Exit && k < steps.len() - 1 {
        assert(told(
            steps[k].next,
            trees[k],
            answers,
            found,
            steps[k + 1],
            trees[k + 1],
        ));
    }
    a_run_leaves_what_its_plans_come_to(args, answers, at_start, found, steps, trees, k);
    the_work_leads_to_the_upkeep(args, answers, at_start, found, steps, trees, k);
    a_check_does_the_same_work(
        args,
        answers,
        at_start,
        found,
        steps,
        trees,
        trees.last(),
        found_again,
        steps_again,
        trees_again,
        k,
    );
    the_work_touches_nothing(args, answers, at_start, found, steps, trees, k - 1);
    assert(at_work(steps[k - 1].next));
    assert(told(
        steps[k - 1].next,
        trees[k - 1],
        answers,
        found,
        steps[k - 1 + 1],
        trees[k - 1 + 1],
    ));
    a_step_at_work(steps[k - 1].next, answers);
    the_upkeep_runs_its_course(
        args.push("--check"@),
        answers,
        trees.last(),
        found_again,
        steps_again,
        trees_again,
        true,
        plans,
        k,
        steps_again.len() - 1,
    );
    a_check_after_generating_all_is_clean(plans, at_start, found, found_again);
    a_check_fails_on_any_difference(
        true,
        plans,
        all_applied(plans, true, trees.last(), found_again).0,
    );
}

/// A run that generates and has come to its end has ended its work before.
pub proof fn the_work_ends(
    args: Seq<Seq<char>>,
    answers: Answers,
    at_start: Map<Seq<char>, Seq<char>>,
    found: Seq<Seq<Seq<char>>>,
    steps: Seq<StepView>,
    trees: Seq<Map<Seq<char>, Seq<char>>>,
)
    requires
        is_told_run(args, answers, at_start, found, steps, trees),
        options_read(args) is Ok,
        options_read(args)->Ok_0.command == "generate"@,
        steps.last().next is Exit,
    ensures
        exists|k: int| work_ends_at(steps, k),
{
    commands_differ();
    let n = steps.len() - 1;
    assert(at_work(steps[0].next));
    a_first_step_after_the_work(steps, n);
}

proof fn a_first_step_after_the_work(steps: Seq<StepView>, n: int)
    requires
        0 <= n < steps.len(),
        at_work(steps[0].next),
        !at_work(steps[n].next),
    ensures
        exists|k: int| work_ends_at(steps, k),
    decreases n,
{
    if exists|i: int| 0 <= i < n && !at_work((#[trigger] steps[i]).next) {
        let i = choose|i: int| 0 <= i < n && !at_work((#[trigger] steps[i]).next);
        a_first_step_after_the_work(steps, i);
    } else {
        assert(work_ends_at(steps, n));
    }
}

/// The response that a builder has sent.
pub open spec fn response_of(reply: Result<JsonView, Seq<char>>) -> JsonView {
    match reply {
        Ok(response) => response,
        Err(fault) => JsonView::Null,
    }
}

/// The responses to a number of targets.
pub open spec fn responses_to(n: nat, answers: Answers) -> Seq<JsonView> {
    Seq::new(n, |i: int| response_of(answers.replies[i]))
}

/// The request of a compiler whose input is accepted.
pub open spec fn accepted_by(answers: Answers) -> RequestView {
    intake(answers.input)->Accepted_0
}

/// Whether the work is on the request that was accepted and the targets that
/// were chosen of the project's, and has a plan for each that is done, made of
/// the response of its builder, where there is no error.
pub open spec fn plans_so_far(work: WorkView, answers: Answers) -> bool {
    &&& intake(answers.input) == IntakeView::Accepted(work.request)
    &&& loaded_by(work.options.root, answers) == Ok::<ConfigView, Seq<char>>(work.config)
    &&& targets_chosen(work.config.targets, work.options.selected) == Ok::<
        Seq<TargetView>,
        Seq<char>,
    >(work.targets)
    &&& work.next <= work.targets.len()
    &&& work.errors.len() == 0 ==> made_for(
        work.options.root,
        work.config,
        work.request.contributions,
        work.targets.take(work.next as int),
        responses_to(work.next, answers),
        work.plans,
    )
}

/// Whether a state at work has its plans so far.
pub open spec fn has_its_plans(state: NextView, answers: Answers) -> bool {
    match state {
        NextView::Configure { options, request } => intake(answers.input)
            == IntakeView::Accepted(request),
        NextView::Resolve(work) => plans_so_far(work, answers) && work.ready(),
        NextView::Ask(asking) => plans_so_far(asking.work, answers) && asking.work.ready(),
        _ => true,
    }
}

proof fn an_answer_adds_its_plan(work: WorkView, answers: Answers)
    requires
        plans_so_far(work, answers),
        work.ready(),
        work.options.command == "generate"@,
    ensures
        plans_so_far(taken_in(work, answers.replies[work.next as int]), answers),
{
    commands_differ();
    let reply = answers.replies[work.next as int];
    let now = taken_in(work, reply);
    if now.errors.len() == 0 {
        let targets = work.targets.take(work.next as int);
        let more = work.targets.take(now.next as int);
        let responses = responses_to(now.next, answers);
        assert forall|i: int| 0 <= i < now.plans.len() implies plan_made(
            work.options.root,
            work.config,
            work.request.contributions,
            more[i],
            responses[i],
        ) == Ok::<PlanView, Seq<char>>(#[trigger] now.plans[i]) by {
            if i < work.plans.len() {
                assert(work.plans[i] == now.plans[i]);
                assert(targets[i] == more[i]);
                assert(responses_to(work.next, answers)[i] == responses[i]);
            }
        }
    }
}

proof fn a_step_at_work_has_its_plans(state: NextView, answers: Answers)
    requires
        at_work(state),
        options_of(state).command == "generate"@,
        has_its_plans(state, answers),
    ensures
        has_its_plans(answered_by(state, answers).next, answers),
{
    commands_differ();
    match state {
        NextView::Configure { options, request } => {
            match loaded_by(options.root, answers) {
                Ok(config) => {
                    if targets_chosen(config.targets, options.selected) is Ok {
                        let targets = targets_chosen(config.targets, options.selected)->Ok_0;
                        work_that_generates(work_begun(options, request, config, targets));
                    }
                },
                Err(fault) => {},
            }
        },
        NextView::Resolve(work) => {
            let probes = answers.probes[work.next as int];
            match builder_resolved(
                work.options.root,
                work.config.builders,
                work.target(),
                probes,
            ) {
                Err(fault) => {
                    work_that_generates(faulted(work, fault));
                },
                Ok(program) => {},
            }
        },
        NextView::Ask(asking) => {
            an_answer_adds_its_plan(asking.work, answers);
            work_that_generates(taken_in(asking.work, answers.replies[asking.work.next as int]));
        },
        _ => {},
    }
}

proof fn the_work_has_its_plans(
    args: Seq<Seq<char>>,
    answers: Answers,
    at_start: Map<Seq<char>, Seq<char>>,
    found: Seq<Seq<Seq<char>>>,
    steps: Seq<StepView>,
    trees: Seq<Map<Seq<char>, Seq<char>>>,
    j: int,
)
    requires
        is_told_run(args, answers, at_start, found, steps, trees),
        options_read(args) is Ok,
        options_read(args)->Ok_0.command == "generate"@,
        0 <= j < steps.len(),
        forall|i: int| 0 <= i < j ==> at_work((#[trigger] steps[i]).next),
    ensures
        has_its_plans(steps[j].next, answers),
    decreases j,
{
    commands_differ();
    if j > 0 {
        the_work_has_its_plans(args, answers, at_start, found, steps, trees, j - 1);
        the_work_touches_nothing(args, answers, at_start, found, steps, trees, j - 1);
        assert(at_work(steps[j - 1].next));
        assert(told(
            steps[j - 1].next,
            trees[j - 1],
            answers,
            found,
            steps[j - 1 + 1],
            trees[j - 1 + 1],
        ));
        a_step_at_work_has_its_plans(steps[j - 1].next, answers);
    }
}

/// The targets of the project that are chosen.
pub open spec fn chosen_by(options: OptionsView, answers: Answers) -> Seq<TargetView> {
    targets_chosen(
        loaded_by(options.root, answers)->Ok_0.targets,
        options.selected,
    )->Ok_0
}

/// Whether plans are made for the chosen targets, each of the response of its
/// builder and of what the compiler contributes to it.
pub open spec fn made_for_the_chosen(
    options: OptionsView,
    answers: Answers,
    plans: Seq<PlanView>,
) -> bool {
    let targets = chosen_by(options, answers);
    &&& loaded_by(options.root, answers) is Ok
    &&& targets_chosen(
        loaded_by(options.root, answers)->Ok_0.targets,
        options.selected,
    ) is Ok
    &&& intake(answers.input) is Accepted
    &&& made_for(
        options.root,
        loaded_by(options.root, answers)->Ok_0,
        accepted_by(answers).contributions,
        targets,
        responses_to(targets.len(), answers),
        plans,
    )
}

proof fn work_without_errors(work: WorkView, answers: Answers)
    requires
        plans_so_far(work, answers),
        work.options.command == "generate"@,
        !at_work(carried_on(work).next),
        !(carried_on(work).next is Exit && carried_on(work).next->code != 0),
    ensures
        work.errors.len() == 0,
        made_for_the_chosen(work.options, answers, work.plans),
{
    commands_differ();
    assert(work.next >= work.targets.len());
    assert(work.errors.len() == 0);
    assert(work.targets.take(work.next as int) =~= work.targets);
    let targets = chosen_by(work.options, answers);
    assert(targets == work.targets);
    assert(made_for(
        work.options.root,
        loaded_by(work.options.root, answers)->Ok_0,
        work.request.contributions,
        targets,
        responses_to(targets.len(), answers),
        work.plans,
    ));
}

proof fn the_last_state_at_work(state: NextView, answers: Answers)
    requires
        at_work(state),
        options_of(state).command == "generate"@,
        has_its_plans(state, answers),
        !at_work(answered_by(state, answers).next),
        !(answered_by(state, answers).next is Exit && answered_by(state, answers).next->code != 0),
    ensures
        made_for_the_chosen(options_of(state), answers, plans_from(state, answers)),
{
    commands_differ();
    match state {
        NextView::Ask(asking) => {
            an_answer_adds_its_plan(asking.work, answers);
            work_without_errors(
                taken_in(asking.work, answers.replies[asking.work.next as int]),
                answers,
            );
        },
        NextView::Configure { options, request } => {
            let config = loaded_by(options.root, answers)->Ok_0;
            let targets = targets_chosen(config.targets, options.selected)->Ok_0;
            work_without_errors(work_begun(options, request, config, targets), answers);
        },
        NextView::Resolve(work) => {
            let probes = answers.probes[work.next as int];
            let answer = builder_resolved(
                work.options.root,
                work.config.builders,
                work.target(),
                probes,
            );
            if answer is Err {
                work_without_errors(faulted(work, answer->Err_0), answers);
            }
        },
        _ => {},
    }
}

/// The plans that a run goes on to keep up are those that are made for the
/// chosen targets, each of the response of its builder and of what the compiler
/// contributes to it.
pub proof fn plans_are_made_for_the_chosen_targets(
    args: Seq<Seq<char>>,
    answers: Answers,
    at_start: Map<Seq<char>, Seq<char>>,
    found: Seq<Seq<Seq<char>>>,
    steps: Seq<StepView>,
    trees: Seq<Map<Seq<char>, Seq<char>>>,
    k: int,
)
    requires
        is_told_run(args, answers, at_start, found, steps, trees),
        options_read(args) is Ok,
        options_read(args)->Ok_0.command == "generate"@,
        work_ends_at(steps, k),
        !(steps[k].next is Exit && steps[k].next->code != 0),
    ensures
        made_for_the_chosen(
            options_read(args)->Ok_0,
            answers,
            plans_from(steps[k - 1].next, answers),
        ),
{
    let state = steps[k - 1].next;
    the_work_has_its_plans(args, answers, at_start, found, steps, trees, k - 1);
    the_work_touches_nothing(args, answers, at_start, found, steps, trees, k - 1);
    assert(at_work(state));
    assert(told(state, trees[k - 1], answers, found, steps[k - 1 + 1], trees[k - 1 + 1]));
    the_last_state_at_work(state, answers);
}

/// After a run that generates and exits with code 0, the same run with
/// `--check` exits with code 0 too, and leaves the tree as it is, where
/// each two of the chosen targets are well separated, or their plans keep out of
/// each other's way all the same, and each plan is orderly.
pub proof fn a_check_after_generating_succeeds_for_separated_targets(
    args: Seq<Seq<char>>,
    answers: Answers,
    at_start: Map<Seq<char>, Seq<char>>,
    found: Seq<Seq<Seq<char>>>,
    steps: Seq<StepView>,
    trees: Seq<Map<Seq<char>, Seq<char>>>,
    found_again: Seq<Seq<Seq<char>>>,
    steps_again: Seq<StepView>,
    trees_again: Seq<Map<Seq<char>, Seq<char>>>,
    k: int,
)
    requires
        options_read(args) is Ok,
        options_read(args)->Ok_0.command == "generate"@,
        !options_read(args)->Ok_0.check,
        is_told_run(args, answers, at_start, found, steps, trees),
        steps.last().next is Exit,
        steps.last().next->code == 0,
        is_told_run(
            args.push("--check"@),
            answers,
            trees.last(),
            found_again,
            steps_again,
            trees_again,
        ),
        steps_again.last().next is Exit,
        work_ends_at(steps, k),
        names_apart(chosen_by(options_read(args)->Ok_0, answers)),
        each_two_separated(
            options_read(args)->Ok_0.root,
            chosen_by(options_read(args)->Ok_0, answers),
            plans_from(steps[k - 1].next, answers),
        ),
        all_orderly(plans_from(steps[k - 1].next, answers)),
    ensures
        steps_again.last().next->code == 0,
        trees_again.last() == trees.last(),
{
    let options = options_read(args)->Ok_0;
    let targets = chosen_by(options, answers);
    let config = loaded_by(options.root, answers)->Ok_0;
    let plans = plans_from(steps[k - 1].next, answers);
    if steps[k].next is Exit && k < steps.len() - 1 {
        assert(told(
            steps[k].next,
            trees[k],
            answers,
            found,
            steps[k + 1],
            trees[k + 1],
        ));
    }
    plans_are_made_for_the_chosen_targets(args, answers, at_start, found, steps, trees, k);
    let contributions = accepted_by(answers).contributions;
    a_choice_keeps_targets_apart(config.targets, options.selected);
    plans_of_a_project_are_kept_apart(
        options.root,
        config,
        contributions,
        targets,
        responses_to(targets.len(), answers),
        plans,
    );
    what_a_check_after_generating_comes_to(
        args,
        answers,
        at_start,
        found,
        steps,
        trees,
        found_again,
        steps_again,
        trees_again,
        k,
    );
}

/// Whether a target goes well: its builder is found and can be run, and, where
/// the command asks it something, its reply is a description or makes a plan.
pub open spec fn goes_well(options: OptionsView, answers: Answers, i: int) -> bool {
    let config = loaded_by(options.root, answers)->Ok_0;
    let target = chosen_by(options, answers)[i];
    let reply = answers.replies[i];
    &&& builder_resolved(options.root, config.builders, target, answers.probes[i]) is Ok
    &&& options.command == "describe"@ ==> reply is Ok && provided(
        target.name,
        reply->Ok_0,
    ) is Ok
    &&& options.command == "generate"@ ==> reply is Ok && plan_made(
        options.root,
        config,
        accepted_by(answers).contributions,
        target,
        reply->Ok_0,
    ) is Ok
}

/// Whether all goes well up to the end of the work: the compiler's input is
/// accepted where the command waits for it, the configuration is loaded, the
/// targets are chosen, and each of them goes well.
pub open spec fn all_goes_well(options: OptionsView, answers: Answers) -> bool {
    &&& options.command == "generate"@ ==> intake(answers.input) is Accepted
    &&& loaded_by(options.root, answers) is Ok
    &&& targets_chosen(
        loaded_by(options.root, answers)->Ok_0.targets,
        options.selected,
    ) is Ok
    &&& forall|i: int|
        0 <= i < chosen_by(options, answers).len() ==> #[trigger] goes_well(options, answers, i)
}

/// Whether the command works on the targets.
pub open spec fn works_on_targets(command: Seq<char>) -> bool {
    command == "generate"@ || command == "describe"@ || command == "doctor"@
}

/// Whether the work has an error exactly where a target that is done has not
/// gone well.
pub open spec fn keeps_count(work: WorkView, answers: Answers) -> bool {
    &&& works_on_targets(work.options.command)
    &&& work.options.command == "generate"@ ==> intake(answers.input) == IntakeView::Accepted(
        work.request,
    )
    &&& loaded_by(work.options.root, answers) == Ok::<ConfigView, Seq<char>>(work.config)
    &&& targets_chosen(work.config.targets, work.options.selected) == Ok::<
        Seq<TargetView>,
        Seq<char>,
    >(work.targets)
    &&& work.next <= work.targets.len()
    &&& work.errors.len() == 0 <==> forall|i: int|
        0 <= i < work.next ==> #[trigger] goes_well(work.options, answers, i)
}

/// Whether a state at work has kept count.
pub open spec fn has_kept_count(state: NextView, answers: Answers) -> bool {
    match state {
        NextView::Listen(options) => options.command == "generate"@,
        NextView::Configure { options, request } => works_on_targets(options.command) && (
        options.command == "generate"@ ==> intake(answers.input) == IntakeView::Accepted(request)),
        NextView::Resolve(work) => keeps_count(work, answers) && work.ready(),
        NextView::Ask(asking) => keeps_count(asking.work, answers) && asking.work.ready()
            && asking.work.options.command != "doctor"@ && builder_resolved(
            asking.work.options.root,
            asking.work.config.builders,
            asking.work.target(),
            answers.probes[asking.work.next as int],
        ) is Ok,
        _ => false,
    }
}

/// Whether the state after the work says how it went.
pub open spec fn says_how_it_went(
    state: NextView,
    options: OptionsView,
    answers: Answers,
) -> bool {
    &&& (state is Exit && state->code != 0) <==> !all_goes_well(options, answers)
    &&& options.command != "generate"@ ==> state is Exit
}

/// One more target is counted.
proof fn a_target_is_counted(work: WorkView, now: WorkView, answers: Answers)
    requires
        keeps_count(work, answers),
        work.ready(),
        now.options == work.options,
        now.request == work.request,
        now.config == work.config,
        now.targets == work.targets,
        now.next == work.next + 1,
        now.errors.len() == 0 <==> work.errors.len() == 0 && goes_well(
            work.options,
            answers,
            work.next as int,
        ),
    ensures
        keeps_count(now, answers),
{
    if now.errors.len() == 0 {
        assert forall|i: int| 0 <= i < now.next implies #[trigger] goes_well(
            now.options,
            answers,
            i,
        ) by {}
    }
    if forall|i: int| 0 <= i < now.next ==> #[trigger] goes_well(now.options, answers, i) {
        assert forall|i: int| 0 <= i < work.next implies #[trigger] goes_well(
            work.options,
            answers,
            i,
        ) by {
            assert(goes_well(now.options, answers, i));
        }
        assert(goes_well(now.options, answers, work.next as int));
    }
}

proof fn counted_work_goes_on(work: WorkView, answers: Answers)
    requires
        keeps_count(work, answers),
    ensures
        ({
            let next = carried_on(work).next;
            ||| next == NextView::Resolve(work) && has_kept_count(next, answers)
            ||| !at_work(next) && says_how_it_went(next, work.options, answers)
        }),
{
    commands_differ();
    if work.next >= work.targets.len() {
        assert(chosen_by(work.options, answers) == work.targets);
        if work.errors.len() == 0 {
            assert(all_goes_well(work.options, answers));
        } else if all_goes_well(work.options, answers) {
            assert forall|i: int| 0 <= i < work.next implies #[trigger] goes_well(
                work.options,
                answers,
                i,
            ) by {}
        }
    }
}

proof fn a_step_keeps_count(state: NextView, answers: Answers)
    requires
        has_kept_count(state, answers),
    ensures
        ({
            let next = answered_by(state, answers).next;
            ||| at_work(next) && has_kept_count(next, answers) && options_of(next) == options_of(
                state,
            )
            ||| !at_work(next) && says_how_it_went(next, options_of(state), answers)
        }),
{
    commands_differ();
    match state {
        NextView::Configure { options, request } => {
            match loaded_by(options.root, answers) {
                Ok(config) => {
                    if targets_chosen(config.targets, options.selected) is Ok {
                        let targets = targets_chosen(config.targets, options.selected)->Ok_0;
                        counted_work_goes_on(
                            work_begun(options, request, config, targets),
                            answers,
                        );
                    }
                },
                Err(fault) => {},
            }
        },
        NextView::Resolve(work) => {
            let answer = builder_resolved(
                work.options.root,
                work.config.builders,
                work.target(),
                answers.probes[work.next as int],
            );
            assert(chosen_by(work.options, answers) == work.targets);
            if answer is Err {
                let now = faulted(work, answer->Err_0);
                a_target_is_counted(work, now, answers);
                counted_work_goes_on(now, answers);
            } else if work.options.command == "doctor"@ {
                a_target_is_counted(work, done(work), answers);
                counted_work_goes_on(done(work), answers);
            }
        },
        NextView::Ask(asking) => {
            let work = asking.work;
            let now = taken_in(work, answers.replies[work.next as int]);
            assert(chosen_by(work.options, answers) == work.targets);
            a_target_is_counted(work, now, answers);
            counted_work_goes_on(now, answers);
        },
        _ => {},
    }
}

/// The work of a run has an error exactly where a target has not gone well.
pub proof fn the_work_keeps_count(
    args: Seq<Seq<char>>,
    answers: Answers,
    at_start: Map<Seq<char>, Seq<char>>,
    found: Seq<Seq<Seq<char>>>,
    steps: Seq<StepView>,
    trees: Seq<Map<Seq<char>, Seq<char>>>,
    j: int,
)
    requires
        is_told_run(args, answers, at_start, found, steps, trees),
        options_read(args) is Ok,
        works_on_targets(options_read(args)->Ok_0.command),
        0 <= j < steps.len(),
        forall|i: int| 0 <= i < j ==> at_work((#[trigger] steps[i]).next),
    ensures
        ({
            let next = steps[j].next;
            let options = options_read(args)->Ok_0;
            ||| at_work(next) && has_kept_count(next, answers) && options_of(next) == options
            ||| !at_work(next) && says_how_it_went(next, options, answers)
        }),
    decreases j,
{
    commands_differ();
    if j > 0 {
        the_work_keeps_count(args, answers, at_start, found, steps, trees, j - 1);
        assert(at_work(steps[j - 1].next));
        assert(told(
            steps[j - 1].next,
            trees[j - 1],
            answers,
            found,
            steps[j - 1 + 1],
            trees[j - 1 + 1],
        ));
        a_step_keeps_count(steps[j - 1].next, answers);
    }
}

/// The work of a run ends with a code that is not 0 exactly where something has
/// not gone well. A run of `doctor` exits with code 0 exactly where every
/// builder is found and can be run, one of `describe` where each also describes
/// itself, and one of `generate` goes on to keep up its plans exactly where the
/// compiler's input is accepted and each target has its plan.
pub proof fn a_run_goes_well_where_every_target_does(
    args: Seq<Seq<char>>,
    answers: Answers,
    at_start: Map<Seq<char>, Seq<char>>,
    found: Seq<Seq<Seq<char>>>,
    steps: Seq<StepView>,
    trees: Seq<Map<Seq<char>, Seq<char>>>,
    k: int,
)
    requires
        is_told_run(args, answers, at_start, found, steps, trees),
        options_read(args) is Ok,
        works_on_targets(options_read(args)->Ok_0.command),
        work_ends_at(steps, k),
    ensures
        (steps[k].next is Exit && steps[k].next->code != 0) <==> !all_goes_well(
            options_read(args)->Ok_0,
            answers,
        ),
        options_read(args)->Ok_0.command != "generate"@ ==> steps[k].next is Exit,
{
    the_work_keeps_count(args, answers, at_start, found, steps, trees, k);
}

} // verus!
