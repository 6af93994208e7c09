//! What holds of every run, whatever the world outside answers.
use vstd::prelude::*;
#[allow(unused_imports)]
use crate::codec::json_decoded;
#[allow(unused_imports)]
use crate::config::{builder_resolved, config_loaded, no_config, Probe};
#[allow(unused_imports)]
use crate::files::{escapes, stay_inside};
#[allow(unused_imports)]
use crate::json::JsonView;
#[allow(unused_imports)]
use crate::options::options_read;
#[allow(unused_imports)]
use crate::plan::PlanView;
#[allow(unused_imports)]
use crate::request::{an_accepted_request_stays_inside, contributions_inside, intake};
#[allow(unused_imports)]
use crate::response::{a_plan_stays_inside, plan_made};
#[allow(unused_imports)]
use crate::session::{
    answered, begun, carried_on, configured, done, faulted, found, heard, kept_up, listed, pooled,
    preceded, ready_line, removed, resolved, taken_in, NextView, ReadingView, StepView, WorkView,
};

verus! {

/// Whether a step can follow a state: it does so for some answer from outside.
pub open spec fn follows(state: NextView, step: StepView) -> bool {
    match state {
        NextView::Exit { complaint, code } => false,
        NextView::Listen(options) => exists|input: Seq<char>|
            step == heard(options, #[trigger] intake(input)),
        NextView::Configure { options, request } => {
            ||| step == configured(options, request, Err(no_config(options.root)))
            ||| exists|contents: Seq<char>|
                step == configured(
                    options,
                    request,
                    config_loaded(options.root, #[trigger] json_decoded(contents)),
                )
        },
        NextView::Resolve(work) => exists|probes: Seq<Probe>|
            step == #[trigger] resolved(work, probes),
        NextView::Ask(asking) => exists|reply: Result<JsonView, Seq<char>>|
            step == #[trigger] answered(asking.work, reply),
        NextView::Read(upkeep) => exists|reading: ReadingView|
            step == #[trigger] found(upkeep, reading),
        NextView::Write { upkeep, path, contents } => step == kept_up(upkeep),
        NextView::List(upkeep) => exists|paths: Seq<Seq<char>>|
            step == #[trigger] listed(upkeep, paths),
        NextView::Remove { upkeep, next } => step == removed(upkeep, next),
    }
}

/// Whether steps make up a run: the first is that of the arguments, and each
/// other one can follow the one before it.
pub open spec fn is_run(args: Seq<Seq<char>>, steps: Seq<StepView>) -> bool {
    &&& steps.len() > 0
    &&& steps[0] == begun(args)
    &&& forall|i: int|
        0 <= i < steps.len() - 1 ==> follows((#[trigger] steps[i]).next, steps[i + 1])
}

/// Whether a state writes or removes a file.
pub open spec fn changes_files(state: NextView) -> bool {
    state is Write || state is Remove
}

/// Whether a state looks at or changes the directory of a target.
pub open spec fn touches_output(state: NextView) -> bool {
    state is Read || state is Write || state is List || state is Remove
}

/// The work on the targets that a state is part of.
pub open spec fn work_of(state: NextView) -> Option<WorkView> {
    match state {
        NextView::Resolve(work) => Some(work),
        NextView::Ask(asking) => Some(asking.work),
        _ => None,
    }
}

/// Whether a state belongs to a run that only checks, and does no more.
pub open spec fn checks_only(state: NextView) -> bool {
    match state {
        NextView::Exit { complaint, code } => true,
        NextView::Listen(options) => options.check,
        NextView::Configure { options, request } => options.check,
        NextView::Resolve(work) => work.options.check,
        NextView::Ask(asking) => asking.work.options.check,
        NextView::Read(upkeep) => upkeep.check,
        NextView::List(upkeep) => upkeep.check,
        _ => false,
    }
}

/// Whether a state belongs to a run that does not generate, and touches no
/// directory.
pub open spec fn leaves_output(state: NextView) -> bool {
    match state {
        NextView::Exit { complaint, code } => true,
        NextView::Configure { options, request } => options.command != "generate"@,
        NextView::Resolve(work) => work.options.command == "describe"@ || work.options.command
            == "doctor"@,
        NextView::Ask(asking) => asking.work.options.command == "describe"@,
        _ => false,
    }
}

/// Whether a step ends a run by telling these errors and perhaps more. Before
/// them it may tell of one more builder that is ready, if it is to tell of any.
pub open spec fn tells(step: StepView, command: Seq<char>, errors: Seq<Seq<char>>) -> bool {
    exists|before: Seq<char>, all: Seq<Seq<char>>|
        {
            &&& step == #[trigger] preceded(before, pooled(command, all))
            &&& errors.is_prefix_of(all)
            &&& command != "doctor"@ ==> before.len() == 0
        }
}

/// Whether a step belongs to a run with these errors that has not come to its
/// end, or has, and tells them.
pub open spec fn bears(step: StepView, command: Seq<char>, errors: Seq<Seq<char>>) -> bool {
    match work_of(step.next) {
        Some(work) => errors.is_prefix_of(work.errors) && work.options.command == command,
        None => tells(step, command, errors),
    }
}

/// Work with errors goes on with them, or ends by telling them.
proof fn work_keeps_errors(work: WorkView, before: Seq<char>, errors: Seq<Seq<char>>)
    requires
        errors.len() > 0,
        errors.is_prefix_of(work.errors),
        work.options.command != "doctor"@ ==> before.len() == 0,
    ensures
        bears(preceded(before, carried_on(work)), work.options.command, errors),
{
    if work.next >= work.targets.len() {
        assert(preceded(before, carried_on(work)) == preceded(
            before,
            pooled(work.options.command, work.errors),
        ));
    }
}

/// A step of a run with errors keeps them, or ends the run by telling them.
proof fn a_step_keeps_errors(
    last: StepView,
    step: StepView,
    command: Seq<char>,
    errors: Seq<Seq<char>>,
)
    requires
        errors.len() > 0,
        work_of(last.next) is Some,
        bears(last, command, errors),
        follows(last.next, step),
    ensures
        bears(step, command, errors),
{
    let work = work_of(last.next)->0;
    match last.next {
        NextView::Resolve(_) => {
            let probes = choose|probes: Seq<Probe>| step == #[trigger] resolved(work, probes);
            match builder_resolved(
                work.options.root,
                work.config.builders,
                work.target(),
                probes,
            ) {
                Err(fault) => {
                    let now = faulted(work, fault);
                    work_keeps_errors(now, Seq::empty(), errors);
                    assert(Seq::<char>::empty() + carried_on(now).print =~= carried_on(now).print);
                },
                Ok(program) => {
                    let line = ready_line(work.target(), probes[program]->shown@);
                    if work.options.command == "doctor"@ {
                        work_keeps_errors(done(work), line, errors);
                    }
                },
            }
        },
        NextView::Ask(_) => {
            let reply = choose|reply: Result<JsonView, Seq<char>>|
                step == #[trigger] answered(work, reply);
            let now = taken_in(work, reply);
            assert(errors.is_prefix_of(now.errors));
            work_keeps_errors(now, Seq::empty(), errors);
            assert(Seq::<char>::empty() + carried_on(now).print =~= carried_on(now).print);
        },
        _ => {},
    }
}

/// Errors are pooled before anything is touched: once there is an error about
/// a target, the work goes on with it taken down, and ends with code 1 and by
/// telling all the errors, that one in its place; no directory of any target is
/// looked at or changed.
pub proof fn an_error_leaves_every_output_alone(
    args: Seq<Seq<char>>,
    steps: Seq<StepView>,
    i: int,
    j: int,
)
    requires
        is_run(args, steps),
        0 <= i <= j < steps.len(),
        work_of(steps[i].next) is Some,
        work_of(steps[i].next)->0.errors.len() > 0,
    ensures
        !touches_output(steps[j].next),
        steps[j].next is Exit ==> steps[j].next->code == 1,
        work_of(steps[j].next) is Some ==> work_of(steps[i].next)->0.errors.is_prefix_of(
            work_of(steps[j].next)->0.errors,
        ),
        steps[j].next is Exit ==> tells(
            steps[j],
            work_of(steps[i].next)->0.options.command,
            work_of(steps[i].next)->0.errors,
        ),
        bears(
            steps[j],
            work_of(steps[i].next)->0.options.command,
            work_of(steps[i].next)->0.errors,
        ),
    decreases j,
{
    if i < j {
        an_error_leaves_every_output_alone(args, steps, i, j - 1);
        assert(follows(steps[j - 1].next, steps[j - 1 + 1]));
        a_step_keeps_errors(
            steps[j - 1],
            steps[j],
            work_of(steps[i].next)->0.options.command,
            work_of(steps[i].next)->0.errors,
        );
    }
}

proof fn a_step_of_a_check_is_one(state: NextView, step: StepView)
    requires
        checks_only(state),
        follows(state, step),
    ensures
        checks_only(step.next),
{
    match state {
        NextView::Resolve(work) => {
            let probes = choose|probes: Seq<Probe>| step == #[trigger] resolved(work, probes);
            assert(step == resolved(work, probes));
        },
        NextView::Ask(asking) => {
            let reply = choose|reply: Result<JsonView, Seq<char>>|
                step == #[trigger] answered(asking.work, reply);
            assert(taken_in(asking.work, reply).options == asking.work.options);
        },
        NextView::Read(upkeep) => {
            let reading = choose|reading: ReadingView| step == #[trigger] found(upkeep, reading);
            assert(step == found(upkeep, reading));
        },
        NextView::List(upkeep) => {
            let paths = choose|paths: Seq<Seq<char>>| step == #[trigger] listed(upkeep, paths);
            assert(step == listed(upkeep, paths));
        },
        _ => {},
    }
}

/// A run that checks writes and removes nothing.
pub proof fn a_check_leaves_every_file_alone(args: Seq<Seq<char>>, steps: Seq<StepView>, j: int)
    requires
        is_run(args, steps),
        options_read(args) is Ok,
        options_read(args)->Ok_0.check,
        0 <= j < steps.len(),
    ensures
        !changes_files(steps[j].next),
        checks_only(steps[j].next),
    decreases j,
{
    if j > 0 {
        a_check_leaves_every_file_alone(args, steps, j - 1);
        assert(follows(steps[j - 1].next, steps[j - 1 + 1]));
        a_step_of_a_check_is_one(steps[j - 1].next, steps[j]);
    }
}

proof fn a_step_of_no_generation_is_one(state: NextView, step: StepView)
    requires
        leaves_output(state),
        follows(state, step),
    ensures
        leaves_output(step.next),
{
    match state {
        NextView::Resolve(work) => {
            let probes = choose|probes: Seq<Probe>| step == #[trigger] resolved(work, probes);
            assert(step == resolved(work, probes));
        },
        NextView::Ask(asking) => {
            let reply = choose|reply: Result<JsonView, Seq<char>>|
                step == #[trigger] answered(asking.work, reply);
            assert(taken_in(asking.work, reply).options == asking.work.options);
        },
        _ => {},
    }
}

/// Only `generate` waits for the compiler and touches the directories of the
/// targets.
pub proof fn only_generate_touches_outputs(args: Seq<Seq<char>>, steps: Seq<StepView>, j: int)
    requires
        is_run(args, steps),
        options_read(args) is Ok,
        options_read(args)->Ok_0.command != "generate"@,
        0 <= j < steps.len(),
    ensures
        !touches_output(steps[j].next),
        !(steps[j].next is Listen),
        leaves_output(steps[j].next),
    decreases j,
{
    if j > 0 {
        only_generate_touches_outputs(args, steps, j - 1);
        assert(follows(steps[j - 1].next, steps[j - 1 + 1]));
        a_step_of_no_generation_is_one(steps[j - 1].next, steps[j]);
    }
}

/// Whether the work that a state is part of has an error or a result for each
/// target that is done.
pub open spec fn accounts(state: NextView) -> bool {
    match work_of(state) {
        Some(work) => {
            &&& work.options.command == "generate"@ ==> work.plans.len() + work.errors.len()
                == work.next
            &&& work.options.command == "describe"@ ==> work.descriptions.len()
                + work.errors.len() == work.next
            &&& work.next < work.targets.len()
        },
        None => true,
    }
}

/// The commands are different words.
pub proof fn commands_differ()
    ensures
        "describe"@ != "generate"@,
        "doctor"@ != "generate"@,
        "doctor"@ != "describe"@,
        "targets"@ != "generate"@,
        "help"@ != "generate"@,
        "--help"@ != "generate"@,
        "list"@ != "generate"@,
        "targets"@ != "describe"@,
        "help"@ != "describe"@,
        "--help"@ != "describe"@,
        "list"@ != "describe"@,
        "targets"@ != "doctor"@,
        "help"@ != "doctor"@,
        "--help"@ != "doctor"@,
        "list"@ != "doctor"@,
{
    reveal_strlit("describe");
    reveal_strlit("generate");
    reveal_strlit("doctor");
    reveal_strlit("targets");
    reveal_strlit("help");
    reveal_strlit("--help");
    reveal_strlit("list");
    assert("describe"@[0] == 'd');
    assert("generate"@[0] == 'g');
    assert("doctor"@[0] == 'd');
    assert("targets"@[0] == 't');
    assert("help"@[0] == 'h');
    assert("--help"@[0] == '-');
    assert("list"@[0] == 'l');
    assert("describe"@[1] == 'e');
    assert("doctor"@[1] == 'o');
}

proof fn a_step_accounts(state: NextView, step: StepView)
    requires
        accounts(state),
        follows(state, step),
    ensures
        accounts(step.next),
{
    commands_differ();
    match state {
        NextView::Resolve(work) => {
            let probes = choose|probes: Seq<Probe>| step == #[trigger] resolved(work, probes);
            assert(step == resolved(work, probes));
        },
        NextView::Ask(asking) => {
            let reply = choose|reply: Result<JsonView, Seq<char>>|
                step == #[trigger] answered(asking.work, reply);
            assert(step == carried_on(taken_in(asking.work, reply)));
        },
        NextView::Read(upkeep) => {
            let reading = choose|reading: ReadingView| step == #[trigger] found(upkeep, reading);
            assert(step == found(upkeep, reading));
        },
        NextView::List(upkeep) => {
            let paths = choose|paths: Seq<Seq<char>>| step == #[trigger] listed(upkeep, paths);
            assert(step == listed(upkeep, paths));
        },
        _ => {},
    }
}

/// No target is passed over: each one that is done has left its plan, or its
/// description, or an error.
pub proof fn every_target_is_accounted_for(args: Seq<Seq<char>>, steps: Seq<StepView>, j: int)
    requires
        is_run(args, steps),
        0 <= j < steps.len(),
    ensures
        accounts(steps[j].next),
    decreases j,
{
    if j > 0 {
        every_target_is_accounted_for(args, steps, j - 1);
        assert(follows(steps[j - 1].next, steps[j - 1 + 1]));
        a_step_accounts(steps[j - 1].next, steps[j]);
    }
}

/// Whether no file of the plans has a path that escapes.
pub open spec fn plans_inside(plans: Seq<PlanView>) -> bool {
    forall|i: int| 0 <= i < plans.len() ==> stay_inside((#[trigger] plans[i]).files)
}

/// Whether no file that the work holds has a path that escapes.
pub open spec fn work_inside(work: WorkView) -> bool {
    contributions_inside(work.request.contributions) && plans_inside(work.plans)
}

/// Whether no file that a state holds has a path that escapes.
pub open spec fn stays_inside(state: NextView) -> bool {
    match state {
        NextView::Configure { options, request } => contributions_inside(request.contributions),
        NextView::Resolve(work) => work_inside(work),
        NextView::Ask(asking) => work_inside(asking.work),
        NextView::Read(upkeep) => plans_inside(upkeep.plans) && upkeep.plan < upkeep.plans.len()
            && upkeep.file < upkeep.current().files.len(),
        NextView::Write { upkeep, path, contents } => plans_inside(upkeep.plans) && !escapes(path),
        NextView::List(upkeep) => plans_inside(upkeep.plans),
        NextView::Remove { upkeep, next } => plans_inside(upkeep.plans),
        _ => true,
    }
}

proof fn work_stays_inside(work: WorkView)
    requires
        work_inside(work),
    ensures
        stays_inside(carried_on(work).next),
{
}

proof fn an_answer_stays_inside(work: WorkView, reply: Result<JsonView, Seq<char>>)
    requires
        work_inside(work),
    ensures
        work_inside(taken_in(work, reply)),
{
    if reply is Ok {
        let made = plan_made(
            work.options.root,
            work.config,
            work.request.contributions,
            work.target(),
            reply->Ok_0,
        );
        if made is Ok {
            a_plan_stays_inside(
                work.options.root,
                work.config,
                work.request.contributions,
                work.target(),
                reply->Ok_0,
            );
            assert(plans_inside(work.plans.push(made->Ok_0)));
        }
    }
}

#[verifier::rlimit(40)]
proof fn a_step_stays_inside(state: NextView, step: StepView)
    requires
        stays_inside(state),
        follows(state, step),
    ensures
        stays_inside(step.next),
{
    match state {
        NextView::Listen(options) => {
            let input = choose|input: Seq<char>| step == heard(options, #[trigger] intake(input));
            if intake(input) is Accepted {
                an_accepted_request_stays_inside(json_decoded(input));
            }
        },
        NextView::Resolve(work) => {
            let probes = choose|probes: Seq<Probe>| step == #[trigger] resolved(work, probes);
            match builder_resolved(
                work.options.root,
                work.config.builders,
                work.target(),
                probes,
            ) {
                Err(fault) => {
                    work_stays_inside(faulted(work, fault));
                },
                Ok(program) => {
                    work_stays_inside(done(work));
                },
            }
        },
        NextView::Ask(asking) => {
            let reply = choose|reply: Result<JsonView, Seq<char>>|
                step == #[trigger] answered(asking.work, reply);
            an_answer_stays_inside(asking.work, reply);
            work_stays_inside(taken_in(asking.work, reply));
        },
        NextView::Read(upkeep) => {
            let reading = choose|reading: ReadingView| step == #[trigger] found(upkeep, reading);
            assert(stay_inside(upkeep.current().files));
            assert(!escapes(upkeep.current().files[upkeep.file as int].path));
            assert(step == found(upkeep, reading));
        },
        NextView::List(upkeep) => {
            let paths = choose|paths: Seq<Seq<char>>| step == #[trigger] listed(upkeep, paths);
            assert(step == listed(upkeep, paths));
        },
        _ => {},
    }
}

/// No file is ever written to a path that escapes the directory of its target.
pub proof fn nothing_is_written_outside(args: Seq<Seq<char>>, steps: Seq<StepView>, j: int)
    requires
        is_run(args, steps),
        0 <= j < steps.len(),
    ensures
        stays_inside(steps[j].next),
        steps[j].next is Write ==> !escapes(steps[j].next->path),
    decreases j,
{
    if j > 0 {
        nothing_is_written_outside(args, steps, j - 1);
        assert(follows(steps[j - 1].next, steps[j - 1 + 1]));
        a_step_stays_inside(steps[j - 1].next, steps[j]);
    }
}

} // verus!
