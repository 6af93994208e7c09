//! Laws of the steps of a run: what each prints, and where it leads.
use vstd::prelude::*;
#[allow(unused_imports)]
use crate::codec::json_text;
#[allow(unused_imports)]
use crate::config::{builder_resolved, ConfigView, Probe};
#[allow(unused_imports)]
use crate::json::{JsonView, Numeral};
#[allow(unused_imports)]
use crate::options::{options_read, targets_chosen, OptionsView};
#[allow(unused_imports)]
use crate::plan::{blank, observed, stale_among, PlanView, ReportView};
#[allow(unused_imports)]
use crate::request::{describe_message, generate_message, IntakeView, RequestView};
#[allow(unused_imports)]
use crate::response::{plan_made, provided};
#[allow(unused_imports)]
use crate::session::{
    answered, begun, carried_on, concluded, configured, difference, done, farewell, faulted,
    finished, found, heard, kept_up, listed, plan_done, preamble, ready_line, regenerated, removed,
    resolved, section, summary, taken_in, targets_listed, unusable, work_begun, AskingView,
    NextView, ReadingView, StepView, UpkeepView, WorkView,
};
#[allow(unused_imports)]
use crate::signature::signed;
#[allow(unused_imports)]
use crate::text::{decimal, joined, sorted, trimmed_end};

verus! {

/// A step that prints a line and exits.
pub open spec fn exits_with(step: StepView, line: Seq<char>, code: int) -> bool {
    step.print == line + "\n"@ && step.next == (NextView::Exit { complaint: Seq::empty(), code })
}

/// A step that prints nothing and exits with a complaint.
pub open spec fn fails_with(step: StepView, complaint: Seq<char>) -> bool {
    step.print.len() == 0 && step.next == (NextView::Exit {
        complaint: complaint + "\n"@,
        code: 1,
    })
}

/// A step that prints nothing and goes on.
pub open spec fn goes_on_to(step: StepView, next: NextView) -> bool {
    step.print.len() == 0 && step.next == next
}

/// A run begins with what its command asks for: help, the compiler's input, or
/// the configuration; and with nothing else where the arguments are not read.
pub proof fn how_a_run_begins(args: Seq<Seq<char>>)
    ensures
        match options_read(args) {
            Err(fault) => fails_with(begun(args), fault),
            Ok(options) => {
                let help = options.command == "help"@ || options.command == "--help"@
                    || options.command == "list"@;
                &&& help ==> exits_with(
                    begun(args),
                    "eleph-codegen\n\nCommands: generate, describe, targets, doctor\nOptions: --project PATH, --targets NAMES, --check"@,
                    0,
                )
                &&& !help && options.command == "generate"@ ==> goes_on_to(
                    begun(args),
                    NextView::Listen(options),
                )
                &&& !help && options.command != "generate"@ ==> goes_on_to(
                    begun(args),
                    NextView::Configure {
                        options,
                        request: RequestView {
                            schema: JsonView::Null,
                            contributions: Seq::empty(),
                        },
                    },
                )
            },
        },
{
}

/// A refused input is told and ends the run with code 2, a failed one with code
/// 1; an accepted one is taken along to the configuration.
pub proof fn how_an_input_is_heard(options: OptionsView, words: Seq<char>, request: RequestView)
    ensures
        exits_with(heard(options, IntakeView::Refused(words)), words, 2),
        fails_with(heard(options, IntakeView::Failed(words)), words),
        goes_on_to(
            heard(options, IntakeView::Accepted(request)),
            NextView::Configure { options, request },
        ),
{
}

/// The targets are listed each under its name with its output and its builder,
/// in the order of the project.
pub proof fn how_targets_are_listed(config: ConfigView)
    ensures
        targets_listed(config).at("spec"@) == JsonView::Text(config.spec),
        targets_listed(config).at("targets"@) is Object,
        targets_listed(config)->Object_0.len() == 2,
        targets_listed(config)->Object_0[0].0 == "spec"@,
        targets_listed(config)->Object_0[1].0 == "targets"@,
        targets_listed(config).at("targets"@)->Object_0.len() == config.targets.len(),
        forall|i: int|
            0 <= i < config.targets.len() ==> #[trigger] targets_listed(config).at(
                "targets"@,
            )->Object_0[i] == (
                config.targets[i].name,
                JsonView::Object(
                    seq![
                        ("output"@, JsonView::Text(config.targets[i].output)),
                        ("builder"@, JsonView::Text(config.targets[i].builder)),
                    ],
                ),
            ),
{
    reveal_strlit("spec");
    reveal_strlit("targets");
    assert("spec"@.len() == 4 && "targets"@.len() == 7);
    let members = targets_listed(config)->Object_0;
    assert(members[0].0 != members[1].0);
    crate::json::lookup_finds_each_member(members, 0);
    crate::json::lookup_finds_each_member(members, 1);
}

/// When the configuration is loaded, the targets are listed, or the chosen ones
/// are worked on from the first on, with nothing done yet.
pub proof fn how_a_configuration_is_taken(
    options: OptionsView,
    request: RequestView,
    config: ConfigView,
    fault: Seq<char>,
)
    ensures
        fails_with(configured(options, request, Err(fault)), fault),
        ({
            let step = configured(options, request, Ok(config));
            let chosen = targets_chosen(config.targets, options.selected);
            let works = options.command == "generate"@ || options.command == "describe"@
                || options.command == "doctor"@;
            &&& options.command == "targets"@ ==> exits_with(
                step,
                json_text(targets_listed(config).settled()),
                0,
            )
            &&& options.command != "targets"@ && chosen is Err ==> exits_with(
                step,
                chosen->Err_0,
                2,
            )
            &&& options.command != "targets"@ && chosen is Ok && !works ==> fails_with(
                step,
                "Unknown command "@ + options.command + "."@,
            )
            &&& options.command != "targets"@ && chosen is Ok && works && chosen->Ok_0.len() > 0
                ==> step.next == NextView::Resolve(
                WorkView {
                    options,
                    request,
                    config,
                    targets: chosen->Ok_0,
                    next: 0,
                    errors: Seq::empty(),
                    plans: Seq::empty(),
                    descriptions: Seq::empty(),
                },
            ) && step.print == (if options.command == "doctor"@ {
                "eleph-codegen speaks protocol "@ + "1"@ + ", IR "@ + "1.1"@ + ".\n"@
            } else {
                Seq::empty()
            })
            &&& options.command != "targets"@ && chosen is Ok && works && chosen->Ok_0.len() == 0
                ==> is_carried_on(
                step,
                if options.command == "doctor"@ {
                    "eleph-codegen speaks protocol "@ + "1"@ + ", IR "@ + "1.1"@ + ".\n"@
                } else {
                    Seq::empty()
                },
                WorkView {
                    options,
                    request,
                    config,
                    targets: Seq::empty(),
                    next: 0,
                    errors: Seq::empty(),
                    plans: Seq::empty(),
                    descriptions: Seq::empty(),
                },
            )
        }),
{
    reveal_strlit("1");
    reveal_strlit("0123456789");
    crate::laws::texts::digits_are_written_in_order(0, 1);
    assert(decimal(1) =~= "1"@);
    let step = configured(options, request, Ok(config));
    let chosen = targets_chosen(config.targets, options.selected);
    if chosen is Ok {
        let work = work_begun(options, request, config, chosen->Ok_0);
        if chosen->Ok_0.len() == 0 {
            assert(chosen->Ok_0 =~= Seq::empty());
        } else {
            assert(carried_on(work).print.len() == 0);
            assert(preamble(options.command) + carried_on(work).print =~= preamble(
                options.command,
            ));
        }
    }
}

/// Whether work has gone on to its next target, or has come to its end.
pub open spec fn is_carried_on(step: StepView, before: Seq<char>, work: WorkView) -> bool {
    if work.next < work.targets.len() {
        step.print == before && step.next == NextView::Resolve(work)
    } else {
        step.print == before + concluded(work).print && step.next == concluded(work).next
    }
}

/// When the builder of a target was looked for, `doctor` tells where it is and
/// goes on to the next target. Any other command asks that builder, with the
/// message for that target. Where there is none, that is taken down and the next
/// target is gone on to.
pub proof fn how_a_builder_is_resolved(work: WorkView, probes: Seq<Probe>)
    requires
        work.next < work.targets.len(),
    ensures
        ({
            let target = work.targets[work.next as int];
            let answer = builder_resolved(work.options.root, work.config.builders, target, probes);
            let step = resolved(work, probes);
            &&& answer is Err ==> is_carried_on(
                step,
                Seq::empty(),
                WorkView {
                    next: work.next + 1,
                    errors: work.errors.push(answer->Err_0),
                    ..work
                },
            )
            &&& answer is Ok && work.options.command == "doctor"@ ==> is_carried_on(
                step,
                "  "@ + target.name + " → "@ + probes[answer->Ok_0]->shown@ + " (writes "@
                    + target.output + ")\n"@,
                WorkView { next: work.next + 1, ..work },
            )
            &&& answer is Ok && work.options.command != "doctor"@ ==> goes_on_to(
                step,
                NextView::Ask(
                    AskingView {
                        work,
                        program: answer->Ok_0,
                        shown: probes[answer->Ok_0]->shown@,
                        payload: json_text(
                            (if work.options.command == "describe"@ {
                                describe_message(target.name)
                            } else {
                                generate_message(
                                    target.name,
                                    target.settings,
                                    trimmed_end(work.options.root, '/') + "/"@ + target.output,
                                    work.request.schema,
                                )
                            }).settled(),
                        ),
                    },
                ),
            )
        }),
{
    let target = work.targets[work.next as int];
    let answer = builder_resolved(work.options.root, work.config.builders, target, probes);
    if answer is Err {
        let now = faulted(work, answer->Err_0);
        assert(Seq::<char>::empty() + concluded(now).print =~= concluded(now).print);
    } else {
        let line = ready_line(target, probes[answer->Ok_0]->shown@);
        assert(line + Seq::<char>::empty() =~= line);
    }
}

/// When a builder has answered, what it answers is taken down for the target that
/// it was asked for, and the next target is gone on to: an error where the answer
/// cannot be used, a description, or a plan.
pub proof fn how_an_answer_is_taken(work: WorkView, reply: Result<JsonView, Seq<char>>)
    requires
        work.next < work.targets.len(),
    ensures
        ({
            let target = work.targets[work.next as int];
            let command = work.options.command;
            let name = target.name;
            let one = WorkView { next: work.next + 1, ..work };
            let description = provided(name, reply->Ok_0);
            let plan = plan_made(
                work.options.root,
                work.config,
                work.request.contributions,
                target,
                reply->Ok_0,
            );
            let step = answered(work, reply);
            let none = Seq::<char>::empty();
            &&& reply is Err && command == "describe"@ ==> is_carried_on(
                step,
                none,
                WorkView {
                    errors: work.errors.push(
                        "["@ + name + "] The "@ + name + " builder could not describe itself: "@
                            + reply->Err_0
                            + "\n  A builder must answer a \"describe\" request; one written before describe existed reads it as a generate and fails on the missing schema."@,
                    ),
                    ..one
                },
            )
            &&& reply is Err && command != "describe"@ ==> is_carried_on(
                step,
                none,
                WorkView {
                    errors: work.errors.push(
                        "["@ + name + "] The "@ + name + " builder sent something unusable: "@
                            + reply->Err_0,
                    ),
                    ..one
                },
            )
            &&& reply is Ok && command == "describe"@ && description is Err ==> is_carried_on(
                step,
                none,
                WorkView { errors: work.errors.push(description->Err_0), ..one },
            )
            &&& reply is Ok && command == "describe"@ && description is Ok ==> is_carried_on(
                step,
                none,
                WorkView {
                    descriptions: work.descriptions.push((name, description->Ok_0)),
                    ..one
                },
            )
            &&& reply is Ok && command != "describe"@ && plan is Err ==> is_carried_on(
                step,
                none,
                WorkView {
                    errors: work.errors.push("["@ + name + "] "@ + plan->Err_0),
                    ..one
                },
            )
            &&& reply is Ok && command != "describe"@ && plan is Ok ==> is_carried_on(
                step,
                none,
                WorkView { plans: work.plans.push(plan->Ok_0), ..one },
            )
        }),
{
    let now = taken_in(work, reply);
    assert(Seq::<char>::empty() + concluded(now).print =~= concluded(now).print);
}

/// When no target is left, all errors are told, if there are any, and nothing is
/// touched. Otherwise the descriptions or the number of targets are told, or the
/// upkeep of the plans begins, with the first file of the first.
pub proof fn how_the_work_ends(work: WorkView)
    ensures
        ({
            let step = concluded(work);
            let command = work.options.command;
            let errors = work.errors;
            let plans = work.plans;
            &&& errors.len() > 0 && command == "describe"@ ==> fails_with(
                step,
                joined(errors, "\n"@),
            )
            &&& errors.len() > 0 && command != "describe"@ ==> exits_with(
                step,
                decimal(errors.len())
                    + " problem(s) with the targets; nothing was generated.\n  "@ + joined(
                    errors,
                    "\n  "@,
                ),
                1,
            )
            &&& errors.len() == 0 && command == "describe"@ ==> exits_with(
                step,
                json_text(
                    JsonView::Object(
                        seq![
                            ("elephentity"@, JsonView::Number(Numeral::Unsigned(1))),
                            ("irVersion"@, JsonView::Text("1.1"@)),
                            ("targets"@, JsonView::Object(work.descriptions)),
                        ],
                    ).settled(),
                ),
                0,
            )
            &&& errors.len() == 0 && command == "doctor"@ ==> exits_with(
                step,
                decimal(work.config.targets.len()) + " target(s) ready."@,
                0,
            )
            &&& errors.len() == 0 && command != "describe"@ && command != "doctor"@ && plans.len()
                == 0 ==> exits_with(
                step,
                (if work.options.check {
                    "Every target is up to date ("@ + "0"@ + " target(s), "@ + "0"@ + " files)."@
                } else {
                    "0"@ + " target(s) generated."@
                }),
                0,
            )
            &&& errors.len() == 0 && command != "describe"@ && command != "doctor"@ && plans.len()
                > 0 ==> goes_on_to(
                step,
                (if plans[0].files.len() > 0 {
                    NextView::Read(
                        UpkeepView {
                            check: work.options.check,
                            plans,
                            plan: 0,
                            file: 0,
                            report: blank(),
                            dirty: 0,
                            unchanged: 0,
                        },
                    )
                } else {
                    NextView::List(
                        UpkeepView {
                            check: work.options.check,
                            plans,
                            plan: 0,
                            file: 0,
                            report: blank(),
                            dirty: 0,
                            unchanged: 0,
                        },
                    )
                }),
            )
        }),
{
    reveal_strlit("describe");
    reveal_strlit("doctor");
    assert("describe"@.len() == 8 && "doctor"@.len() == 6);
    reveal_strlit("0");
    reveal_strlit("0123456789");
    crate::laws::texts::digits_are_written_in_order(0, 0);
    assert(decimal(0) =~= "0"@);
}

/// Whether the upkeep of a plan has gone on behind one of its files.
pub open spec fn is_kept_up(step: StepView, upkeep: UpkeepView) -> bool {
    goes_on_to(
        step,
        (if upkeep.file < upkeep.plans[upkeep.plan as int].files.len() {
            NextView::Read(upkeep)
        } else {
            NextView::List(upkeep)
        }),
    )
}

/// When the place of a file was read, what was found is taken down and the next
/// file is gone on to. The file is written before that, signed, with its own path
/// and body, unless it stands there so or the run only checks.
pub proof fn how_a_file_is_kept_up(upkeep: UpkeepView, contents: Option<Seq<char>>)
    requires
        upkeep.plan < upkeep.plans.len(),
        upkeep.file < upkeep.plans[upkeep.plan as int].files.len(),
    ensures
        ({
            let plan = upkeep.plans[upkeep.plan as int];
            let file = plan.files[upkeep.file as int];
            let text = signed(file.path, file.body, plan.style);
            let now = UpkeepView {
                file: upkeep.file + 1,
                report: observed(upkeep.report, file, plan.style, contents),
                ..upkeep
            };
            let step = found(
                upkeep,
                match contents {
                    Some(text) => ReadingView::Contents(text),
                    None => ReadingView::Missing,
                },
            );
            &&& upkeep.check || contents == Some(text) ==> is_kept_up(step, now)
            &&& !upkeep.check && contents != Some(text) ==> goes_on_to(
                step,
                NextView::Write { upkeep: now, path: file.path, contents: text },
            )
        }),
{
}

/// A file that cannot be read ends the run.
pub proof fn how_a_reading_fails(upkeep: UpkeepView, shown: Seq<char>, words: Seq<char>)
    ensures
        fails_with(
            found(upkeep, ReadingView::Failed { shown, words }),
            "Cannot read "@ + shown + ": "@ + words,
        ),
{
}

/// Whether a plan is told of, and the next is gone on to, or the run ends.
pub open spec fn is_finished(step: StepView, upkeep: UpkeepView) -> bool {
    let plan = upkeep.plans[upkeep.plan as int];
    let report = upkeep.report;
    let changes = report.created.len() + report.updated.len() + report.deleted.len();
    let now = UpkeepView {
        plan: upkeep.plan + 1,
        file: 0,
        report: blank(),
        dirty: upkeep.dirty + if upkeep.check && changes > 0 {
            1nat
        } else {
            0nat
        },
        unchanged: upkeep.unchanged + report.unchanged.len(),
        ..upkeep
    };
    let told = if upkeep.check {
        difference(plan.name, report)
    } else {
        summary(plan, report)
    };
    if now.plan < now.plans.len() {
        step.print == told && step.next == (if now.plans[now.plan as int].files.len() > 0 {
            NextView::Read(now)
        } else {
            NextView::List(now)
        })
    } else {
        step.print == told + farewell(now).print && step.next == farewell(now).next
    }
}

proof fn a_finished_plan(upkeep: UpkeepView)
    ensures
        is_finished(finished(upkeep), upkeep),
{
    let now = plan_done(upkeep);
    let told = if upkeep.check {
        difference(upkeep.current().name, upkeep.report)
    } else {
        summary(upkeep.current(), upkeep.report)
    };
    if now.plan < now.plans.len() {
        assert(kept_up(now).print.len() == 0);
        assert(told + kept_up(now).print =~= told);
    }
}

/// When the directory of a plan was listed, what is stale is taken down, in
/// order. A run that generates removes it, from the first path on; otherwise, and
/// where there is nothing, the plan is done.
pub proof fn how_a_listing_is_taken(upkeep: UpkeepView, paths: Seq<Seq<char>>)
    requires
        upkeep.plan < upkeep.plans.len(),
    ensures
        ({
            let deleted = sorted(stale_among(upkeep.plans[upkeep.plan as int], paths));
            let now = UpkeepView {
                report: ReportView { deleted, ..upkeep.report },
                ..upkeep
            };
            let step = listed(upkeep, paths);
            &&& !upkeep.check && deleted.len() > 0 ==> goes_on_to(
                step,
                NextView::Remove { upkeep: now, next: 0 },
            )
            &&& upkeep.check || deleted.len() == 0 ==> is_finished(step, now)
        }),
{
    let deleted = sorted(stale_among(upkeep.plans[upkeep.plan as int], paths));
    a_finished_plan(UpkeepView { report: ReportView { deleted, ..upkeep.report }, ..upkeep });
}

/// When a path was removed, the next is, up to the last; then the plan is done.
pub proof fn how_removal_goes_on(upkeep: UpkeepView, next: nat)
    requires
        next < upkeep.report.deleted.len(),
    ensures
        next + 1 < upkeep.report.deleted.len() ==> goes_on_to(
            removed(upkeep, next),
            NextView::Remove { upkeep, next: next + 1 },
        ),
        next + 1 == upkeep.report.deleted.len() ==> is_finished(removed(upkeep, next), upkeep),
{
    a_finished_plan(upkeep);
}

/// A section tells each of its paths on a line of its own, below its heading.
pub proof fn a_section_tells_each_path(
    heading: Seq<char>,
    paths: Seq<Seq<char>>,
    path: Seq<char>,
)
    ensures
        section(heading, Seq::empty()) == Seq::<char>::empty(),
        section(heading, seq![path]) == heading + ":\n  "@ + path + "\n"@,
        paths.len() > 0 ==> section(heading, paths.push(path)) == section(
            heading,
            paths,
        ).drop_last() + "\n  "@ + path + "\n"@,
{
    reveal_strlit("\n");
    crate::laws::texts::joining_goes_piece_by_piece(paths, path, "\n  "@);
    if paths.len() > 0 {
        assert(section(heading, paths).drop_last() =~= heading + ":\n  "@ + joined(
            paths,
            "\n  "@,
        ));
        assert(section(heading, paths.push(path)) =~= section(heading, paths).drop_last()
            + "\n  "@ + path + "\n"@);
    }
}

/// A check tells of a plan that differs by how much it does, and which of its
/// files were edited by hand, are missing, have changed and are stale.
pub proof fn what_a_check_tells(name: Seq<char>, report: ReportView)
    ensures
        ({
            let changes = report.created.len() + report.updated.len() + report.deleted.len();
            &&& changes > 0 ==> difference(name, report) == name + " — "@ + decimal(changes)
                + " file(s) differ\n"@ + section("Hand-edited"@, report.tampered) + section(
                "Would be created"@,
                report.created,
            ) + section("Would be updated"@, report.updated) + section(
                "No longer produced by the schema"@,
                report.deleted,
            )
            &&& changes == 0 ==> difference(name, report) == Seq::<char>::empty()
        }),
{
}

/// A run that generates tells of each file that had been edited, and how many
/// files it has created, updated, left and removed.
pub proof fn what_generating_tells(
    plan: PlanView,
    report: ReportView,
    paths: Seq<Seq<char>>,
    path: Seq<char>,
)
    ensures
        summary(plan, report) == regenerated(plan.name, report.tampered) + plan.name + ": "@
            + decimal(plan.files.len()) + " file(s): "@ + decimal(report.created.len())
            + " created, "@ + decimal(report.updated.len()) + " updated, "@ + decimal(
            report.unchanged.len(),
        ) + " unchanged, "@ + decimal(report.deleted.len()) + " removed.\n"@,
        regenerated(plan.name, Seq::empty()) == Seq::<char>::empty(),
        regenerated(plan.name, paths.push(path)) == regenerated(plan.name, paths) + "["@
            + plan.name + "] "@ + path + " had been edited by hand; it has been regenerated.\n"@,
{
    assert(paths.push(path).drop_last() =~= paths);
}

/// The last step tells how many targets were generated, or how many are out of
/// date, and exits accordingly.
pub proof fn how_a_run_bids_farewell(upkeep: UpkeepView)
    ensures
        ({
            let all = decimal(upkeep.plans.len());
            let step = farewell(upkeep);
            &&& !upkeep.check ==> exits_with(step, all + " target(s) generated."@, 0)
            &&& upkeep.check && upkeep.dirty == 0 ==> exits_with(
                step,
                "Every target is up to date ("@ + all + " target(s), "@ + decimal(
                    upkeep.unchanged,
                ) + " files)."@,
                0,
            )
            &&& upkeep.check && upkeep.dirty > 0 ==> exits_with(
                step,
                decimal(upkeep.dirty) + " of "@ + all
                    + " target(s) are out of date.\nRun eleph generate and commit the result."@,
                1,
            )
        }),
{
}

/// When a file was written, the next is gone on to, the directory is listed, or
/// the run ends.
pub proof fn how_upkeep_goes_on(upkeep: UpkeepView)
    ensures
        upkeep.plan < upkeep.plans.len() ==> is_kept_up(kept_up(upkeep), upkeep),
        upkeep.plan >= upkeep.plans.len() ==> kept_up(upkeep) == farewell(upkeep),
{
}

} // verus!
