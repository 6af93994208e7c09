//! A run of the program as a sequence of steps. Each step says what to print
//! and what to do next in the world outside; each state takes what came of that
//! and gives the next step.
use vstd::prelude::*;
#[allow(unused_imports)]
use crate::codec::json_text;
use crate::config::{Config, Target};
#[allow(unused_imports)]
use crate::config::{builder_resolved, targets_view, ConfigView, Probe, TargetView};
use crate::json::{Json, Numeral};
#[allow(unused_imports)]
use crate::json::{members_view, JsonView};
use crate::options::Options;
#[allow(unused_imports)]
use crate::options::{options_read, targets_chosen, OptionsView};
use crate::plan::{Plan, Report};
#[allow(unused_imports)]
use crate::plan::{blank, observed, plans_view, stale_among, PlanView, ReportView};
#[allow(unused_imports)]
use crate::protocol::{IR, PROTOCOL};
use crate::request::Request;
#[allow(unused_imports)]
use crate::request::{describe_message, generate_message, IntakeView, RequestView};
#[allow(unused_imports)]
use crate::response::{output_directory, plan_made, provided};
#[allow(unused_imports)]
use crate::signature::signed;
#[allow(unused_imports)]
use crate::text::{decimal, joined, sorted, texts};

verus! {

/// What to print, and what to do next.
pub struct Step {
    pub print: String,
    pub next: Next,
}

/// What to do next, with the state that takes what comes of it.
pub enum Next {
    /// Print the complaint to the error output and exit.
    Exit { complaint: String, code: i32 },
    /// Read the compiler's input.
    Listen(Listening),
    /// Read the project's configuration.
    Configure(Configuring),
    /// Look for the builder of a target.
    Resolve(Work),
    /// Run the builder of a target.
    Ask(Asking),
    /// Read what stands in the place of a file.
    Read(Upkeep),
    /// Write a file.
    Write(Writing),
    /// List the directory of a plan.
    List(Upkeep),
    /// Remove a file.
    Remove(Removing),
}

/// Waiting for the compiler's input.
pub struct Listening {
    pub options: Options,
}

/// Waiting for the project's configuration.
pub struct Configuring {
    pub options: Options,
    pub request: Request,
}

/// At work on the targets, one after the other; waiting for what was found
/// where the builder of target number `next` may be.
pub struct Work {
    pub options: Options,
    pub request: Request,
    pub config: Config,
    pub targets: Vec<Target>,
    pub next: usize,
    pub errors: Vec<String>,
    pub plans: Vec<Plan>,
    pub descriptions: Vec<(String, Json)>,
}

/// Waiting for the answer of a builder: candidate number `program`, shown as
/// `shown`, which is to get `payload`.
pub struct Asking {
    pub work: Work,
    pub program: usize,
    pub shown: String,
    pub payload: String,
}

/// Keeping the directories up to date, plan after plan, file after file.
pub struct Upkeep {
    pub check: bool,
    pub plans: Vec<Plan>,
    pub plan: usize,
    pub file: usize,
    pub report: Report,
    pub dirty: usize,
    pub unchanged: u128,
}

/// Waiting for a file to be written.
pub struct Writing {
    pub upkeep: Upkeep,
    pub path: String,
    pub contents: String,
}

/// Waiting for the stale file number `next` to be removed.
pub struct Removing {
    pub upkeep: Upkeep,
    pub next: usize,
}

/// What was read in the place of a file.
pub enum Reading {
    /// There is no file.
    Missing,
    /// There is a file with these contents.
    Contents(String),
    /// The file, shown by its path, cannot be read.
    Failed { shown: String, words: String },
}

/// What a [`Reading`] holds.
pub enum ReadingView {
    Missing,
    Contents(Seq<char>),
    Failed { shown: Seq<char>, words: Seq<char> },
}

impl View for Reading {
    type V = ReadingView;

    open spec fn view(&self) -> ReadingView {
        match self {
            Reading::Missing => ReadingView::Missing,
            Reading::Contents(text) => ReadingView::Contents(text@),
            Reading::Failed { shown, words } => ReadingView::Failed {
                shown: shown@,
                words: words@,
            },
        }
    }
}

/// What a [`Step`] holds.
pub struct StepView {
    pub print: Seq<char>,
    pub next: NextView,
}

/// What a [`Next`] holds.
pub enum NextView {
    Exit { complaint: Seq<char>, code: int },
    Listen(OptionsView),
    Configure { options: OptionsView, request: RequestView },
    Resolve(WorkView),
    Ask(AskingView),
    Read(UpkeepView),
    Write { upkeep: UpkeepView, path: Seq<char>, contents: Seq<char> },
    List(UpkeepView),
    Remove { upkeep: UpkeepView, next: nat },
}

/// What a [`Work`] holds.
pub struct WorkView {
    pub options: OptionsView,
    pub request: RequestView,
    pub config: ConfigView,
    pub targets: Seq<TargetView>,
    pub next: nat,
    pub errors: Seq<Seq<char>>,
    pub plans: Seq<PlanView>,
    pub descriptions: Seq<(Seq<char>, JsonView)>,
}

/// What an [`Asking`] holds.
pub struct AskingView {
    pub work: WorkView,
    pub program: int,
    pub shown: Seq<char>,
    pub payload: Seq<char>,
}

/// What an [`Upkeep`] holds.
pub struct UpkeepView {
    pub check: bool,
    pub plans: Seq<PlanView>,
    pub plan: nat,
    pub file: nat,
    pub report: ReportView,
    pub dirty: nat,
    pub unchanged: nat,
}

impl View for Work {
    type V = WorkView;

    open spec fn view(&self) -> WorkView {
        WorkView {
            options: self.options@,
            request: self.request@,
            config: self.config@,
            targets: targets_view(self.targets@),
            next: self.next as nat,
            errors: texts(self.errors@),
            plans: plans_view(self.plans@),
            descriptions: members_view(self.descriptions@),
        }
    }
}

impl View for Asking {
    type V = AskingView;

    open spec fn view(&self) -> AskingView {
        AskingView {
            work: self.work@,
            program: self.program as int,
            shown: self.shown@,
            payload: self.payload@,
        }
    }
}

impl View for Upkeep {
    type V = UpkeepView;

    open spec fn view(&self) -> UpkeepView {
        UpkeepView {
            check: self.check,
            plans: plans_view(self.plans@),
            plan: self.plan as nat,
            file: self.file as nat,
            report: self.report@,
            dirty: self.dirty as nat,
            unchanged: self.unchanged as nat,
        }
    }
}

impl View for Next {
    type V = NextView;

    open spec fn view(&self) -> NextView {
        match self {
            Next::Exit { complaint, code } => NextView::Exit {
                complaint: complaint@,
                code: *code as int,
            },
            Next::Listen(state) => NextView::Listen(state.options@),
            Next::Configure(state) => NextView::Configure {
                options: state.options@,
                request: state.request@,
            },
            Next::Resolve(work) => NextView::Resolve(work@),
            Next::Ask(state) => NextView::Ask(state@),
            Next::Read(upkeep) => NextView::Read(upkeep@),
            Next::Write(state) => NextView::Write {
                upkeep: state.upkeep@,
                path: state.path@,
                contents: state.contents@,
            },
            Next::List(upkeep) => NextView::List(upkeep@),
            Next::Remove(state) => NextView::Remove {
                upkeep: state.upkeep@,
                next: state.next as nat,
            },
        }
    }
}

impl View for Step {
    type V = StepView;

    open spec fn view(&self) -> StepView {
        StepView { print: self.print@, next: self.next@ }
    }
}

impl WorkView {
    /// Whether there is a target to work on.
    pub open spec fn ready(self) -> bool {
        self.next < self.targets.len()
    }

    /// The target to work on.
    pub open spec fn target(self) -> TargetView {
        self.targets[self.next as int]
    }
}

impl UpkeepView {
    /// Whether the counts fit the plans that are done.
    pub open spec fn wf(self) -> bool {
        &&& self.dirty <= self.plan <= self.plans.len()
        &&& self.unchanged <= self.plan * 0xffff_ffff_ffff_ffff
    }

    /// Whether there is a plan to keep up.
    pub open spec fn listing(self) -> bool {
        self.wf() && self.plan < self.plans.len()
    }

    /// Whether there is a file to look at.
    pub open spec fn reading(self) -> bool {
        self.listing() && self.file < self.current().files.len()
    }

    /// The plan to keep up.
    pub open spec fn current(self) -> PlanView {
        self.plans[self.plan as int]
    }
}

impl NextView {
    /// Whether the state is one that can take what comes.
    pub open spec fn wf(self) -> bool {
        match self {
            NextView::Resolve(work) => work.ready(),
            NextView::Ask(state) => state.work.ready(),
            NextView::Read(upkeep) => upkeep.reading(),
            NextView::Write { upkeep, path, contents } => upkeep.listing(),
            NextView::List(upkeep) => upkeep.listing(),
            NextView::Remove { upkeep, next } => upkeep.listing() && next
                < upkeep.report.deleted.len(),
            _ => true,
        }
    }
}

/// Prints nothing and goes on.
pub open spec fn silently(next: NextView) -> StepView {
    StepView { print: Seq::empty(), next }
}

/// Ends the run with a complaint.
pub open spec fn failure(complaint: Seq<char>) -> StepView {
    silently(NextView::Exit { complaint: complaint + "\n"@, code: 1 })
}

/// Ends the run with a line of output.
pub open spec fn ending(line: Seq<char>, code: int) -> StepView {
    StepView { print: line + "\n"@, next: NextView::Exit { complaint: Seq::empty(), code } }
}

/// A step with more to print before it.
pub open spec fn preceded(print: Seq<char>, step: StepView) -> StepView {
    StepView { print: print + step.print, next: step.next }
}

/// What is printed by way of help.
pub open spec fn help_text() -> Seq<char> {
    "eleph-codegen\n\nCommands: generate, describe, targets, doctor\nOptions: --project PATH, --targets NAMES, --check"@
}

/// The request of a run that gets none.
pub open spec fn no_request() -> RequestView {
    RequestView { schema: JsonView::Null, contributions: Seq::empty() }
}

/// The first step.
pub open spec fn begun(args: Seq<Seq<char>>) -> StepView {
    match options_read(args) {
        Err(fault) => failure(fault),
        Ok(options) => if options.command == "help"@ || options.command == "--help"@
            || options.command == "list"@ {
            ending(help_text(), 0)
        } else if options.command == "generate"@ {
            silently(NextView::Listen(options))
        } else {
            silently(NextView::Configure { options, request: no_request() })
        },
    }
}

/// The step that follows when the compiler's input was taken.
pub open spec fn heard(options: OptionsView, taken: IntakeView) -> StepView {
    match taken {
        IntakeView::Refused(words) => ending(words, 2),
        IntakeView::Failed(words) => failure(words),
        IntakeView::Accepted(request) => silently(NextView::Configure { options, request }),
    }
}

/// What one target is listed as.
pub open spec fn target_listed(target: TargetView) -> (Seq<char>, JsonView) {
    (
        target.name,
        JsonView::Object(
            seq![
                ("output"@, JsonView::Text(target.output)),
                ("builder"@, JsonView::Text(target.builder)),
            ],
        ),
    )
}

/// What the targets of a project are listed as.
pub open spec fn targets_listed(config: ConfigView) -> JsonView {
    JsonView::Object(
        seq![
            ("spec"@, JsonView::Text(config.spec)),
            (
                "targets"@,
                JsonView::Object(
                    config.targets.map_values(|target: TargetView| target_listed(target)),
                ),
            ),
        ],
    )
}

/// What is printed before the builders are looked for.
pub open spec fn preamble(command: Seq<char>) -> Seq<char> {
    if command == "doctor"@ {
        "eleph-codegen speaks protocol "@ + decimal(PROTOCOL as nat) + ", IR "@ + IR@ + ".\n"@
    } else {
        Seq::empty()
    }
}

/// The work on the chosen targets before any of it is done.
pub open spec fn work_begun(
    options: OptionsView,
    request: RequestView,
    config: ConfigView,
    targets: Seq<TargetView>,
) -> WorkView {
    WorkView {
        options,
        request,
        config,
        targets,
        next: 0,
        errors: Seq::empty(),
        plans: Seq::empty(),
        descriptions: Seq::empty(),
    }
}

/// The step that follows when the configuration was loaded.
pub open spec fn configured(
    options: OptionsView,
    request: RequestView,
    loaded: Result<ConfigView, Seq<char>>,
) -> StepView {
    match loaded {
        Err(fault) => failure(fault),
        Ok(config) => if options.command == "targets"@ {
            ending(json_text(targets_listed(config).settled()), 0)
        } else {
            match targets_chosen(config.targets, options.selected) {
                Err(fault) => ending(fault, 2),
                Ok(targets) => if options.command == "generate"@ || options.command
                    == "describe"@ || options.command == "doctor"@ {
                    preceded(
                        preamble(options.command),
                        carried_on(work_begun(options, request, config, targets)),
                    )
                } else {
                    failure("Unknown command "@ + options.command + "."@)
                },
            }
        },
    }
}

/// The step that follows when the work has come to where it is: on to the next
/// target, or to the end of the work.
pub open spec fn carried_on(work: WorkView) -> StepView {
    if work.next < work.targets.len() {
        silently(NextView::Resolve(work))
    } else {
        concluded(work)
    }
}

/// The work with its target done.
pub open spec fn done(work: WorkView) -> WorkView {
    WorkView { next: work.next + 1, ..work }
}

/// The work with its target done and an error taken down.
pub open spec fn faulted(work: WorkView, fault: Seq<char>) -> WorkView {
    done(WorkView { errors: work.errors.push(fault), ..work })
}

/// What is sent to the builder of a target.
pub open spec fn message_for(work: WorkView) -> JsonView {
    let target = work.target();
    if work.options.command == "describe"@ {
        describe_message(target.name)
    } else {
        generate_message(
            target.name,
            target.settings,
            output_directory(work.options.root, target),
            work.request.schema,
        )
    }
}

/// The line about a builder that is ready.
pub open spec fn ready_line(target: TargetView, shown: Seq<char>) -> Seq<char> {
    "  "@ + target.name + " → "@ + shown + " (writes "@ + target.output + ")\n"@
}

/// The step that follows when the builder of a target was looked for.
pub open spec fn resolved(work: WorkView, probes: Seq<Probe>) -> StepView {
    let target = work.target();
    match builder_resolved(work.options.root, work.config.builders, target, probes) {
        Err(fault) => carried_on(faulted(work, fault)),
        Ok(program) => {
            let shown = probes[program]->shown@;
            if work.options.command == "doctor"@ {
                preceded(ready_line(target, shown), carried_on(done(work)))
            } else {
                silently(
                    NextView::Ask(
                        AskingView {
                            work,
                            program,
                            shown,
                            payload: json_text(message_for(work).settled()),
                        },
                    ),
                )
            }
        },
    }
}

/// The complaint about a builder that gave no usable answer.
pub open spec fn unusable(command: Seq<char>, name: Seq<char>, fault: Seq<char>) -> Seq<char> {
    if command == "describe"@ {
        "["@ + name + "] The "@ + name + " builder could not describe itself: "@ + fault
            + "\n  A builder must answer a \"describe\" request; one written before describe existed reads it as a generate and fails on the missing schema."@
    } else {
        "["@ + name + "] The "@ + name + " builder sent something unusable: "@ + fault
    }
}

/// The work with the answer of its target's builder taken in.
pub open spec fn taken_in(work: WorkView, reply: Result<JsonView, Seq<char>>) -> WorkView {
    let target = work.target();
    match reply {
        Err(fault) => faulted(work, unusable(work.options.command, target.name, fault)),
        Ok(response) => if work.options.command == "describe"@ {
            match provided(target.name, response) {
                Err(fault) => faulted(work, fault),
                Ok(provides) => done(
                    WorkView {
                        descriptions: work.descriptions.push((target.name, provides)),
                        ..work
                    },
                ),
            }
        } else {
            match plan_made(
                work.options.root,
                work.config,
                work.request.contributions,
                target,
                response,
            ) {
                Err(fault) => faulted(work, "["@ + target.name + "] "@ + fault),
                Ok(plan) => done(WorkView { plans: work.plans.push(plan), ..work }),
            }
        },
    }
}

/// The step that follows when a builder has answered.
pub open spec fn answered(work: WorkView, reply: Result<JsonView, Seq<char>>) -> StepView {
    carried_on(taken_in(work, reply))
}

/// What the builders say of themselves.
pub open spec fn described(descriptions: Seq<(Seq<char>, JsonView)>) -> JsonView {
    JsonView::Object(
        seq![
            ("elephentity"@, JsonView::Number(Numeral::Unsigned(PROTOCOL))),
            ("irVersion"@, JsonView::Text(IR@)),
            ("targets"@, JsonView::Object(descriptions)),
        ],
    )
}

/// The upkeep of the plans before any of it is done.
pub open spec fn upkeep_begun(check: bool, plans: Seq<PlanView>) -> UpkeepView {
    UpkeepView { check, plans, plan: 0, file: 0, report: blank(), dirty: 0, unchanged: 0 }
}

/// The step that ends a run with the errors about its targets.
pub open spec fn pooled(command: Seq<char>, errors: Seq<Seq<char>>) -> StepView {
    if command == "describe"@ {
        failure(joined(errors, "\n"@))
    } else {
        ending(
            decimal(errors.len()) + " problem(s) with the targets; nothing was generated.\n  "@
                + joined(errors, "\n  "@),
            1,
        )
    }
}

/// The step that follows when there is no target left: one that ends the run
/// where there were errors, and the first that touches a directory where there
/// were none.
pub open spec fn concluded(work: WorkView) -> StepView {
    if work.errors.len() > 0 {
        pooled(work.options.command, work.errors)
    } else if work.options.command == "describe"@ {
        ending(json_text(described(work.descriptions).settled()), 0)
    } else if work.options.command == "doctor"@ {
        ending(decimal(work.config.targets.len()) + " target(s) ready."@, 0)
    } else {
        kept_up(upkeep_begun(work.options.check, work.plans))
    }
}

/// The step that follows when the upkeep has come to where it is: on to the
/// next file, to the listing of the directory, or to the end of the run.
pub open spec fn kept_up(upkeep: UpkeepView) -> StepView {
    if upkeep.plan >= upkeep.plans.len() {
        farewell(upkeep)
    } else if upkeep.file < upkeep.current().files.len() {
        silently(NextView::Read(upkeep))
    } else {
        silently(NextView::List(upkeep))
    }
}

/// The last step.
pub open spec fn farewell(upkeep: UpkeepView) -> StepView {
    let all = decimal(upkeep.plans.len());
    if !upkeep.check {
        ending(all + " target(s) generated."@, 0)
    } else if upkeep.dirty == 0 {
        ending(
            "Every target is up to date ("@ + all + " target(s), "@ + decimal(upkeep.unchanged)
                + " files)."@,
            0,
        )
    } else {
        ending(
            decimal(upkeep.dirty) + " of "@ + all
                + " target(s) are out of date.\nRun eleph generate and commit the result."@,
            1,
        )
    }
}

/// What a reading found, if there was a file that can be read.
pub open spec fn contents_read(reading: ReadingView) -> Option<Seq<char>> {
    match reading {
        ReadingView::Contents(text) => Some(text),
        _ => None,
    }
}

/// The step that follows when the place of a file was read.
pub open spec fn found(upkeep: UpkeepView, reading: ReadingView) -> StepView {
    match reading {
        ReadingView::Failed { shown, words } => failure("Cannot read "@ + shown + ": "@ + words),
        _ => {
            let plan = upkeep.current();
            let file = plan.files[upkeep.file as int];
            let contents = signed(file.path, file.body, plan.style);
            let now = UpkeepView {
                file: upkeep.file + 1,
                report: observed(upkeep.report, file, plan.style, contents_read(reading)),
                ..upkeep
            };
            if upkeep.check || contents_read(reading) == Some(contents) {
                kept_up(now)
            } else {
                silently(NextView::Write { upkeep: now, path: file.path, contents })
            }
        },
    }
}

/// The step that follows when the directory of a plan was listed.
pub open spec fn listed(upkeep: UpkeepView, paths: Seq<Seq<char>>) -> StepView {
    let deleted = sorted(stale_among(upkeep.current(), paths));
    let now = UpkeepView { report: ReportView { deleted, ..upkeep.report }, ..upkeep };
    if !upkeep.check && deleted.len() > 0 {
        silently(NextView::Remove { upkeep: now, next: 0 })
    } else {
        finished(now)
    }
}

/// The step that follows when a stale file was removed.
pub open spec fn removed(upkeep: UpkeepView, next: nat) -> StepView {
    if next + 1 < upkeep.report.deleted.len() {
        silently(NextView::Remove { upkeep, next: next + 1 })
    } else {
        finished(upkeep)
    }
}

/// The paths below a heading; nothing where there are none.
pub open spec fn section(heading: Seq<char>, paths: Seq<Seq<char>>) -> Seq<char> {
    if paths.len() > 0 {
        heading + ":\n  "@ + joined(paths, "\n  "@) + "\n"@
    } else {
        Seq::empty()
    }
}

/// What a check prints about a plan.
pub open spec fn difference(name: Seq<char>, report: ReportView) -> Seq<char> {
    if report.changes() > 0 {
        name + " — "@ + decimal(report.changes()) + " file(s) differ\n"@ + section(
            "Hand-edited"@,
            report.tampered,
        ) + section("Would be created"@, report.created) + section(
            "Would be updated"@,
            report.updated,
        ) + section("No longer produced by the schema"@, report.deleted)
    } else {
        Seq::empty()
    }
}

/// What is printed about files that had been edited by hand.
pub open spec fn regenerated(name: Seq<char>, paths: Seq<Seq<char>>) -> Seq<char>
    decreases paths.len(),
{
    if paths.len() == 0 {
        Seq::empty()
    } else {
        regenerated(name, paths.drop_last()) + "["@ + name + "] "@ + paths.last()
            + " had been edited by hand; it has been regenerated.\n"@
    }
}

/// What is printed about a plan that was written.
pub open spec fn summary(plan: PlanView, report: ReportView) -> Seq<char> {
    regenerated(plan.name, report.tampered) + plan.name + ": "@ + decimal(plan.files.len())
        + " file(s): "@ + decimal(report.created.len()) + " created, "@ + decimal(
        report.updated.len(),
    ) + " updated, "@ + decimal(report.unchanged.len()) + " unchanged, "@ + decimal(
        report.deleted.len(),
    ) + " removed.\n"@
}

/// The upkeep with its plan done.
pub open spec fn plan_done(upkeep: UpkeepView) -> UpkeepView {
    UpkeepView {
        plan: upkeep.plan + 1,
        file: 0,
        report: blank(),
        dirty: if upkeep.check && upkeep.report.changes() > 0 {
            upkeep.dirty + 1
        } else {
            upkeep.dirty
        },
        unchanged: upkeep.unchanged + upkeep.report.unchanged.len(),
        ..upkeep
    }
}

/// The step that follows when a plan is done.
pub open spec fn finished(upkeep: UpkeepView) -> StepView {
    let plan = upkeep.current();
    preceded(
        if upkeep.check {
            difference(plan.name, upkeep.report)
        } else {
            summary(plan, upkeep.report)
        },
        kept_up(plan_done(upkeep)),
    )
}

} // verus!
