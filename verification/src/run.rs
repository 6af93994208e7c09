//! The steps of a run up to the point where the directories are touched.
use vstd::prelude::*;
use crate::codec::encode;
#[allow(unused_imports)]
use crate::codec::{json_decoded, json_result};
use crate::config::{Candidate, Config, Probe};
#[allow(unused_imports)]
use crate::config::{
    builder_candidates, candidates_view, config_loaded, config_path, config_result, no_config,
    targets_view, ConfigView, TargetView,
};
use crate::files::File;
use crate::json::{Json, Numeral};
#[allow(unused_imports)]
use crate::json::{members_view, members_view_grows};
use crate::keep::keep_up;
use crate::options::{choose_targets, read_options};
use crate::plan::Report;
#[allow(unused_imports)]
use crate::plan::plans_view;
use crate::protocol::{exchange, IR, Outcome, PROTOCOL};
#[allow(unused_imports)]
use crate::protocol::{message_expected, reply_expected};
use crate::request::{describe_payload, generate_payload, read_input, Intake, Request};
#[allow(unused_imports)]
use crate::request::{contributions_view, intake};
use crate::response::{make_plan, output_path, read_provided};
use crate::session::{Asking, Configuring, Listening, Next, Step, Upkeep, Work};
#[allow(unused_imports)]
use crate::session::{
    answered, begun, carried_on, concluded, configured, described, ending, failure, faulted, heard,
    message_for, preceded, resolved, silently, target_listed, targets_listed, unusable,
};
use crate::text::{decimal_text, join, same, trim_end};
#[allow(unused_imports)]
use crate::text::texts;
#[allow(unused_imports)]
use vstd::utf8::encode_utf8;

verus! {

/// Goes on without printing.
pub(crate) fn quiet(next: Next) -> (step: Step)
    ensures
        step@ == silently(next@),
{
    let step = Step { print: String::new(), next };
    assert(step@.print =~= Seq::empty());
    step
}

/// Ends the run with a complaint.
pub fn fail(complaint: String) -> (step: Step)
    ensures
        step@ == failure(complaint@),
{
    let mut complaint = complaint;
    complaint.append("\n");
    quiet(Next::Exit { complaint, code: 1 })
}

/// Ends the run with a line of output.
pub(crate) fn end(line: String, code: i32) -> (step: Step)
    ensures
        step@ == ending(line@, code as int),
{
    let mut print = line;
    print.append("\n");
    Step { print, next: Next::Exit { complaint: String::new(), code } }
}

/// A step with more to print before it.
pub(crate) fn precede(print: String, step: Step) -> (result: Step)
    ensures
        result@ == preceded(print@, step@),
{
    let mut print = print;
    print.append(step.print.as_str());
    Step { print, next: step.next }
}

/// The first step, from the arguments without the name of the program.
pub fn begin(args: &Vec<String>) -> (step: Step)
    ensures
        step@ == begun(texts(args@)),
        step@.next.wf(),
{
    let options = match read_options(args) {
        Ok(options) => options,
        Err(fault) => {
            return fail(fault);
        },
    };
    let command = options.command.as_str();
    if same(command, "help") || same(command, "--help") || same(command, "list") {
        return end(
            "eleph-codegen\n\nCommands: generate, describe, targets, doctor\nOptions: --project PATH, --targets NAMES, --check".to_owned(),
            0,
        );
    }
    if same(command, "generate") {
        return quiet(Next::Listen(Listening { options }));
    }
    let contributions: Vec<(String, Vec<File>)> = Vec::new();
    assert(contributions_view(contributions@) =~= Seq::empty());
    let request = Request { schema: Json::Null, contributions };
    quiet(Next::Configure(Configuring { options, request }))
}

impl Listening {
    /// The step that follows when the compiler's input was taken.
    pub fn take(self, taken: Intake) -> (step: Step)
        ensures
            step@ == heard(self.options@, taken@),
            step@.next.wf(),
    {
        match taken {
            Intake::Refused(words) => end(words, 2),
            Intake::Failed(words) => fail(words),
            Intake::Accepted(request) => quiet(
                Next::Configure(Configuring { options: self.options, request }),
            ),
        }
    }

    /// The step that follows when the compiler's input was read.
    pub fn hear(self, input: &str) -> (step: Step)
        ensures
            step@ == heard(self.options@, intake(input@)),
            step@.next.wf(),
    {
        self.take(read_input(input))
    }
}

/// What the targets of a project are listed as.
fn list_targets(config: &Config) -> (listing: Json)
    ensures
        listing@ == targets_listed(config@),
{
    let ghost all = config@.targets;
    let ghost listed = all.map_values(|target: TargetView| target_listed(target));
    let mut targets: Vec<(String, Json)> = Vec::new();
    let mut i: usize = 0;
    assert(members_view(targets@) =~= listed.take(0));
    while i < config.targets.len()
        invariant
            i <= config.targets@.len(),
            all == targets_view(config.targets@),
            listed == all.map_values(|target: TargetView| target_listed(target)),
            members_view(targets@) == listed.take(i as int),
        decreases config.targets@.len() - i,
    {
        let target = &config.targets[i];
        assert(all[i as int] == target@);
        let mut members: Vec<(String, Json)> = Vec::new();
        members.push(("output".to_owned(), Json::Text(target.output.clone())));
        members.push(("builder".to_owned(), Json::Text(target.builder.clone())));
        assert(members_view(members@) =~= target_listed(target@).1->Object_0);
        let entry = (target.name.clone(), Json::Object(members));
        proof {
            members_view_grows(targets@, entry);
        }
        targets.push(entry);
        assert(listed.take(i + 1) =~= listed.take(i as int).push(target_listed(target@)));
        i += 1;
    }
    assert(listed.take(i as int) =~= listed);
    let mut members: Vec<(String, Json)> = Vec::new();
    members.push(("spec".to_owned(), Json::Text(config.spec.clone())));
    members.push(("targets".to_owned(), Json::Object(targets)));
    assert(members_view(members@) =~= targets_listed(config@)->Object_0);
    Json::Object(members)
}

impl Configuring {
    /// The path of the project's configuration.
    pub fn path(&self) -> (path: String)
        ensures
            path@ == config_path(self.options@.root),
    {
        let mut path = trim_end(self.options.root.as_str(), '/');
        path.append("/eleph.json");
        path
    }

    /// The step that follows when the configuration was loaded.
    pub fn load(self, loaded: Result<Config, String>) -> (step: Step)
        ensures
            step@ == configured(self.options@, self.request@, config_result(loaded)),
            step@.next.wf(),
    {
        let config = match loaded {
            Ok(config) => config,
            Err(fault) => {
                return fail(fault);
            },
        };
        let command = self.options.command.as_str();
        if same(command, "targets") {
            return end(encode(&list_targets(&config)), 0);
        }
        let targets = match choose_targets(&config.targets, &self.options.selected) {
            Ok(targets) => targets,
            Err(fault) => {
                return end(fault, 2);
            },
        };
        let doctor = same(command, "doctor");
        if !same(command, "generate") && !same(command, "describe") && !doctor {
            let mut fault = "Unknown command ".to_owned();
            fault.append(command);
            fault.append(".");
            return fail(fault);
        }
        let mut print = String::new();
        if doctor {
            print = "eleph-codegen speaks protocol ".to_owned();
            print.append(decimal_text(PROTOCOL as u128).as_str());
            print.append(", IR ");
            print.append(IR);
            print.append(".\n");
        }
        let work = Work {
            options: self.options,
            request: self.request,
            config,
            targets,
            next: 0,
            errors: Vec::new(),
            plans: Vec::new(),
            descriptions: Vec::new(),
        };
        assert(texts(work.errors@) =~= Seq::empty());
        assert(plans_view(work.plans@) =~= Seq::empty());
        assert(members_view(work.descriptions@) =~= Seq::empty());
        precede(print, work.carry_on())
    }

    /// The step that follows when the configuration was read, or found missing.
    pub fn configure(self, contents: Option<&str>) -> (step: Step)
        ensures
            step@ == configured(
                self.options@,
                self.request@,
                match contents {
                    Some(text) => config_loaded(self.options@.root, json_decoded(text@)),
                    None => Err::<ConfigView, Seq<char>>(no_config(self.options@.root)),
                },
            ),
            step@.next.wf(),
    {
        let loaded = Config::load(self.options.root.as_str(), contents);
        self.load(loaded)
    }
}

impl Work {
    /// The step that follows when the work has come to where it is.
    fn carry_on(self) -> (step: Step)
        requires
            self@.next <= self@.targets.len(),
        ensures
            step@ == carried_on(self@),
            step@.next.wf(),
    {
        if self.next < self.targets.len() {
            quiet(Next::Resolve(self))
        } else {
            self.conclude()
        }
    }

    /// Takes down an error about the target and leaves it.
    fn fault(self, fault: String) -> (work: Work)
        requires
            self@.ready(),
        ensures
            work@ == faulted(self@, fault@),
    {
        let mut work = self;
        let ghost before = texts(work.errors@);
        work.errors.push(fault);
        assert(texts(work.errors@) =~= before.push(fault@));
        assert(work.next < work.targets.len());
        work.next = work.next + 1;
        work
    }

    /// Where to look for the builder of the target, in order, with the
    /// directories of the search path.
    pub fn candidates(&self, path_dirs: &Vec<String>) -> (found: Vec<Candidate>)
        requires
            self@.ready(),
        ensures
            candidates_view(found@) == builder_candidates(
                self@.options.root,
                self@.config.builders,
                self@.target().builder,
                texts(path_dirs@),
            ),
    {
        assert(self@.target() == self.targets@[self.next as int]@);
        self.config.candidates(
            self.options.root.as_str(),
            &self.targets[self.next],
            path_dirs,
        )
    }

    /// What is sent to the builder of the target.
    fn payload(&self) -> (payload: Json)
        requires
            self@.ready(),
        ensures
            payload@ == message_for(self@),
    {
        let target = &self.targets[self.next];
        assert(self@.target() == target@);
        if same(self.options.command.as_str(), "describe") {
            describe_payload(target.name.as_str())
        } else {
            generate_payload(
                target.name.as_str(),
                &target.settings,
                output_path(self.options.root.as_str(), target).as_str(),
                &self.request.schema,
            )
        }
    }

    /// The step that follows when the builder of the target was looked for:
    /// with what was found at each candidate, in order.
    pub fn resolve(self, probes: &Vec<Probe>) -> (step: Step)
        requires
            self@.ready(),
        ensures
            step@ == resolved(self@, probes@),
            step@.next.wf(),
    {
        let target = &self.targets[self.next];
        assert(self@.target() == target@);
        match self.config.resolve(self.options.root.as_str(), target, probes) {
            Err(fault) => self.fault(fault).carry_on(),
            Ok(program) => {
                let shown = match &probes[program] {
                    Probe::File { shown, mode } => shown.clone(),
                    _ => String::new(),
                };
                if same(self.options.command.as_str(), "doctor") {
                    let mut line = "  ".to_owned();
                    line.append(target.name.as_str());
                    line.append(" → ");
                    line.append(shown.as_str());
                    line.append(" (writes ");
                    line.append(target.output.as_str());
                    line.append(")\n");
                    let mut work = self;
                    assert(work.next < work.targets.len());
                    work.next = work.next + 1;
                    precede(line, work.carry_on())
                } else {
                    let payload = encode(&self.payload());
                    quiet(Next::Ask(Asking { work: self, program, shown, payload }))
                }
            },
        }
    }

    /// The step that follows when there is no target left.
    fn conclude(self) -> (step: Step)
        ensures
            step@ == concluded(self@),
            step@.next.wf(),
    {
        let describe = same(self.options.command.as_str(), "describe");
        if self.errors.len() > 0 {
            if describe {
                return fail(join(&self.errors, "\n"));
            }
            let mut line = decimal_text(self.errors.len() as u128);
            line.append(" problem(s) with the targets; nothing was generated.\n  ");
            line.append(join(&self.errors, "\n  ").as_str());
            return end(line, 1);
        }
        if describe {
            let mut members: Vec<(String, Json)> = Vec::new();
            members.push(("elephentity".to_owned(), Json::Number(Numeral::Unsigned(PROTOCOL))));
            members.push(("irVersion".to_owned(), Json::Text(IR.to_owned())));
            members.push(("targets".to_owned(), Json::Object(self.descriptions)));
            assert(members_view(members@) =~= described(self@.descriptions)->Object_0);
            return end(encode(&Json::Object(members)), 0);
        }
        if same(self.options.command.as_str(), "doctor") {
            let mut line = decimal_text(self.config.targets.len() as u128);
            line.append(" target(s) ready.");
            return end(line, 0);
        }
        keep_up(
            Upkeep {
                check: self.options.check,
                plans: self.plans,
                plan: 0,
                file: 0,
                report: Report::default(),
                dirty: 0,
                unchanged: 0,
            },
        )
    }
}

impl Asking {
    /// The step that follows when the builder's reply was read.
    pub fn take(self, reply: Result<Json, String>) -> (step: Step)
        requires
            self@.work.ready(),
        ensures
            step@ == answered(self@.work, json_result(reply)),
            step@.next.wf(),
    {
        let work = self.work;
        let target = &work.targets[work.next];
        assert(work@.target() == target@);
        let describe = same(work.options.command.as_str(), "describe");
        let response = match reply {
            Ok(response) => response,
            Err(words) => {
                let mut fault = "[".to_owned();
                fault.append(target.name.as_str());
                fault.append("] The ");
                fault.append(target.name.as_str());
                if describe {
                    fault.append(" builder could not describe itself: ");
                    fault.append(words.as_str());
                    fault.append(
                        "\n  A builder must answer a \"describe\" request; one written before describe existed reads it as a generate and fails on the missing schema.",
                    );
                } else {
                    fault.append(" builder sent something unusable: ");
                    fault.append(words.as_str());
                }
                return work.fault(fault).carry_on();
            },
        };
        if describe {
            match read_provided(target.name.as_str(), &response) {
                Err(fault) => work.fault(fault).carry_on(),
                Ok(provides) => {
                    let entry = (target.name.clone(), provides);
                    let mut work = work;
                    proof {
                        members_view_grows(work.descriptions@, entry);
                    }
                    work.descriptions.push(entry);
                    assert(work.next < work.targets.len());
                    work.next = work.next + 1;
                    work.carry_on()
                },
            }
        } else {
            match make_plan(
                work.options.root.as_str(),
                &work.config,
                &work.request,
                target,
                &response,
            ) {
                Err(words) => {
                    let mut fault = "[".to_owned();
                    fault.append(target.name.as_str());
                    fault.append("] ");
                    fault.append(words.as_str());
                    work.fault(fault).carry_on()
                },
                Ok(plan) => {
                    let mut work = work;
                    let ghost before = plans_view(work.plans@);
                    work.plans.push(plan);
                    assert(plans_view(work.plans@) =~= before.push(plan@));
                    assert(work.next < work.targets.len());
                    work.next = work.next + 1;
                    work.carry_on()
                },
            }
        }
    }

    /// The step that follows when the builder has run.
    pub fn answer(self, outcome: &Outcome) -> (step: Step)
        requires
            self@.work.ready(),
        ensures
            step@ == answered(self@.work, reply_expected(self@.shown, *outcome)),
            forall|whole: Seq<char>|
                outcome is Finished && outcome->success && outcome->stdout@
                    == #[trigger] encode_utf8(whole) ==> step@ == answered(
                    self@.work,
                    message_expected(json_decoded(whole)),
                ),
            step@.next.wf(),
    {
        let reply = exchange(self.shown.as_str(), outcome);
        self.take(reply)
    }
}

} // verus!
