//! Laws of what the values of the library hold.
use vstd::prelude::*;
#[allow(unused_imports)]
use crate::config::{Candidate, Config, Target};
#[allow(unused_imports)]
use crate::config::{
    candidates_view, config_result, resolve_result, targets_view, CandidateView, ConfigView,
    TargetView,
};
#[allow(unused_imports)]
use crate::files::File;
#[allow(unused_imports)]
use crate::files::{files_result, files_view, texts_result, FileView};
#[allow(unused_imports)]
use crate::json::Json;
#[allow(unused_imports)]
use crate::codec::json_result;
#[allow(unused_imports)]
use crate::json::{members_view, JsonView};
#[allow(unused_imports)]
use crate::options::Options;
#[allow(unused_imports)]
use crate::options::{chosen_result, optional_view, options_result, OptionsView};
#[allow(unused_imports)]
use crate::plan::{Plan, Report};
#[allow(unused_imports)]
use crate::plan::{blank, optional, plans_view, PlanView};
#[allow(unused_imports)]
use crate::request::{Intake, Request};
#[allow(unused_imports)]
use crate::request::{contributions_result, contributions_view, IntakeView};
#[allow(unused_imports)]
use crate::response::plan_result;
#[allow(unused_imports)]
use crate::session::{
    Asking, Configuring, Listening, Next, Reading, Removing, Step, Upkeep, Work, Writing,
};
#[allow(unused_imports)]
use crate::session::{contents_read, NextView, ReadingView};
#[allow(unused_imports)]
use crate::text::{texts, trimmed_end};

verus! {

/// A target, a configuration and a file hold what their fields hold.
pub proof fn what_a_project_holds(target: Target, config: Config, file: File)
    ensures
        target@.name == target.name@,
        target@.output == target.output@,
        target@.builder == target.builder@,
        target@.settings == target.settings@,
        target@.directory() == trimmed_end(target.output@, '/'),
        config@.spec == config.spec@,
        config@.builders == config.builders@,
        config@.targets.len() == config.targets@.len(),
        forall|i: int|
            0 <= i < config.targets@.len() ==> #[trigger] config@.targets[i]
                == config.targets@[i]@,
        file@.path == file.path@,
        file@.body == file.body@,
{
}

/// Options, a request and what becomes of one hold what their fields hold.
pub proof fn what_a_request_holds(options: Options, request: Request, words: String)
    ensures
        options@.command == options.command@,
        options@.root == options.root@,
        options@.check == options.check,
        options.selected is None ==> options@.selected is None,
        options.selected is Some ==> options@.selected == Some(options.selected->0@),
        request@.schema == request.schema@,
        request@.contributions.len() == request.contributions@.len(),
        forall|i: int|
            0 <= i < request.contributions@.len() ==> (#[trigger] request@.contributions[i]).0
                == request.contributions@[i].0@ && request@.contributions[i].1 == files_view(
                request.contributions@[i].1@,
            ),
        Intake::Refused(words)@ == IntakeView::Refused(words@),
        Intake::Failed(words)@ == IntakeView::Failed(words@),
        Intake::Accepted(request)@ == IntakeView::Accepted(request@),
{
}

/// A plan and a report hold what their fields hold.
pub proof fn what_a_plan_holds(plan: Plan, report: Report)
    ensures
        plan@.name == plan.name@,
        plan@.directory == plan.directory@,
        plan@.style == plan.style@,
        plan@.files == files_view(plan.files@),
        plan@.extensions == texts(plan.extensions@),
        plan@.reserved == texts(plan.reserved@),
        report@.created == texts(report.created@),
        report@.updated == texts(report.updated@),
        report@.unchanged == texts(report.unchanged@),
        report@.deleted == texts(report.deleted@),
        report@.tampered == texts(report.tampered@),
        blank().created.len() == 0,
        blank().updated.len() == 0,
        blank().unchanged.len() == 0,
        blank().deleted.len() == 0,
        blank().tampered.len() == 0,
        report@.changes() == report.created@.len() + report.updated@.len()
            + report.deleted@.len(),
{
}

/// Lists hold what their items hold, each in its place.
pub proof fn what_lists_hold(
    targets: Seq<Target>,
    candidates: Seq<Candidate>,
    plans: Seq<Plan>,
    files: Seq<File>,
)
    ensures
        targets_view(targets).len() == targets.len(),
        forall|i: int| 0 <= i < targets.len() ==> #[trigger] targets_view(targets)[i] == targets[i]@,
        candidates_view(candidates).len() == candidates.len(),
        forall|i: int|
            0 <= i < candidates.len() ==> #[trigger] candidates_view(candidates)[i]
                == (match candidates[i] {
                Candidate::Project(path) => CandidateView::Project(path@),
                Candidate::OnPath(n) => CandidateView::OnPath(n as int),
            }),
        plans_view(plans).len() == plans.len(),
        forall|i: int| 0 <= i < plans.len() ==> #[trigger] plans_view(plans)[i] == plans[i]@,
        files_view(files).len() == files.len(),
        forall|i: int| 0 <= i < files.len() ==> #[trigger] files_view(files)[i] == files[i]@,
{
}

/// What a function returns comes to what it holds, or to the words of its fault.
pub proof fn what_results_come_to(
    words: String,
    json: Json,
    config: Config,
    program: usize,
    files: Vec<File>,
    strings: Vec<String>,
    options: Options,
    targets: Vec<Target>,
    plan: Plan,
    contributions: Vec<(String, Vec<File>)>,
)
    ensures
        json_result(Ok(json)) == Ok::<JsonView, Seq<char>>(json@),
        json_result(Err(words)) == Err::<JsonView, Seq<char>>(words@),
        config_result(Ok(config)) == Ok::<ConfigView, Seq<char>>(config@),
        config_result(Err(words)) == Err::<ConfigView, Seq<char>>(words@),
        resolve_result(Ok(program)) == Ok::<int, Seq<char>>(program as int),
        resolve_result(Err(words)) == Err::<int, Seq<char>>(words@),
        files_result(Ok(files)) == Ok::<Seq<FileView>, Seq<char>>(files_view(files@)),
        files_result(Err(words)) == Err::<Seq<FileView>, Seq<char>>(words@),
        texts_result(Ok(strings)) == Ok::<Seq<Seq<char>>, Seq<char>>(texts(strings@)),
        texts_result(Err(words)) == Err::<Seq<Seq<char>>, Seq<char>>(words@),
        options_result(Ok(options)) == Ok::<OptionsView, Seq<char>>(options@),
        options_result(Err(words)) == Err::<OptionsView, Seq<char>>(words@),
        chosen_result(Ok(targets)) == Ok::<Seq<TargetView>, Seq<char>>(targets_view(targets@)),
        chosen_result(Err(words)) == Err::<Seq<TargetView>, Seq<char>>(words@),
        plan_result(Ok(plan)) == Ok::<PlanView, Seq<char>>(plan@),
        plan_result(Err(words)) == Err::<PlanView, Seq<char>>(words@),
        contributions_result(Ok(contributions)) == Ok::<
            Seq<(Seq<char>, Seq<FileView>)>,
            Seq<char>,
        >(contributions_view(contributions@)),
        contributions_result(Err(words)) == Err::<Seq<(Seq<char>, Seq<FileView>)>, Seq<char>>(
            words@,
        ),
{
}

/// A text that may be missing holds the text, or nothing.
pub proof fn what_a_missing_text_holds(text: &str, owned: String, words: String, view: Seq<char>)
    ensures
        optional(Some(text)) == Some(text@),
        optional(None) is None,
        optional_view(Some(owned)) == Some(owned@),
        optional_view(None) is None,
        Reading::Missing@ == ReadingView::Missing,
        Reading::Contents(owned)@ == ReadingView::Contents(owned@),
        (Reading::Failed { shown: owned, words })@ == (ReadingView::Failed {
            shown: owned@,
            words: words@,
        }),
        contents_read(ReadingView::Contents(view)) == Some(view),
        contents_read(ReadingView::Missing) is None,
{
}

/// The work and the upkeep hold what their fields hold; the target at hand is the
/// one whose number it is, and so is the plan.
pub proof fn what_work_holds(work: Work, upkeep: Upkeep)
    ensures
        work@.options == work.options@,
        work@.request == work.request@,
        work@.config == work.config@,
        work@.targets == targets_view(work.targets@),
        work@.next == work.next,
        work@.errors == texts(work.errors@),
        work@.plans == plans_view(work.plans@),
        work@.descriptions == members_view(work.descriptions@),
        work@.ready() <==> work.next < work.targets@.len(),
        work.next < work.targets@.len() ==> work@.target() == work.targets@[work.next as int]@,
        upkeep@.check == upkeep.check,
        upkeep@.plans == plans_view(upkeep.plans@),
        upkeep@.plan == upkeep.plan,
        upkeep@.file == upkeep.file,
        upkeep@.report == upkeep.report@,
        upkeep@.dirty == upkeep.dirty,
        upkeep@.unchanged == upkeep.unchanged,
        upkeep.plan < upkeep.plans@.len() ==> upkeep@.current() == upkeep.plans@[upkeep.plan as int]@,
{
}

/// A step holds what is to be printed and done, with the state that takes what
/// comes of it.
pub proof fn what_a_step_holds(
    print: String,
    complaint: String,
    code: i32,
    listening: Listening,
    configuring: Configuring,
    work: Work,
    asking: Asking,
    upkeep: Upkeep,
    writing: Writing,
    removing: Removing,
    next: Next,
)
    ensures
        (Step { print, next })@.print == print@,
        (Step { print, next })@.next == next@,
        (Next::Exit { complaint, code })@ == (NextView::Exit {
            complaint: complaint@,
            code: code as int,
        }),
        Next::Listen(listening)@ == NextView::Listen(listening.options@),
        Next::Configure(configuring)@ == (NextView::Configure {
            options: configuring.options@,
            request: configuring.request@,
        }),
        Next::Resolve(work)@ == NextView::Resolve(work@),
        Next::Ask(asking)@ == NextView::Ask(asking@),
        asking@.work == asking.work@,
        asking@.program == asking.program,
        asking@.shown == asking.shown@,
        asking@.payload == asking.payload@,
        Next::Read(upkeep)@ == NextView::Read(upkeep@),
        Next::List(upkeep)@ == NextView::List(upkeep@),
        Next::Write(writing)@ == (NextView::Write {
            upkeep: writing.upkeep@,
            path: writing.path@,
            contents: writing.contents@,
        }),
        Next::Remove(removing)@ == (NextView::Remove {
            upkeep: removing.upkeep@,
            next: removing.next as nat,
        }),
{
}

} // verus!
