//! Laws of whole runs: what the builders are sent, and what stands in the tree
//! in the end.
use vstd::prelude::*;
#[allow(unused_imports)]
use crate::codec::json_text;
#[allow(unused_imports)]
use crate::config::{builder_resolved, ConfigView, TargetView};
#[allow(unused_imports)]
use crate::conduct::commands_differ;
#[allow(unused_imports)]
use crate::course::{a_check_fails_on_any_difference, all_kept, obeyed_in_tree};
#[allow(unused_imports)]
use crate::files::{files_read, FileView};
#[allow(unused_imports)]
use crate::json::{JsonView, Numeral};
#[allow(unused_imports)]
use crate::laws::messages::{a_plan_is_made_for_the_target_at_hand, complaint_about_sent_files};
#[allow(unused_imports)]
use crate::laws::outputs::{is_as_signed, is_no_longer_produced, stale_means_no_longer_produced};
#[allow(unused_imports)]
use crate::laws::steps::how_a_builder_is_resolved;
#[allow(unused_imports)]
use crate::laws::values::each_file_is_read_from_its_own_item;
#[allow(unused_imports)]
use crate::options::{options_read, OptionsView};
#[allow(unused_imports)]
use crate::plan::{is_stale, observed, stale_among, PlanView, ReportView};
#[allow(unused_imports)]
use crate::request::{a_message_carries_its_parts, contributed, describe_message, intake};
#[allow(unused_imports)]
use crate::response::plan_made;
#[allow(unused_imports)]
use crate::rerun::{
    a_run_leaves_what_its_plans_come_to, accepted_by, at_work, chosen_by, is_told_run, loaded_by,
    made_for_the_chosen, plans_are_made_for_the_chosen_targets, plans_from, responses_to,
    the_work_keeps_count, told, work_ends_at, works_on_targets, Answers,
};
#[allow(unused_imports)]
use crate::session::{
    contents_read, finished, found, kept_up, plan_done, NextView, ReadingView, StepView, UpkeepView,
};
#[allow(unused_imports)]
use crate::signature::signed;
#[allow(unused_imports)]
use crate::text::{sorted, trimmed_end};
#[allow(unused_imports)]
use crate::tree::{
    a_check_of_all_changes_nothing, a_place_under_is_below, all_applied, all_listed, all_orderly,
    below, generating_all_sets_all_right, home, kept_apart, place_of, rest, seen_from, under,
    what_a_plan_does_to_a_place,
};
#[allow(unused_imports)]
use crate::upkeep::{
    a_check_finds_every_difference, at_path, consistent, in_place, lists, none_stale, place,
    placed_at, written,
};

verus! {

proof fn keeping_up_is_no_work(upkeep: UpkeepView)
    ensures
        !at_work(kept_up(upkeep).next),
        !at_work(finished(upkeep).next),
{
    assert(!at_work(kept_up(plan_done(upkeep)).next));
}

proof fn upkeep_leads_to_no_work(
    state: NextView,
    tree: Map<Seq<char>, Seq<char>>,
    found_there: Seq<Seq<Seq<char>>>,
    step: StepView,
    tree_after: Map<Seq<char>, Seq<char>>,
)
    requires
        obeyed_in_tree(state, tree, found_there, step, tree_after),
    ensures
        !at_work(step.next),
{
    match state {
        NextView::Read(upkeep) => {
            let plan = upkeep.current();
            let path = plan.files[upkeep.file as int].path;
            let reading = match at_path(seen_from(tree, home(plan)), place(path)) {
                Some(contents) => ReadingView::Contents(contents),
                None => ReadingView::Missing,
            };
            assert(step == found(upkeep, reading));
            if !(step.next is Write) {
                keeping_up_is_no_work(
                    UpkeepView {
                        file: upkeep.file + 1,
                        report: observed(
                            upkeep.report,
                            plan.files[upkeep.file as int],
                            plan.style,
                            contents_read(reading),
                        ),
                        ..upkeep
                    },
                );
            }
        },
        NextView::Write { upkeep, path, contents } => {
            keeping_up_is_no_work(upkeep);
        },
        NextView::List(upkeep) => {
            let paths = found_there[upkeep.plan as int];
            let deleted = sorted(stale_among(upkeep.current(), paths));
            keeping_up_is_no_work(
                UpkeepView { report: ReportView { deleted, ..upkeep.report }, ..upkeep },
            );
        },
        NextView::Remove { upkeep, next } => {
            keeping_up_is_no_work(upkeep);
        },
        _ => {},
    }
}

/// Once the directories are touched, no builder is asked any more.
proof fn the_work_is_not_taken_up_again(
    args: Seq<Seq<char>>,
    answers: Answers,
    at_start: Map<Seq<char>, Seq<char>>,
    found: Seq<Seq<Seq<char>>>,
    steps: Seq<StepView>,
    trees: Seq<Map<Seq<char>, Seq<char>>>,
    j: int,
)
    requires
        is_told_run(args, answers, at_start, found, steps, trees),
        0 <= j < steps.len(),
        at_work(steps[j].next),
    ensures
        forall|i: int| 0 <= i < j ==> at_work((#[trigger] steps[i]).next),
    decreases j,
{
    if j > 0 {
        assert(told(
            steps[j - 1].next,
            trees[j - 1],
            answers,
            found,
            steps[j - 1 + 1],
            trees[j - 1 + 1],
        ));
        if !at_work(steps[j - 1].next) {
            upkeep_leads_to_no_work(
                steps[j - 1].next,
                trees[j - 1],
                found,
                steps[j],
                trees[j],
            );
        }
        the_work_is_not_taken_up_again(args, answers, at_start, found, steps, trees, j - 1);
    }
}

/// Whether a message asks for a target to be generated with these parts.
pub open spec fn asks_to_generate(
    message: JsonView,
    root: Seq<char>,
    target: TargetView,
    schema: JsonView,
) -> bool {
    &&& message.at("elephentity"@) == JsonView::Number(Numeral::Unsigned(1))
    &&& message.at("irVersion"@) == JsonView::Text("1.1"@)
    &&& message.at("request"@) == JsonView::Text("generate"@)
    &&& message.at("target"@) == JsonView::Text(target.name)
    &&& message.at("config"@) == target.settings
    &&& message.at("outputDirectory"@) == JsonView::Text(
        trimmed_end(root, '/') + "/"@ + target.output,
    )
    &&& message.at("schema"@) == schema
}

/// Whether a message asks a target's builder to describe itself.
pub open spec fn asks_to_describe(message: JsonView, target: TargetView) -> bool {
    &&& message.at("elephentity"@) == JsonView::Number(Numeral::Unsigned(1))
    &&& message.at("irVersion"@) == JsonView::Text("1.1"@)
    &&& message.at("request"@) == JsonView::Text("describe"@)
    &&& message.at("target"@) == JsonView::Text(target.name)
    &&& message is Object && message->Object_0.len() == 4
}

proof fn a_message_to_describe(target: TargetView)
    ensures
        asks_to_describe(describe_message(target.name), target),
{
    reveal_strlit("elephentity");
    reveal_strlit("irVersion");
    reveal_strlit("request");
    reveal_strlit("target");
    let members = describe_message(target.name)->Object_0;
    assert("elephentity"@.len() == 11 && "irVersion"@.len() == 9 && "request"@.len() == 7
        && "target"@.len() == 6);
    assert forall|i: int, j: int| 0 <= i < j < members.len() implies members[i].0
        != members[j].0 by {
        assert(i == 0 || i == 1 || i == 2);
        assert(j == 1 || j == 2 || j == 3);
    }
    crate::json::lookup_finds_each_member(members, 0);
    crate::json::lookup_finds_each_member(members, 1);
    crate::json::lookup_finds_each_member(members, 2);
    crate::json::lookup_finds_each_member(members, 3);
}

/// Whether a payload is the text of a message that asks for a target what the
/// command asks for.
pub open spec fn is_meant_for(
    payload: Seq<char>,
    options: OptionsView,
    answers: Answers,
    target: TargetView,
) -> bool {
    &&& options.command == "generate"@ ==> exists|message: JsonView|
        payload == json_text(#[trigger] message.settled()) && asks_to_generate(
            message,
            options.root,
            target,
            accepted_by(answers).schema,
        )
    &&& options.command == "describe"@ ==> exists|message: JsonView|
        payload == json_text(#[trigger] message.settled()) && asks_to_describe(message, target)
}

/// Each builder is sent the message for its own target: of every run, in each
/// state in which a builder is asked for target number n of the chosen ones, the
/// payload names that target and holds its settings, its output directory and the
/// schema of the accepted request; and the builder that is asked is the one that
/// was found for that target.
pub proof fn each_builder_is_sent_its_own_message(
    args: Seq<Seq<char>>,
    answers: Answers,
    at_start: Map<Seq<char>, Seq<char>>,
    found: Seq<Seq<Seq<char>>>,
    steps: Seq<StepView>,
    trees: Seq<Map<Seq<char>, Seq<char>>>,
    j: int,
)
    requires
        is_told_run(args, answers, at_start, found, steps, trees),
        options_read(args) is Ok,
        works_on_targets(options_read(args)->Ok_0.command),
        0 <= j < steps.len(),
        steps[j].next is Ask,
    ensures
        ({
            let options = options_read(args)->Ok_0;
            let asking = steps[j].next->Ask_0;
            let n = asking.work.next as int;
            let targets = chosen_by(options, answers);
            &&& options.command != "doctor"@
            &&& options.command == "generate"@ ==> intake(answers.input) is Accepted
            &&& 0 <= n < targets.len()
            &&& asking.work.targets == targets
            &&& is_meant_for(asking.payload, options, answers, targets[n])
            &&& builder_resolved(
                options.root,
                loaded_by(options.root, answers)->Ok_0.builders,
                targets[n],
                answers.probes[n],
            ) == Ok::<int, Seq<char>>(asking.program)
            &&& asking.shown == answers.probes[n][asking.program]->shown@
        }),
{
    commands_differ();
    let options = options_read(args)->Ok_0;
    the_work_is_not_taken_up_again(args, answers, at_start, found, steps, trees, j);
    if j > 0 {
        let state = steps[j - 1].next;
        assert(at_work(state));
        assert(told(state, trees[j - 1], answers, found, steps[j - 1 + 1], trees[j - 1 + 1]));
        the_work_keeps_count(args, answers, at_start, found, steps, trees, j - 1);
        assert(state is Resolve);
        let work = state->Resolve_0;
        let n = work.next as int;
        let target = work.targets[n];
        how_a_builder_is_resolved(work, answers.probes[n]);
        let output = trimmed_end(options.root, '/') + "/"@ + target.output;
        let message = crate::request::generate_message(
            target.name,
            target.settings,
            output,
            work.request.schema,
        );
        a_message_carries_its_parts(target.name, target.settings, output, work.request.schema);
        a_message_to_describe(target);
        let asking = steps[j].next->Ask_0;
        assert(asking.work == work);
        if options.command == "generate"@ {
            assert(asking.payload == json_text(message.settled()));
            assert(asks_to_generate(
                message,
                options.root,
                target,
                accepted_by(answers).schema,
            ));
        }
        if options.command == "describe"@ {
            assert(asking.payload == json_text(describe_message(target.name).settled()));
        }
    }
}

/// What no plan writes, and what is no longer produced by none, stays as it was.
pub proof fn what_no_plan_touches_stays(
    plans: Seq<PlanView>,
    tree: Map<Seq<char>, Seq<char>>,
    found: Seq<Seq<Seq<char>>>,
    full: Seq<char>,
)
    requires
        all_listed(plans, false, tree, found),
        forall|i: int| 0 <= i < plans.len() ==> consistent(#[trigger] plans[i]),
        forall|i: int, k: int|
            0 <= i < plans.len() && 0 <= k < plans[i].files.len() ==> #[trigger] place_of(
                plans[i],
                k,
            ) != full,
        forall|i: int|
            0 <= i < plans.len() && under(home(#[trigger] plans[i]), full)
                ==> !is_no_longer_produced(plans[i], rest(home(plans[i]), full)),
    ensures
        at_path(all_applied(plans, false, tree, found).1, full) == at_path(tree, full),
    decreases plans.len(),
{
    if plans.len() > 0 {
        let n = plans.len() - 1;
        let front = plans.drop_last();
        let last = plans[n];
        let before = all_applied(front, false, tree, found).1;
        assert forall|i: int| 0 <= i < front.len() implies consistent(#[trigger] front[i]) by {
            assert(front[i] == plans[i]);
        }
        assert forall|i: int, k: int|
            0 <= i < front.len() && 0 <= k < front[i].files.len() implies #[trigger] place_of(
            front[i],
            k,
        ) != full by {
            assert(place_of(plans[i], k) != full);
        }
        assert forall|i: int|
            0 <= i < front.len() && under(
                home(#[trigger] front[i]),
                full,
            ) implies !is_no_longer_produced(front[i], rest(home(front[i]), full)) by {
            assert(front[i] == plans[i]);
        }
        what_no_plan_touches_stays(front, tree, found, full);
        assert(consistent(last));
        what_a_plan_does_to_a_place(last, before, found[n], full);
        if under(home(last), full) {
            let path = rest(home(last), full);
            a_place_under_is_below(home(last), full);
            stale_means_no_longer_produced(last, path);
            assert(!is_no_longer_produced(plans[n], path));
            if placed_at(last, path) {
                let k = choose|k: int|
                    0 <= k < last.files.len() && place((#[trigger] last.files[k]).path) == path;
                assert(place_of(plans[n], k) != full);
            }
        }
    }
}

/// The place of a path below the output of a target.
pub open spec fn place_in_output(root: Seq<char>, target: TargetView, path: Seq<char>) -> Seq<char> {
    below(place(trimmed_end(root, '/') + "/"@ + target.output), place(path))
}

/// After a run that generates and exits with code 0, the tree is what the
/// builders produced: each file that a builder sent stands in the output of the
/// target that it was asked for, at its own path, signed, with its own body, and
/// so does each that was contributed to that target.
pub proof fn the_tree_is_what_the_builders_produced(
    args: Seq<Seq<char>>,
    answers: Answers,
    at_start: Map<Seq<char>, Seq<char>>,
    found: Seq<Seq<Seq<char>>>,
    steps: Seq<StepView>,
    trees: Seq<Map<Seq<char>, Seq<char>>>,
    k: int,
    i: int,
    m: int,
)
    requires
        is_told_run(args, answers, at_start, found, steps, trees),
        options_read(args) is Ok,
        options_read(args)->Ok_0.command == "generate"@,
        !options_read(args)->Ok_0.check,
        steps.last().next is Exit,
        steps.last().next->code == 0,
        work_ends_at(steps, k),
        kept_apart(plans_from(steps[k - 1].next, answers)),
        all_orderly(plans_from(steps[k - 1].next, answers)),
        0 <= i < chosen_by(options_read(args)->Ok_0, answers).len(),
    ensures
        ({
            let options = options_read(args)->Ok_0;
            let target = chosen_by(options, answers)[i];
            let response = answers.replies[i]->Ok_0;
            let items = response.at("files"@)->List_0;
            let style = response.at("headerStyle"@)->Text_0;
            let tree = trees.last();
            let more = contributed(accepted_by(answers).contributions, target.name);
            &&& 0 <= m < items.len() ==> {
                let path = items[m].at("path"@)->Text_0;
                let body = items[m].at("body"@)->Text_0;
                let full = place_in_output(options.root, target, path);
                tree.contains_key(full) && tree[full] == signed(path, body, style)
            }
            &&& 0 <= m < more.len() ==> {
                let full = place_in_output(options.root, target, more[m].path);
                tree.contains_key(full) && tree[full] == signed(more[m].path, more[m].body, style)
            }
        }),
{
    let options = options_read(args)->Ok_0;
    let targets = chosen_by(options, answers);
    let config = loaded_by(options.root, answers)->Ok_0;
    let target = targets[i];
    let plans = plans_from(steps[k - 1].next, answers);
    a_run_that_exits_well(args, answers, at_start, found, steps, trees, k);
    let contributions = accepted_by(answers).contributions;
    let responses = responses_to(targets.len(), answers);
    assert(plan_made(options.root, config, contributions, target, responses[i]) == Ok::<
        PlanView,
        Seq<char>,
    >(plans[i]));
    let response = responses[i];
    let items = response.at("files"@)->List_0;
    what_a_plan_takes_over(options.root, config, contributions, target, response, plans[i], m);
    assert(response == answers.replies[i]->Ok_0);
    generating_all_sets_all_right(plans, at_start, found);
    a_file_of_a_plan_stands(plans[i], trees.last(), m);
    a_file_of_a_plan_stands(plans[i], trees.last(), items.len() + m);
}

/// A plan that is made of a response has the files that were sent, and behind
/// them those that are contributed, and the style that was declared.
proof fn what_a_plan_takes_over(
    root: Seq<char>,
    config: ConfigView,
    contributions: Seq<(Seq<char>, Seq<FileView>)>,
    target: TargetView,
    response: JsonView,
    plan: PlanView,
    m: int,
)
    requires
        plan_made(root, config, contributions, target, response) == Ok::<PlanView, Seq<char>>(
            plan,
        ),
    ensures
        ({
            let items = response.at("files"@)->List_0;
            let more = contributed(contributions, target.name);
            &&& response != JsonView::Null
            &&& plan.directory == trimmed_end(root, '/') + "/"@ + target.output
            &&& plan.style == response.at("headerStyle"@)->Text_0
            &&& plan.files.len() == items.len() + more.len()
            &&& 0 <= m < items.len() ==> plan.files[m].path == items[m].at("path"@)->Text_0
                && plan.files[m].body == items[m].at("body"@)->Text_0
            &&& 0 <= m < more.len() ==> plan.files[items.len() + m] == more[m]
        }),
{
    a_plan_is_made_for_the_target_at_hand(root, config, contributions, target, response);
    let items = response.at("files"@)->List_0;
    let files = files_read(response.at("files"@), complaint_about_sent_files())->Ok_0;
    assert(response.at("files"@) is List);
    each_file_is_read_from_its_own_item(items, complaint_about_sent_files(), 0);
    assert(response.at("headerStyle"@) is Text);
    if 0 <= m < items.len() {
        assert(plan.files[m] == files[m]);
        assert(items[m].at("path"@) == JsonView::Text(files[m].path));
    }
}

/// Where a plan stands in the tree, so does each of its files, signed.
proof fn a_file_of_a_plan_stands(plan: PlanView, tree: Map<Seq<char>, Seq<char>>, n: int)
    requires
        in_place(plan, seen_from(tree, home(plan))),
    ensures
        0 <= n < plan.files.len() ==> ({
            let full = below(place(plan.directory), place(plan.files[n].path));
            tree.contains_key(full) && tree[full] == signed(
                plan.files[n].path,
                plan.files[n].body,
                plan.style,
            )
        }),
{
    if 0 <= n < plan.files.len() {
        assert(at_path(seen_from(tree, home(plan)), place(plan.files[n].path)) == Some(
            written(plan, plan.files[n]),
        ));
    }
}

proof fn a_run_that_exits_well(
    args: Seq<Seq<char>>,
    answers: Answers,
    at_start: Map<Seq<char>, Seq<char>>,
    found: Seq<Seq<Seq<char>>>,
    steps: Seq<StepView>,
    trees: Seq<Map<Seq<char>, Seq<char>>>,
    k: int,
)
    requires
        is_told_run(args, answers, at_start, found, steps, trees),
        options_read(args) is Ok,
        options_read(args)->Ok_0.command == "generate"@,
        steps.last().next is Exit,
        steps.last().next->code == 0,
        work_ends_at(steps, k),
    ensures
        made_for_the_chosen(
            options_read(args)->Ok_0,
            answers,
            plans_from(steps[k - 1].next, answers),
        ),
        all_kept(
            options_read(args)->Ok_0.check,
            plans_from(steps[k - 1].next, answers),
            at_start,
            found,
            steps.last().next,
            trees.last(),
        ),
{
    if steps[k].next is Exit && k < steps.len() - 1 {
        assert(told(
            steps[k].next,
            trees[k],
            answers,
            found,
            steps[k + 1],
            trees[k + 1],
        ));
    }
    plans_are_made_for_the_chosen_targets(args, answers, at_start, found, steps, trees, k);
    a_run_leaves_what_its_plans_come_to(args, answers, at_start, found, steps, trees, k);
}

/// After such a run nothing that is no longer produced is left below the output
/// of its target, at any depth; and what is neither that nor a file of a plan is
/// as it was.
pub proof fn nothing_else_in_the_tree_is_touched(
    args: Seq<Seq<char>>,
    answers: Answers,
    at_start: Map<Seq<char>, Seq<char>>,
    found: Seq<Seq<Seq<char>>>,
    steps: Seq<StepView>,
    trees: Seq<Map<Seq<char>, Seq<char>>>,
    k: int,
    i: int,
    path: Seq<char>,
    full: Seq<char>,
)
    requires
        is_told_run(args, answers, at_start, found, steps, trees),
        options_read(args) is Ok,
        options_read(args)->Ok_0.command == "generate"@,
        !options_read(args)->Ok_0.check,
        steps.last().next is Exit,
        steps.last().next->code == 0,
        work_ends_at(steps, k),
        kept_apart(plans_from(steps[k - 1].next, answers)),
        all_orderly(plans_from(steps[k - 1].next, answers)),
    ensures
        ({
            let plans = plans_from(steps[k - 1].next, answers);
            &&& 0 <= i < plans.len() && is_no_longer_produced(plans[i], path)
                ==> !trees.last().contains_key(below(home(plans[i]), path))
            &&& (forall|n: int, l: int|
                0 <= n < plans.len() && 0 <= l < plans[n].files.len() ==> #[trigger] place_of(
                    plans[n],
                    l,
                ) != full) && (forall|n: int|
                0 <= n < plans.len() && under(home(#[trigger] plans[n]), full)
                    ==> !is_no_longer_produced(plans[n], rest(home(plans[n]), full))) ==> at_path(
                trees.last(),
                full,
            ) == at_path(at_start, full)
        }),
{
    let plans = plans_from(steps[k - 1].next, answers);
    a_run_that_exits_well(args, answers, at_start, found, steps, trees, k);
    generating_all_sets_all_right(plans, at_start, found);
    if 0 <= i < plans.len() {
        stale_means_no_longer_produced(plans[i], path);
        assert(is_stale(plans[i], path) ==> !trees.last().contains_key(
            below(home(plans[i]), path),
        ));
    }
    if (forall|n: int, l: int|
        0 <= n < plans.len() && 0 <= l < plans[n].files.len() ==> #[trigger] place_of(
            plans[n],
            l,
        ) != full) && (forall|n: int|
        0 <= n < plans.len() && under(home(#[trigger] plans[n]), full) ==> !is_no_longer_produced(
            plans[n],
            rest(home(plans[n]), full),
        )) {
        assert forall|n: int| 0 <= n < plans.len() implies consistent(#[trigger] plans[n]) by {}
        what_no_plan_touches_stays(plans, at_start, found, full);
    }
}

/// Whether a plan is up to date in a tree: each of its files stands as signed,
/// and nothing below its directory is no longer produced.
pub open spec fn is_up_to_date(plan: PlanView, tree: Map<Seq<char>, Seq<char>>) -> bool {
    &&& forall|k: int|
        0 <= k < plan.files.len() ==> is_as_signed(
            plan,
            seen_from(tree, home(plan)),
            #[trigger] plan.files[k],
        )
    &&& forall|path: Seq<char>| #[trigger]
        is_no_longer_produced(plan, path) ==> !tree.contains_key(below(home(plan), path))
}

/// A run that checks leaves the tree as it is, and exits with code 0 exactly
/// where each plan is up to date in it, and with code 1 otherwise.
pub proof fn a_check_fails_where_a_plan_is_out_of_date(
    args: Seq<Seq<char>>,
    answers: Answers,
    at_start: Map<Seq<char>, Seq<char>>,
    found: Seq<Seq<Seq<char>>>,
    steps: Seq<StepView>,
    trees: Seq<Map<Seq<char>, Seq<char>>>,
    k: int,
)
    requires
        is_told_run(args, answers, at_start, found, steps, trees),
        options_read(args) is Ok,
        options_read(args)->Ok_0.command == "generate"@,
        options_read(args)->Ok_0.check,
        steps.last().next is Exit,
        work_ends_at(steps, k),
        !(steps[k].next is Exit && steps[k].next->code != 0),
    ensures
        trees.last() == at_start,
        ({
            let plans = plans_from(steps[k - 1].next, answers);
            steps.last().next->code == (if forall|i: int|
                0 <= i < plans.len() ==> is_up_to_date(#[trigger] plans[i], at_start) {
                0int
            } else {
                1int
            })
        }),
{
    let plans = plans_from(steps[k - 1].next, answers);
    a_run_leaves_what_its_plans_come_to(args, answers, at_start, found, steps, trees, k);
    a_check_of_all_changes_nothing(plans, at_start, found);
    let reports = all_applied(plans, true, at_start, found).0;
    a_check_fails_on_any_difference(true, plans, reports);
    assert forall|i: int| 0 <= i < plans.len() implies (#[trigger] reports[i].changes() == 0
        <==> is_up_to_date(plans[i], at_start)) by {
        let plan = plans[i];
        let seen = seen_from(at_start, home(plan));
        a_check_finds_every_difference(plan, seen, found[i]);
        assert(lists(found[i], seen));
        if is_up_to_date(plan, at_start) {
            assert forall|n: int| 0 <= n < plan.files.len() implies at_path(
                seen,
                place((#[trigger] plan.files[n]).path),
            ) == Some(written(plan, plan.files[n])) by {
                assert(is_as_signed(plan, seen, plan.files[n]));
            }
            assert forall|path: Seq<char>| #[trigger] found[i].contains(path) implies !is_stale(
                plan,
                path,
            ) by {
                stale_means_no_longer_produced(plan, path);
                assert(seen.contains_key(path));
            }
        }
        if in_place(plan, seen) && none_stale(plan, found[i]) {
            assert forall|path: Seq<char>| #[trigger]
                is_no_longer_produced(plan, path) implies !at_start.contains_key(
                below(home(plan), path),
            ) by {
                stale_means_no_longer_produced(plan, path);
                assert(found[i].contains(path) <==> seen.contains_key(path));
            }
            assert forall|n: int| 0 <= n < plan.files.len() implies is_as_signed(
                plan,
                seen,
                #[trigger] plan.files[n],
            ) by {
                assert(at_path(seen, place(plan.files[n].path)) == Some(
                    written(plan, plan.files[n]),
                ));
            }
        }
    }
    if forall|i: int| 0 <= i < plans.len() ==> is_up_to_date(#[trigger] plans[i], at_start) {
        assert forall|i: int| 0 <= i < reports.len() implies (
        #[trigger] reports[i]).changes() == 0 by {
            assert(is_up_to_date(plans[i], at_start));
            assert(reports[i].changes() == 0);
        }
    } else {
        let i = choose|i: int|
            0 <= i < plans.len() && !is_up_to_date(#[trigger] plans[i], at_start);
        assert(reports[i].changes() != 0);
    }
}

} // verus!
