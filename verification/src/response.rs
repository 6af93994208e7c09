//! What a builder answers, and the plan that is made of it.
use vstd::prelude::*;
use crate::codec::encode;
#[allow(unused_imports)]
use crate::codec::json_text;
use crate::config::{Config, Target};
#[allow(unused_imports)]
use crate::config::{an_inner_target_is_reserved, reserved_in, ConfigView, TargetView};
use crate::files::{files, strings};
#[allow(unused_imports)]
use crate::files::{
    files_read, files_read_stay_inside, files_view, stay_inside, strings_read, FileView,
};
use crate::json::{string, Json};
#[allow(unused_imports)]
use crate::json::{members_view, JsonView};
use crate::plan::Plan;
#[allow(unused_imports)]
use crate::plan::{is_stale, lies_in, PlanView};
use crate::request::{contributed_files, Request};
#[allow(unused_imports)]
use crate::request::{contributed, contributed_files_stay_inside, contributions_inside};
use crate::text::{join, same, trim_end};
#[allow(unused_imports)]
use crate::text::{joined, trimmed, trimmed_end};

verus! {

/// The directory that a target of a project is written to.
pub open spec fn output_directory(root: Seq<char>, target: TargetView) -> Seq<char> {
    trimmed_end(root, '/') + "/"@ + target.output
}

/// The directory that a target of a project is written to.
pub fn output_path(root: &str, target: &Target) -> (path: String)
    ensures
        path@ == output_directory(root@, target@),
{
    let mut path = trim_end(root, '/');
    path.append("/");
    path.append(target.output.as_str());
    path
}

/// What is wrong with the style of headers that a response declares, if
/// anything is.
pub open spec fn style_fault(response: JsonView) -> Option<Seq<char>> {
    let style = response.at("headerStyle"@);
    if style.string() == "php"@ || style.string() == "line-comment"@ {
        None
    } else {
        Some(
            "The response declares header style "@ + json_text(style.settled())
                + ", which this build does not know."@,
        )
    }
}

/// What a response says went wrong, or what is wrong with how it says it.
pub open spec fn problems_fault(response: JsonView) -> Option<Seq<char>> {
    match strings_read(response.at("errors"@), "errors"@) {
        Err(fault) => Some(fault),
        Ok(problems) => if problems.len() > 0 {
            Some(joined(problems, "\n"@))
        } else {
            None
        },
    }
}

/// The plan that is made of a response, or the first thing that is wrong with
/// it: the style, the problems it tells of, the files, the extensions.
pub open spec fn plan_made(
    root: Seq<char>,
    config: ConfigView,
    contributions: Seq<(Seq<char>, Seq<FileView>)>,
    target: TargetView,
    response: JsonView,
) -> Result<PlanView, Seq<char>> {
    match style_fault(response) {
        Some(fault) => Err(fault),
        None => match problems_fault(response) {
            Some(fault) => Err(fault),
            None => match files_read(
                response.at("files"@),
                "Every file must be an object with \"path\" and \"body\"."@,
            ) {
                Err(fault) => Err(fault),
                Ok(files) => match strings_read(response.at("extensions"@), "extensions"@) {
                    Err(fault) => Err(fault),
                    Ok(extensions) => Ok(
                        PlanView {
                            name: target.name,
                            directory: output_directory(root, target),
                            files: files + contributed(contributions, target.name),
                            style: response.at("headerStyle"@).string(),
                            extensions,
                            reserved: reserved_in(config.targets, target),
                        },
                    ),
                },
            },
        },
    }
}

/// What the making of a plan comes to.
pub open spec fn plan_result(result: Result<Plan, String>) -> Result<PlanView, Seq<char>> {
    match result {
        Ok(plan) => Ok(plan@),
        Err(fault) => Err(fault@),
    }
}

/// Makes a plan of a builder's response.
pub fn make_plan(
    root: &str,
    config: &Config,
    request: &Request,
    target: &Target,
    response: &Json,
) -> (result: Result<Plan, String>)
    ensures
        plan_result(result) == plan_made(
            root@,
            config@,
            request@.contributions,
            target@,
            response@,
        ),
{
    let null = Json::Null;
    let declared = match response.get("headerStyle") {
        Some(value) => value,
        None => &null,
    };
    let style = string(declared);
    if !same(style.as_str(), "php") && !same(style.as_str(), "line-comment") {
        let mut fault = "The response declares header style ".to_owned();
        fault.append(encode(declared).as_str());
        fault.append(", which this build does not know.");
        return Err(fault);
    }
    let errors = match response.get("errors") {
        Some(value) => value,
        None => &null,
    };
    let problems = match strings(errors, "errors") {
        Ok(problems) => problems,
        Err(fault) => {
            return Err(fault);
        },
    };
    if problems.len() > 0 {
        return Err(join(&problems, "\n"));
    }
    let sent = match response.get("files") {
        Some(value) => value,
        None => &null,
    };
    let mut generated = match files(
        sent,
        "Every file must be an object with \"path\" and \"body\".",
    ) {
        Ok(generated) => generated,
        Err(fault) => {
            return Err(fault);
        },
    };
    let ghost built = generated@;
    let mut contributed = contributed_files(&request.contributions, target.name.as_str());
    let ghost more = contributed@;
    generated.append(&mut contributed);
    assert(files_view(generated@) =~= files_view(built) + files_view(more));
    let owned = match response.get("extensions") {
        Some(value) => value,
        None => &null,
    };
    let extensions = match strings(owned, "extensions") {
        Ok(extensions) => extensions,
        Err(fault) => {
            return Err(fault);
        },
    };
    Ok(
        Plan {
            name: target.name.clone(),
            directory: output_path(root, target),
            files: generated,
            style,
            extensions,
            reserved: config.reserved(target),
        },
    )
}

/// What a builder says it provides, nothing where it does not say, or the
/// complaint about what it says.
pub open spec fn provided(target: Seq<char>, response: JsonView) -> Result<JsonView, Seq<char>> {
    match response.member("provides"@) {
        None => Ok(JsonView::Object(Seq::empty())),
        Some(value) => if value is Object {
            Ok(value)
        } else {
            Err("["@ + target + "] \"provides\" must be an object."@)
        },
    }
}

/// What a builder says it provides.
pub fn read_provided(target: &str, response: &Json) -> (result: Result<Json, String>)
    ensures
        crate::codec::json_result(result) == provided(target@, response@),
{
    match response.get("provides") {
        None => {
            let members: Vec<(String, Json)> = Vec::new();
            assert(members_view(members@) =~= Seq::empty());
            Ok(Json::Object(members))
        },
        Some(value) => {
            if value.is_object() {
                Ok(value.duplicate())
            } else {
                let mut fault = "[".to_owned();
                fault.append(target);
                fault.append("] \"provides\" must be an object.");
                Err(fault)
            }
        },
    }
}

/// No file of a plan has a path that escapes, where no contributed file has.
pub proof fn a_plan_stays_inside(
    root: Seq<char>,
    config: ConfigView,
    contributions: Seq<(Seq<char>, Seq<FileView>)>,
    target: TargetView,
    response: JsonView,
)
    requires
        contributions_inside(contributions),
        plan_made(root, config, contributions, target, response) is Ok,
    ensures
        stay_inside(plan_made(root, config, contributions, target, response)->Ok_0.files),
{
    files_read_stay_inside(
        response.at("files"@)->List_0,
        "Every file must be an object with \"path\" and \"body\"."@,
    );
    contributed_files_stay_inside(contributions, target.name);
}

/// A plan leaves alone what lies in the directory of another target within its
/// own: no path there is stale.
pub proof fn a_nested_target_is_left_alone(
    root: Seq<char>,
    config: ConfigView,
    contributions: Seq<(Seq<char>, Seq<FileView>)>,
    target: TargetView,
    response: JsonView,
    i: int,
    path: Seq<char>,
)
    requires
        plan_made(root, config, contributions, target, response) is Ok,
        0 <= i < config.targets.len(),
        config.targets[i].name != target.name,
        (target.directory() + "/"@).is_prefix_of(config.targets[i].directory()),
        (trimmed(
            config.targets[i].directory().skip((target.directory() + "/"@).len() as int),
            '/',
        ) + "/"@).is_prefix_of(path),
    ensures
        !is_stale(plan_made(root, config, contributions, target, response)->Ok_0, path),
{
    let inner = config.targets[i].directory().skip((target.directory() + "/"@).len() as int);
    let reserved = reserved_in(config.targets, target);
    an_inner_target_is_reserved(config.targets, target, i);
    let k = choose|k: int| 0 <= k < reserved.len() && reserved[k] == inner;
    assert((trimmed(reserved[k], '/') + "/"@).is_prefix_of(path));
    assert(lies_in(path, reserved));
}

} // verus!
