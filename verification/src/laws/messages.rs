//! Laws of the messages with the compiler and the builders.
use vstd::prelude::*;
#[allow(unused_imports)]
use crate::codec::json_text;
#[allow(unused_imports)]
use crate::config::{reserved_in, ConfigView, TargetView};
#[allow(unused_imports)]
use crate::files::{files_read, strings_read, FileView};
#[allow(unused_imports)]
use crate::json::{JsonView, Numeral};
#[allow(unused_imports)]
use crate::plan::PlanView;
#[allow(unused_imports)]
use crate::protocol::{
    displayed, message_expected, object_expected, reply_expected, utf8_lossy, versions_fault,
    Outcome,
};
#[allow(unused_imports)]
use crate::request::{
    contributed, contributions_sent, describe_message, generate_message, intake, intake_of,
    IntakeView,
};
#[allow(unused_imports)]
use crate::response::{output_directory, plan_made, provided};
#[allow(unused_imports)]
use crate::text::{decimal, is_white, joined, signed_decimal, trimmed_end, without_outer_white};

verus! {

/// Whether a message declares the versions that this program speaks.
pub open spec fn speaks_the_same(message: JsonView) -> bool {
    &&& message.at("elephentity"@) == JsonView::Number(Numeral::Unsigned(1))
    &&& message.at("irVersion"@) == JsonView::Text("1.1"@)
}

/// A message passes exactly where both versions are those of this program; of
/// two that do not match the one of the protocol is told.
pub proof fn both_versions_are_held_against_the_message(message: JsonView)
    ensures
        versions_fault(message) is None <==> speaks_the_same(message),
        message.at("elephentity"@) != JsonView::Number(Numeral::Unsigned(1)) ==> versions_fault(
            message,
        ) == Some(
            "Protocol version mismatch: this build speaks "@ + "1"@
                + ", the other side speaks "@ + displayed(message.at("elephentity"@)) + "."@,
        ),
        message.at("elephentity"@) == JsonView::Number(Numeral::Unsigned(1)) && message.at(
            "irVersion"@,
        ) != JsonView::Text("1.1"@) ==> versions_fault(message) == Some(
            "IR version mismatch: this build emits "@ + "1.1"@ + ", the other side speaks "@
                + displayed(message.at("irVersion"@))
                + ". There is no compatibility guarantee before 1.0; upgrade whichever side is behind."@,
        ),
{
    reveal_strlit("1");
    crate::laws::texts::digits_are_written_in_order(0, 1);
    reveal_strlit("0123456789");
    assert(decimal(1) =~= "1"@);
}

/// What a value is shown as: a text as it is, a number, a truth value and null as
/// JSON writes them, and a list and an object by one word.
pub proof fn what_a_value_is_shown_as(value: JsonView, n: u64)
    ensures
        value is Text ==> displayed(value) == value->Text_0,
        value is List || value is Object ==> displayed(value) == "array"@,
        displayed(JsonView::Null) == "null"@,
        displayed(JsonView::Bool(true)) == "true"@,
        displayed(JsonView::Bool(false)) == "false"@,
        displayed(JsonView::Number(Numeral::Unsigned(n))) == decimal(n as nat),
        value is Number && value->Number_0 is Other ==> displayed(value) == json_text(
            value.settled(),
        ),
{
}

/// A message is taken exactly where the text is a JSON object with the versions
/// of this program, and it is then that object.
pub proof fn a_message_is_the_object_that_was_sent(decoded: Result<JsonView, Seq<char>>)
    ensures
        message_expected(decoded) is Ok <==> decoded is Ok && decoded->Ok_0 is Object
            && speaks_the_same(decoded->Ok_0),
        message_expected(decoded) is Ok ==> message_expected(decoded) == decoded,
        decoded is Err ==> message_expected(decoded) == Err::<JsonView, Seq<char>>(
            "Not valid JSON: "@ + decoded->Err_0,
        ),
        decoded is Ok && !(decoded->Ok_0 is Object) ==> message_expected(decoded) == Err::<
            JsonView,
            Seq<char>,
        >("Expected a JSON object."@),
        decoded is Ok && decoded->Ok_0 is Object && !speaks_the_same(decoded->Ok_0)
            ==> message_expected(decoded) == Err::<JsonView, Seq<char>>(
            versions_fault(decoded->Ok_0)->0,
        ),
        object_expected(decoded) is Ok <==> decoded is Ok && decoded->Ok_0 is Object,
        object_expected(decoded) is Ok ==> object_expected(decoded) == decoded,
{
    if decoded is Ok {
        both_versions_are_held_against_the_message(decoded->Ok_0);
    }
}

/// The reply of a builder is the message on its output where it succeeds, and its
/// exit code and its complaint where it does not.
pub proof fn a_reply_is_what_the_builder_sent(builder: Seq<char>, outcome: Outcome)
    ensures
        match outcome {
            Outcome::Failed(words) => reply_expected(builder, outcome) == Err::<
                JsonView,
                Seq<char>,
            >(words@),
            Outcome::NotStarted(words) => reply_expected(builder, outcome) == Err::<
                JsonView,
                Seq<char>,
            >("Could not run "@ + builder + ": "@ + words@),
            Outcome::Finished { success, code, stdout, stderr } => {
                &&& success ==> reply_expected(builder, outcome) == message_expected(
                    crate::codec::json_decoded(utf8_lossy(stdout@)),
                )
                &&& !success ==> reply_expected(builder, outcome) == Err::<JsonView, Seq<char>>(
                    builder + " exited "@ + (match code {
                        Some(code) => signed_decimal(code as int),
                        None => "-1"@,
                    }) + ".\n  "@ + without_outer_white(utf8_lossy(stderr@)),
                )
            },
        },
{
    reveal_strlit("-1");
    reveal_strlit("-");
    reveal_strlit("0123456789");
    crate::laws::texts::digits_are_written_in_order(1, 1);
    assert(signed_decimal(-1) =~= "-1"@) by {
        crate::laws::texts::digits_are_written_in_order(0, 1);
        assert(decimal(1) =~= seq!['1']);
    }
}

/// Whether the contributions to a target can be taken.
pub open spec fn can_be_taken(member: (Seq<char>, JsonView)) -> bool {
    member.0.len() > 0 && files_read(member.1, complaint_about_files(member.0)) is Ok
}

/// The complaint about the files that are contributed to a target.
pub open spec fn complaint_about_files(name: Seq<char>) -> Seq<char> {
    "Every file contributed to \""@ + name
        + "\" must be an object with \"path\" and \"body\"."@
}

/// Contributions are taken exactly where each can be, and each is then the files
/// under its name, in its place. Otherwise the first that cannot be is told of.
pub proof fn each_contribution_is_taken_under_its_name(
    members: Seq<(Seq<char>, JsonView)>,
    k: int,
)
    ensures
        contributions_sent(members) is Ok <==> forall|i: int|
            0 <= i < members.len() ==> can_be_taken(#[trigger] members[i]),
        contributions_sent(members) is Ok ==> {
            let contributions = contributions_sent(members)->Ok_0;
            &&& contributions.len() == members.len()
            &&& forall|i: int|
                0 <= i < members.len() ==> (#[trigger] contributions[i]).0 == members[i].0
                    && files_read(members[i].1, complaint_about_files(members[i].0)) == Ok::<
                    Seq<FileView>,
                    Seq<char>,
                >(contributions[i].1)
        },
        0 <= k < members.len() && !can_be_taken(members[k]) && (forall|i: int|
            0 <= i < k ==> can_be_taken(#[trigger] members[i])) ==> contributions_sent(members)
            == Err::<Seq<(Seq<char>, Seq<FileView>)>, Seq<char>>(
            if members[k].0.len() == 0 {
                "Every entry in \"files\" must be keyed by target name."@
            } else {
                files_read(members[k].1, complaint_about_files(members[k].0))->Err_0
            },
        ),
    decreases members.len(),
{
    if members.len() > 0 {
        let front = members.drop_last();
        each_contribution_is_taken_under_its_name(front, k);
        assert(forall|i: int| 0 <= i < front.len() ==> front[i] == members[i]);
        let last = members[members.len() - 1];
        if forall|i: int| 0 <= i < members.len() ==> can_be_taken(#[trigger] members[i]) {
            assert forall|i: int| 0 <= i < front.len() implies can_be_taken(
                #[trigger] front[i],
            ) by {
                assert(can_be_taken(members[i]));
            }
            assert(can_be_taken(last));
        }
        if contributions_sent(members) is Ok {
            let contributions = contributions_sent(members)->Ok_0;
            assert forall|i: int| 0 <= i < members.len() implies can_be_taken(
                #[trigger] members[i],
            ) by {
                if i < front.len() {
                    assert(can_be_taken(front[i]));
                }
            }
            assert forall|i: int| 0 <= i < members.len() implies (
            #[trigger] contributions[i]).0 == members[i].0 && files_read(
                members[i].1,
                complaint_about_files(members[i].0),
            ) == Ok::<Seq<FileView>, Seq<char>>(contributions[i].1) by {
                if i < front.len() {
                    assert(contributions_sent(front)->Ok_0[i] == contributions[i]);
                    assert(front[i] == members[i]);
                }
            }
        }
        if 0 <= k < members.len() && !can_be_taken(members[k]) && (forall|i: int|
            0 <= i < k ==> can_be_taken(#[trigger] members[i])) {
            if k == members.len() - 1 {
                assert forall|i: int| 0 <= i < front.len() implies can_be_taken(
                    #[trigger] front[i],
                ) by {
                    assert(can_be_taken(members[i]));
                }
            } else {
                assert(front[k] == members[k]);
                assert forall|i: int| 0 <= i < k implies can_be_taken(#[trigger] front[i]) by {
                    assert(can_be_taken(members[i]));
                }
            }
        }
    }
}

/// A target gets the files that are contributed under its name, and no others.
pub proof fn a_target_gets_what_is_contributed_to_it(
    contributions: Seq<(Seq<char>, Seq<FileView>)>,
    target: Seq<char>,
    i: int,
)
    ensures
        0 <= i < contributions.len() && contributions[i].0 == target && (forall|j: int|
            0 <= j < i ==> (#[trigger] contributions[j]).0 != target) ==> contributed(
            contributions,
            target,
        ) == contributions[i].1,
        (forall|j: int|
            0 <= j < contributions.len() ==> (#[trigger] contributions[j]).0 != target)
            ==> contributed(contributions, target).len() == 0,
    decreases contributions.len(),
{
    if contributions.len() > 0 {
        let behind = contributions.drop_first();
        a_target_gets_what_is_contributed_to_it(behind, target, i - 1);
        assert(forall|j: int| 0 <= j < behind.len() ==> behind[j] == contributions[j + 1]);
        if 0 < i < contributions.len() && contributions[i].0 == target && (forall|j: int|
            0 <= j < i ==> (#[trigger] contributions[j]).0 != target) {
            assert(contributions[0].0 != target);
            assert forall|j: int| 0 <= j < i - 1 implies (#[trigger] behind[j]).0 != target by {
                assert(contributions[j + 1].0 != target);
            }
            assert(behind[i - 1] == contributions[i]);
        }
        if forall|j: int|
            0 <= j < contributions.len() ==> (#[trigger] contributions[j]).0 != target {
            assert(contributions[0].0 != target);
            assert forall|j: int| 0 <= j < behind.len() implies (
            #[trigger] behind[j]).0 != target by {
                assert(contributions[j + 1].0 != target);
            }
        }
    }
}

/// A request is accepted exactly where it is a message with an object for its
/// schema, and its files, if it has any, are contributions that can be taken.
/// What is accepted is its schema as it is, and those contributions.
pub proof fn a_request_is_accepted_with_its_schema(decoded: Result<JsonView, Seq<char>>)
    ensures
        ({
            let sent = message_expected(decoded);
            let files = sent->Ok_0.member("files"@);
            let good = sent is Ok && sent->Ok_0.at("schema"@) is Object;
            let taken = intake_of(decoded);
            &&& taken is Accepted <==> good && (files is None || (files->0 is Object
                && contributions_sent(files->0->Object_0) is Ok))
            &&& taken is Accepted ==> taken->Accepted_0.schema == sent->Ok_0.at("schema"@)
            &&& taken is Accepted && files is None ==> taken->Accepted_0.contributions.len() == 0
            &&& taken is Accepted && files is Some ==> contributions_sent(files->0->Object_0)
                == Ok::<Seq<(Seq<char>, Seq<FileView>)>, Seq<char>>(
                taken->Accepted_0.contributions,
            )
            &&& sent is Err ==> taken == IntakeView::Refused(sent->Err_0)
            &&& sent is Ok && !good ==> taken == IntakeView::Refused(
                "The request carries no schema."@,
            )
            &&& good && files is Some && !(files->0 is Object) ==> taken == IntakeView::Failed(
                "\"files\" must be an object keyed by target."@,
            )
            &&& good && files is Some && files->0 is Object && contributions_sent(
                files->0->Object_0,
            ) is Err ==> taken == IntakeView::Failed(
                contributions_sent(files->0->Object_0)->Err_0,
            )
        }),
{
}

/// An input of white space alone is refused, and any other is read as JSON.
pub proof fn an_input_is_read_as_json(input: Seq<char>)
    ensures
        (forall|i: int| 0 <= i < input.len() ==> is_white(#[trigger] input[i])) ==> intake(input)
            == IntakeView::Refused(
            "Expected a compiled spec on stdin. `eleph-codegen generate` is run by `eleph generate`, which compiles the specs and pipes them in."@,
        ),
        (exists|i: int| 0 <= i < input.len() && !is_white(#[trigger] input[i])) ==> intake(input)
            == intake_of(crate::codec::json_decoded(input)),
{
    crate::laws::texts::nothing_but_white_space(input);
}

/// The message to generate holds these members and no others, in this order.
pub proof fn what_a_builder_is_sent_to_generate(
    target: Seq<char>,
    settings: JsonView,
    output: Seq<char>,
    schema: JsonView,
)
    ensures
        generate_message(target, settings, output, schema) == JsonView::Object(
            seq![
                ("elephentity"@, JsonView::Number(Numeral::Unsigned(1))),
                ("irVersion"@, JsonView::Text("1.1"@)),
                ("request"@, JsonView::Text("generate"@)),
                ("target"@, JsonView::Text(target)),
                ("config"@, settings),
                ("outputDirectory"@, JsonView::Text(output)),
                ("schema"@, schema),
            ],
        ),
{
}

/// The message to describe holds these members and no others, in this order.
pub proof fn what_a_builder_is_sent_to_describe(target: Seq<char>)
    ensures
        describe_message(target) == JsonView::Object(
            seq![
                ("elephentity"@, JsonView::Number(Numeral::Unsigned(1))),
                ("irVersion"@, JsonView::Text("1.1"@)),
                ("request"@, JsonView::Text("describe"@)),
                ("target"@, JsonView::Text(target)),
            ],
        ),
{
}

/// Whether a response declares a style of headers that is known.
pub open spec fn has_a_known_style(response: JsonView) -> bool {
    response.at("headerStyle"@) == JsonView::Text("php"@) || response.at("headerStyle"@)
        == JsonView::Text("line-comment"@)
}

/// The complaint about files that are sent by a builder.
pub open spec fn complaint_about_sent_files() -> Seq<char> {
    "Every file must be an object with \"path\" and \"body\"."@
}

/// A plan is made of a response exactly where it declares a style that is known,
/// tells of no errors, and sends files and extensions that can be read. The plan
/// is for the target at hand: it has its name and its directory, the files that
/// were sent, in order, and behind them those that are contributed to it, the
/// style and the extensions that were declared, and what is reserved in the
/// target's directory.
pub proof fn a_plan_is_made_for_the_target_at_hand(
    root: Seq<char>,
    config: ConfigView,
    contributions: Seq<(Seq<char>, Seq<FileView>)>,
    target: TargetView,
    response: JsonView,
)
    ensures
        ({
            let made = plan_made(root, config, contributions, target, response);
            let errors = strings_read(response.at("errors"@), "errors"@);
            let files = files_read(response.at("files"@), complaint_about_sent_files());
            let extensions = strings_read(response.at("extensions"@), "extensions"@);
            let more = contributed(contributions, target.name);
            &&& made is Ok <==> has_a_known_style(response) && errors is Ok && errors->Ok_0.len()
                == 0 && files is Ok && extensions is Ok
            &&& made is Ok ==> {
                let plan = made->Ok_0;
                &&& plan.name == target.name
                &&& plan.directory == trimmed_end(root, '/') + "/"@ + target.output
                &&& plan.files.len() == files->Ok_0.len() + more.len()
                &&& forall|i: int|
                    0 <= i < files->Ok_0.len() ==> #[trigger] plan.files[i] == files->Ok_0[i]
                &&& forall|i: int|
                    files->Ok_0.len() <= i < plan.files.len() ==> #[trigger] plan.files[i]
                        == more[i - files->Ok_0.len()]
                &&& response.at("headerStyle"@) == JsonView::Text(plan.style)
                &&& extensions == Ok::<Seq<Seq<char>>, Seq<char>>(plan.extensions)
                &&& plan.reserved == reserved_in(config.targets, target)
            }
            &&& !has_a_known_style(response) ==> made == Err::<PlanView, Seq<char>>(
                "The response declares header style "@ + json_text(
                    response.at("headerStyle"@).settled(),
                ) + ", which this build does not know."@,
            )
            &&& has_a_known_style(response) && errors is Err ==> made == Err::<
                PlanView,
                Seq<char>,
            >(errors->Err_0)
            &&& has_a_known_style(response) && errors is Ok && errors->Ok_0.len() > 0 ==> made
                == Err::<PlanView, Seq<char>>(joined(errors->Ok_0, "\n"@))
            &&& has_a_known_style(response) && errors is Ok && errors->Ok_0.len() == 0
                && files is Err ==> made == Err::<PlanView, Seq<char>>(files->Err_0)
            &&& has_a_known_style(response) && errors is Ok && errors->Ok_0.len() == 0
                && files is Ok && extensions is Err ==> made == Err::<PlanView, Seq<char>>(
                extensions->Err_0,
            )
            &&& output_directory(root, target) == trimmed_end(root, '/') + "/"@ + target.output
        }),
{
    reveal_strlit("php");
    reveal_strlit("line-comment");
    assert("php"@.len() == 3 && "line-comment"@.len() == 12);
}

/// A builder provides what it says, an empty object where it says nothing, and
/// nothing where it says what is no object.
pub proof fn a_builder_provides_what_it_says(target: Seq<char>, response: JsonView)
    ensures
        response.member("provides"@) is None ==> provided(target, response) == Ok::<
            JsonView,
            Seq<char>,
        >(JsonView::Object(Seq::empty())),
        response.member("provides"@) is Some && response.member("provides"@)->0 is Object
            ==> provided(target, response) == Ok::<JsonView, Seq<char>>(
            response.member("provides"@)->0,
        ),
        response.member("provides"@) is Some && !(response.member("provides"@)->0 is Object)
            ==> provided(target, response) == Err::<JsonView, Seq<char>>(
            "["@ + target + "] \"provides\" must be an object."@,
        ),
{
}

} // verus!
