//! What the compiler sends, and what is passed on to the builders.
use vstd::prelude::*;
use crate::codec::decode;
#[allow(unused_imports)]
use crate::codec::{json_decoded, json_result};
use crate::files::{files, File};
#[allow(unused_imports)]
use crate::files::{files_read, files_read_stay_inside, files_view, stay_inside, FileView};
use crate::json::{Json, Numeral};
#[allow(unused_imports)]
use crate::json::{lookup_finds_each_member, members_view, members_view_grows, JsonView};
use crate::protocol::{expect_message, IR, PROTOCOL};
#[allow(unused_imports)]
use crate::protocol::message_expected;
use crate::text::{same, trim_white};
#[allow(unused_imports)]
use crate::text::without_outer_white;

verus! {

/// A request to generate: the schema, which is passed on unread, and the files
/// that the compiler contributes to targets, by the target's name.
pub struct Request {
    pub schema: Json,
    pub contributions: Vec<(String, Vec<File>)>,
}

/// What a [`Request`] holds.
pub struct RequestView {
    pub schema: JsonView,
    pub contributions: Seq<(Seq<char>, Seq<FileView>)>,
}

/// What a list of contributions holds.
pub open spec fn contributions_view(contributions: Seq<(String, Vec<File>)>) -> Seq<
    (Seq<char>, Seq<FileView>),
> {
    contributions.map_values(|entry: (String, Vec<File>)| (entry.0@, files_view(entry.1@)))
}

impl View for Request {
    type V = RequestView;

    open spec fn view(&self) -> RequestView {
        RequestView {
            schema: self.schema@,
            contributions: contributions_view(self.contributions@),
        }
    }
}

/// What becomes of the compiler's input.
pub enum Intake {
    /// It is no request.
    Refused(String),
    /// It is a request whose contributions cannot be used.
    Failed(String),
    /// It is a request.
    Accepted(Request),
}

/// What an [`Intake`] holds.
pub enum IntakeView {
    Refused(Seq<char>),
    Failed(Seq<char>),
    Accepted(RequestView),
}

impl View for Intake {
    type V = IntakeView;

    open spec fn view(&self) -> IntakeView {
        match self {
            Intake::Refused(words) => IntakeView::Refused(words@),
            Intake::Failed(words) => IntakeView::Failed(words@),
            Intake::Accepted(request) => IntakeView::Accepted(request@),
        }
    }
}

/// The complaint about files that are contributed to a target.
pub open spec fn contribution_complaint(name: Seq<char>) -> Seq<char> {
    "Every file contributed to \""@ + name
        + "\" must be an object with \"path\" and \"body\"."@
}

/// The contributions, or what is wrong with the first faulty one.
pub open spec fn contributions_sent(members: Seq<(Seq<char>, JsonView)>) -> Result<
    Seq<(Seq<char>, Seq<FileView>)>,
    Seq<char>,
>
    decreases members.len(),
{
    if members.len() == 0 {
        Ok(Seq::empty())
    } else {
        let name = members.last().0;
        match contributions_sent(members.drop_last()) {
            Err(fault) => Err(fault),
            Ok(contributions) => if name.len() == 0 {
                Err("Every entry in \"files\" must be keyed by target name."@)
            } else {
                match files_read(members.last().1, contribution_complaint(name)) {
                    Err(fault) => Err(fault),
                    Ok(files) => Ok(contributions.push((name, files))),
                }
            },
        }
    }
}

/// What becomes of an input that was read as JSON.
pub open spec fn intake_of(decoded: Result<JsonView, Seq<char>>) -> IntakeView {
    match message_expected(decoded) {
        Err(fault) => IntakeView::Refused(fault),
        Ok(message) => if !(message.at("schema"@) is Object) {
            IntakeView::Refused("The request carries no schema."@)
        } else {
            match message.member("files"@) {
                None => IntakeView::Accepted(
                    RequestView { schema: message.at("schema"@), contributions: Seq::empty() },
                ),
                Some(JsonView::Object(members)) => match contributions_sent(members) {
                    Err(fault) => IntakeView::Failed(fault),
                    Ok(contributions) => IntakeView::Accepted(
                        RequestView { schema: message.at("schema"@), contributions },
                    ),
                },
                Some(_) => IntakeView::Failed("\"files\" must be an object keyed by target."@),
            }
        },
    }
}

/// The complaint about an input with nothing in it.
pub open spec fn nothing_sent() -> Seq<char> {
    "Expected a compiled spec on stdin. `eleph-codegen generate` is run by `eleph generate`, which compiles the specs and pipes them in."@
}

/// What becomes of the compiler's input.
pub open spec fn intake(input: Seq<char>) -> IntakeView {
    if without_outer_white(input).len() == 0 {
        IntakeView::Refused(nothing_sent())
    } else {
        intake_of(json_decoded(input))
    }
}

/// The files that are contributed to a target.
pub open spec fn contributed(
    contributions: Seq<(Seq<char>, Seq<FileView>)>,
    target: Seq<char>,
) -> Seq<FileView>
    decreases contributions.len(),
{
    if contributions.len() == 0 {
        Seq::empty()
    } else if contributions[0].0 == target {
        contributions[0].1
    } else {
        contributed(contributions.drop_first(), target)
    }
}

proof fn a_fault_stays(members: Seq<(Seq<char>, JsonView)>, n: int)
    requires
        0 <= n <= members.len(),
        contributions_sent(members.take(n)) is Err,
    ensures
        contributions_sent(members) == contributions_sent(members.take(n)),
    decreases members.len(),
{
    if n < members.len() {
        assert(members.drop_last().take(n) =~= members.take(n));
        a_fault_stays(members.drop_last(), n);
    } else {
        assert(members.take(n) =~= members);
    }
}

/// What a reading of contributions comes to.
pub open spec fn contributions_result(
    result: Result<Vec<(String, Vec<File>)>, String>,
) -> Result<Seq<(Seq<char>, Seq<FileView>)>, Seq<char>> {
    match result {
        Ok(contributions) => Ok(contributions_view(contributions@)),
        Err(fault) => Err(fault@),
    }
}

/// Reads the contributions of a request.
fn read_contributions(members: &Vec<(String, Json)>) -> (result: Result<
    Vec<(String, Vec<File>)>,
    String,
>)
    ensures
        contributions_result(result) == contributions_sent(members_view(members@)),
{
    let ghost all = members_view(members@);
    let mut read: Vec<(String, Vec<File>)> = Vec::new();
    let mut i: usize = 0;
    assert(contributions_view(read@) =~= Seq::empty());
    while i < members.len()
        invariant
            i <= members@.len(),
            all == members_view(members@),
            contributions_sent(all.take(i as int)) == Ok::<
                Seq<(Seq<char>, Seq<FileView>)>,
                Seq<char>,
            >(contributions_view(read@)),
        decreases members@.len() - i,
    {
        assert(all.take(i + 1).drop_last() =~= all.take(i as int));
        assert(all.take(i + 1).last() == all[i as int]);
        let name = &members[i].0;
        if name.as_str().is_empty() {
            proof {
                a_fault_stays(all, i + 1);
            }
            return Err("Every entry in \"files\" must be keyed by target name.".to_owned());
        }
        let mut complaint = "Every file contributed to \"".to_owned();
        complaint.append(name.as_str());
        complaint.append("\" must be an object with \"path\" and \"body\".");
        match files(&members[i].1, complaint.as_str()) {
            Ok(files) => {
                let ghost before = contributions_view(read@);
                read.push((name.clone(), files));
                assert(contributions_view(read@) =~= before.push((name@, files_view(files@))));
            },
            Err(fault) => {
                proof {
                    a_fault_stays(all, i + 1);
                }
                return Err(fault);
            },
        }
        i += 1;
    }
    assert(all.take(i as int) =~= all);
    Ok(read)
}

/// Reads a request from an input that was read as JSON.
pub fn read_request(decoded: Result<Json, String>) -> (intake: Intake)
    ensures
        intake@ == intake_of(json_result(decoded)),
{
    let message = match expect_message(decoded) {
        Err(fault) => {
            return Intake::Refused(fault);
        },
        Ok(message) => message,
    };
    let schema = match message.get("schema") {
        Some(schema) => if schema.is_object() {
            schema.duplicate()
        } else {
            return Intake::Refused("The request carries no schema.".to_owned());
        },
        None => {
            return Intake::Refused("The request carries no schema.".to_owned());
        },
    };
    match message.get("files") {
        None => {
            let contributions: Vec<(String, Vec<File>)> = Vec::new();
            assert(contributions_view(contributions@) =~= Seq::empty());
            Intake::Accepted(Request { schema, contributions })
        },
        Some(Json::Object(members)) => {
            match read_contributions(members) {
                Err(fault) => Intake::Failed(fault),
                Ok(contributions) => Intake::Accepted(Request { schema, contributions }),
            }
        },
        Some(_) => Intake::Failed("\"files\" must be an object keyed by target.".to_owned()),
    }
}

/// Reads a request from the compiler's input.
pub fn read_input(input: &str) -> (result: Intake)
    ensures
        result@ == intake(input@),
{
    if trim_white(input).as_str().is_empty() {
        Intake::Refused(
            "Expected a compiled spec on stdin. `eleph-codegen generate` is run by `eleph generate`, which compiles the specs and pipes them in.".to_owned(),
        )
    } else {
        read_request(decode(input))
    }
}

/// What a builder is sent that is asked to describe itself.
pub open spec fn describe_message(target: Seq<char>) -> JsonView {
    JsonView::Object(
        seq![
            ("elephentity"@, JsonView::Number(Numeral::Unsigned(PROTOCOL))),
            ("irVersion"@, JsonView::Text(IR@)),
            ("request"@, JsonView::Text("describe"@)),
            ("target"@, JsonView::Text(target)),
        ],
    )
}

/// What a builder is sent that is asked to generate.
pub open spec fn generate_message(
    target: Seq<char>,
    settings: JsonView,
    output: Seq<char>,
    schema: JsonView,
) -> JsonView {
    JsonView::Object(
        seq![
            ("elephentity"@, JsonView::Number(Numeral::Unsigned(PROTOCOL))),
            ("irVersion"@, JsonView::Text(IR@)),
            ("request"@, JsonView::Text("generate"@)),
            ("target"@, JsonView::Text(target)),
            ("config"@, settings),
            ("outputDirectory"@, JsonView::Text(output)),
            ("schema"@, schema),
        ],
    )
}

/// The members that every message to a builder begins with.
fn greeting(request: &str, target: &str) -> (members: Vec<(String, Json)>)
    ensures
        members_view(members@) == seq![
            ("elephentity"@, JsonView::Number(Numeral::Unsigned(PROTOCOL))),
            ("irVersion"@, JsonView::Text(IR@)),
            ("request"@, JsonView::Text(request@)),
            ("target"@, JsonView::Text(target@)),
        ],
{
    let mut members: Vec<(String, Json)> = Vec::new();
    members.push(("elephentity".to_owned(), Json::Number(Numeral::Unsigned(PROTOCOL))));
    members.push(("irVersion".to_owned(), Json::Text(IR.to_owned())));
    members.push(("request".to_owned(), Json::Text(request.to_owned())));
    members.push(("target".to_owned(), Json::Text(target.to_owned())));
    assert(members_view(members@) =~= seq![
        ("elephentity"@, JsonView::Number(Numeral::Unsigned(PROTOCOL))),
        ("irVersion"@, JsonView::Text(IR@)),
        ("request"@, JsonView::Text(request@)),
        ("target"@, JsonView::Text(target@)),
    ]);
    members
}

/// What a builder is sent that is asked to describe itself.
pub fn describe_payload(target: &str) -> (payload: Json)
    ensures
        payload@ == describe_message(target@),
{
    Json::Object(greeting("describe", target))
}

/// What a builder is sent that is asked to generate.
pub fn generate_payload(target: &str, settings: &Json, output: &str, schema: &Json) -> (payload:
    Json)
    ensures
        payload@ == generate_message(target@, settings@, output@, schema@),
{
    let mut members = greeting("generate", target);
    let config = ("config".to_owned(), settings.duplicate());
    proof {
        members_view_grows(members@, config);
    }
    members.push(config);
    let directory = ("outputDirectory".to_owned(), Json::Text(output.to_owned()));
    proof {
        members_view_grows(members@, directory);
    }
    members.push(directory);
    let carried = ("schema".to_owned(), schema.duplicate());
    proof {
        members_view_grows(members@, carried);
    }
    members.push(carried);
    assert(members_view(members@) =~= generate_message(
        target@,
        settings@,
        output@,
        schema@,
    )->Object_0);
    Json::Object(members)
}

/// The files that are contributed to a target.
pub fn contributed_files(contributions: &Vec<(String, Vec<File>)>, target: &str) -> (files: Vec<
    File,
>)
    ensures
        files_view(files@) == contributed(contributions_view(contributions@), target@),
{
    let ghost all = contributions_view(contributions@);
    let mut i: usize = 0;
    assert(all.skip(0) =~= all);
    while i < contributions.len()
        invariant
            i <= contributions@.len(),
            all == contributions_view(contributions@),
            contributed(all.skip(i as int), target@) == contributed(all, target@),
        decreases contributions@.len() - i,
    {
        assert(all.skip(i as int)[0] == all[i as int]);
        if same(contributions[i].0.as_str(), target) {
            return copy_files(&contributions[i].1);
        }
        assert(all.skip(i as int).drop_first() =~= all.skip(i + 1));
        i += 1;
    }
    let none: Vec<File> = Vec::new();
    assert(files_view(none@) =~= Seq::empty());
    none
}

/// A copy of a list of files.
fn copy_files(files: &Vec<File>) -> (copies: Vec<File>)
    ensures
        files_view(copies@) == files_view(files@),
{
    let mut copies: Vec<File> = Vec::new();
    let mut i: usize = 0;
    while i < files.len()
        invariant
            i <= files@.len(),
            copies@.len() == i,
            forall|j: int| 0 <= j < i ==> (#[trigger] copies@[j])@ == files@[j]@,
        decreases files@.len() - i,
    {
        copies.push(File { path: files[i].path.clone(), body: files[i].body.clone() });
        i += 1;
    }
    assert(files_view(copies@) =~= files_view(files@));
    copies
}

/// Each member of the message to generate is found under its key, the schema
/// and the settings as they came; and where those have no key twice, neither
/// has the message, so that it is written as it is.
pub proof fn a_message_carries_its_parts(
    target: Seq<char>,
    settings: JsonView,
    output: Seq<char>,
    schema: JsonView,
)
    ensures
        ({
            let message = generate_message(target, settings, output, schema);
            &&& message.at("elephentity"@) == JsonView::Number(Numeral::Unsigned(PROTOCOL))
            &&& message.at("irVersion"@) == JsonView::Text(IR@)
            &&& message.at("request"@) == JsonView::Text("generate"@)
            &&& message.at("target"@) == JsonView::Text(target)
            &&& message.at("config"@) == settings
            &&& message.at("outputDirectory"@) == JsonView::Text(output)
            &&& message.at("schema"@) == schema
            &&& settings.wf() && schema.wf() ==> message.wf()
        }),
{
    reveal_strlit("elephentity");
    reveal_strlit("irVersion");
    reveal_strlit("request");
    reveal_strlit("target");
    reveal_strlit("config");
    reveal_strlit("outputDirectory");
    reveal_strlit("schema");
    let members = generate_message(target, settings, output, schema)->Object_0;
    assert("target"@[0] != "config"@[0] && "target"@[0] != "schema"@[0] && "config"@[0]
        != "schema"@[0]);
    assert("elephentity"@.len() == 11 && "irVersion"@.len() == 9 && "request"@.len() == 7
        && "target"@.len() == 6 && "config"@.len() == 6 && "outputDirectory"@.len() == 15
        && "schema"@.len() == 6);
    assert(members.len() == 7);
    assert forall|i: int, j: int| 0 <= i < j < members.len() implies members[i].0 != members[j].0 by {
        assert(i == 0 || i == 1 || i == 2 || i == 3 || i == 4 || i == 5);
        assert(j == 1 || j == 2 || j == 3 || j == 4 || j == 5 || j == 6);
    }
    lookup_finds_each_member(members, 0);
    lookup_finds_each_member(members, 1);
    lookup_finds_each_member(members, 2);
    lookup_finds_each_member(members, 3);
    lookup_finds_each_member(members, 4);
    lookup_finds_each_member(members, 5);
    lookup_finds_each_member(members, 6);
    if settings.wf() && schema.wf() {
        assert forall|i: int| 0 <= i < members.len() implies (#[trigger] members[i]).1.wf() by {
            assert(i == 0 || i == 1 || i == 2 || i == 3 || i == 4 || i == 5 || i == 6);
        }
    }
}

/// Whether each file that is contributed has a path, and none that escapes.
pub open spec fn contributions_inside(contributions: Seq<(Seq<char>, Seq<FileView>)>) -> bool {
    forall|i: int| 0 <= i < contributions.len() ==> stay_inside((#[trigger] contributions[i]).1)
}

proof fn contributions_sent_stay_inside(members: Seq<(Seq<char>, JsonView)>)
    ensures
        contributions_sent(members) is Ok ==> contributions_inside(
            contributions_sent(members)->Ok_0,
        ),
    decreases members.len(),
{
    if members.len() > 0 {
        contributions_sent_stay_inside(members.drop_last());
        let (name, value) = members.last();
        if value is List {
            files_read_stay_inside(value->List_0, contribution_complaint(name));
        }
    }
}

/// No file of a request that is accepted has a path that escapes.
pub proof fn an_accepted_request_stays_inside(decoded: Result<JsonView, Seq<char>>)
    requires
        intake_of(decoded) is Accepted,
    ensures
        contributions_inside(intake_of(decoded)->Accepted_0.contributions),
{
    let message = message_expected(decoded)->Ok_0;
    match message.member("files"@) {
        Some(JsonView::Object(members)) => {
            contributions_sent_stay_inside(members);
        },
        _ => {},
    }
}

/// The files that are contributed to a target are those of one contribution,
/// or none.
pub proof fn contributed_files_stay_inside(
    contributions: Seq<(Seq<char>, Seq<FileView>)>,
    target: Seq<char>,
)
    requires
        contributions_inside(contributions),
    ensures
        stay_inside(contributed(contributions, target)),
    decreases contributions.len(),
{
    if contributions.len() > 0 {
        let rest = contributions.drop_first();
        assert forall|i: int| 0 <= i < rest.len() implies stay_inside((#[trigger] rest[i]).1) by {
            assert(stay_inside(contributions[i + 1].1));
        }
        contributed_files_stay_inside(rest, target);
        assert(stay_inside(contributions[0].1));
    }
}

} // verus!
