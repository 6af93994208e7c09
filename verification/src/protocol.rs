//! The messages between the compiler, this program and the builders.
use vstd::prelude::*;
use crate::codec::{decode, encode};
#[allow(unused_imports)]
use crate::codec::{json_decoded, json_result, json_text};
use crate::json::{Json, Numeral};
#[allow(unused_imports)]
use crate::json::JsonView;
use crate::text::{decimal_text, same, signed_decimal_text, trim_white};
#[allow(unused_imports)]
use crate::text::{decimal, signed_decimal, without_outer_white};
#[allow(unused_imports)]
use vstd::utf8::encode_utf8;

verus! {

/// The version of the protocol.
pub const PROTOCOL: u64 = 1;

/// The version of the intermediate representation that schemas are written in.
pub const IR: &'static str = "1.1";

/// How a value is shown in a complaint: a text as it is, a list or an object by
/// the word for both, anything else as JSON has it.
pub open spec fn displayed(value: JsonView) -> Seq<char> {
    match value {
        JsonView::Null => "null"@,
        JsonView::Bool(true) => "true"@,
        JsonView::Bool(false) => "false"@,
        JsonView::Number(Numeral::Unsigned(n)) => decimal(n as nat),
        JsonView::Number(Numeral::Other(_)) => json_text(value.settled()),
        JsonView::Text(text) => text,
        JsonView::List(_) => "array"@,
        JsonView::Object(_) => "array"@,
    }
}

/// How a value is shown in a complaint.
pub fn display(v: &Json) -> (text: String)
    ensures
        text@ == displayed(v@),
{
    match v {
        Json::Text(s) => s.clone(),
        Json::List(_) => "array".to_owned(),
        Json::Object(_) => "array".to_owned(),
        _ => encode(v),
    }
}

/// What is wrong with the versions that a message declares, if anything is.
pub open spec fn versions_fault(message: JsonView) -> Option<Seq<char>> {
    let protocol = message.at("elephentity"@);
    let ir = message.at("irVersion"@);
    if protocol != JsonView::Number(Numeral::Unsigned(PROTOCOL)) {
        Some(
            "Protocol version mismatch: this build speaks "@ + decimal(PROTOCOL as nat)
                + ", the other side speaks "@ + displayed(protocol) + "."@,
        )
    } else if ir != JsonView::Text(IR@) {
        Some(
            "IR version mismatch: this build emits "@ + IR@ + ", the other side speaks "@
                + displayed(ir)
                + ". There is no compatibility guarantee before 1.0; upgrade whichever side is behind."@,
        )
    } else {
        None
    }
}

/// Whether a message declares the versions that this program speaks.
pub fn versions(v: &Json) -> (result: Result<(), String>)
    ensures
        match versions_fault(v@) {
            Some(fault) => result is Err && result->Err_0@ == fault,
            None => result is Ok,
        },
{
    let null = Json::Null;
    let protocol = match v.get("elephentity") {
        Some(value) => value,
        None => &null,
    };
    let ir = match v.get("irVersion") {
        Some(value) => value,
        None => &null,
    };
    let speaks = match protocol {
        Json::Number(Numeral::Unsigned(n)) => *n == PROTOCOL,
        _ => false,
    };
    if !speaks {
        let mut fault = "Protocol version mismatch: this build speaks ".to_owned();
        fault.append(decimal_text(PROTOCOL as u128).as_str());
        fault.append(", the other side speaks ");
        fault.append(display(protocol).as_str());
        fault.append(".");
        return Err(fault);
    }
    let emits = match ir {
        Json::Text(text) => same(text.as_str(), IR),
        _ => false,
    };
    if !emits {
        let mut fault = "IR version mismatch: this build emits ".to_owned();
        fault.append(IR);
        fault.append(", the other side speaks ");
        fault.append(display(ir).as_str());
        fault.append(
            ". There is no compatibility guarantee before 1.0; upgrade whichever side is behind.",
        );
        return Err(fault);
    }
    Ok(())
}

/// The object that a text was read as, or the complaint that it is none.
pub open spec fn object_expected(decoded: Result<JsonView, Seq<char>>) -> Result<
    JsonView,
    Seq<char>,
> {
    match decoded {
        Err(words) => Err("Not valid JSON: "@ + words),
        Ok(value) => if value is Object {
            Ok(value)
        } else {
            Err("Expected a JSON object."@)
        },
    }
}

/// The object that a text was read as, or the complaint that it is none.
pub fn expect_object(decoded: Result<Json, String>) -> (result: Result<Json, String>)
    ensures
        json_result(result) == object_expected(json_result(decoded)),
{
    match decoded {
        Err(words) => {
            let mut complaint = "Not valid JSON: ".to_owned();
            complaint.append(words.as_str());
            Err(complaint)
        },
        Ok(value) => {
            if value.is_object() {
                Ok(value)
            } else {
                Err("Expected a JSON object.".to_owned())
            }
        },
    }
}

/// Reads a text as a JSON object.
pub fn parse(s: &str) -> (result: Result<Json, String>)
    ensures
        json_result(result) == object_expected(json_decoded(s@)),
        result is Ok ==> result->Ok_0@.wf(),
{
    expect_object(decode(s))
}

/// The message that a text was read as: an object with the right versions.
pub open spec fn message_expected(decoded: Result<JsonView, Seq<char>>) -> Result<
    JsonView,
    Seq<char>,
> {
    match object_expected(decoded) {
        Err(fault) => Err(fault),
        Ok(message) => match versions_fault(message) {
            Some(fault) => Err(fault),
            None => Ok(message),
        },
    }
}

/// The message that a text was read as, or what is wrong with it.
pub fn expect_message(decoded: Result<Json, String>) -> (result: Result<Json, String>)
    ensures
        json_result(result) == message_expected(json_result(decoded)),
{
    match expect_object(decoded) {
        Err(fault) => Err(fault),
        Ok(message) => match versions(&message) {
            Err(fault) => Err(fault),
            Ok(()) => Ok(message),
        },
    }
}

/// The text that bytes stand for, with what is not UTF-8 replaced.
pub uninterp spec fn utf8_lossy(bytes: Seq<u8>) -> Seq<char>;

/// `String::from_utf8_lossy`: bytes that are the UTF-8 of a text give that text;
/// what is not UTF-8 is replaced, in a way that depends on the bytes alone.
#[verifier::external_body]
fn lossy_text(bytes: &Vec<u8>) -> (text: String)
    ensures
        text@ == utf8_lossy(bytes@),
        forall|whole: Seq<char>| bytes@ == #[trigger] encode_utf8(whole) ==> text@ == whole,
{
    std::string::String::from_utf8_lossy(bytes).into_owned()
}

/// What became of running a builder.
pub enum Outcome {
    /// The request could not be laid out for the builder.
    Failed(String),
    /// The builder could not be started.
    NotStarted(String),
    /// The builder ran to its end.
    Finished { success: bool, code: Option<i32>, stdout: Vec<u8>, stderr: Vec<u8> },
}

/// The exit code that is shown: that of the builder, or -1 where it has none.
pub open spec fn shown_code(code: Option<i32>) -> int {
    match code {
        Some(code) => code as int,
        None => -1,
    }
}

/// What keeps an outcome from being a reply, if anything does.
pub open spec fn outcome_fault(builder: Seq<char>, outcome: Outcome) -> Option<Seq<char>> {
    match outcome {
        Outcome::Failed(words) => Some(words@),
        Outcome::NotStarted(words) => Some("Could not run "@ + builder + ": "@ + words@),
        Outcome::Finished { success, code, stdout, stderr } => if success {
            None
        } else {
            Some(
                builder + " exited "@ + signed_decimal(shown_code(code)) + ".\n  "@
                    + without_outer_white(utf8_lossy(stderr@)),
            )
        },
    }
}

/// The reply that an outcome comes to, or what is wrong with it.
pub open spec fn reply_expected(builder: Seq<char>, outcome: Outcome) -> Result<
    JsonView,
    Seq<char>,
> {
    match outcome_fault(builder, outcome) {
        Some(fault) => Err(fault),
        None => message_expected(json_decoded(utf8_lossy(outcome->stdout@))),
    }
}

/// Reads the reply of a builder, shown as `builder`, from what became of
/// running it.
pub fn exchange(builder: &str, outcome: &Outcome) -> (result: Result<Json, String>)
    ensures
        json_result(result) == reply_expected(builder@, *outcome),
        forall|whole: Seq<char>|
            outcome is Finished && outcome->success && outcome->stdout@ == #[trigger] encode_utf8(
                whole,
            ) ==> json_result(result) == message_expected(json_decoded(whole)),
        forall|whole: Seq<char>|
            outcome is Finished && !outcome->success && outcome->stderr@ == #[trigger] encode_utf8(
                whole,
            ) ==> json_result(result) == Err::<JsonView, Seq<char>>(
                builder@ + " exited "@ + signed_decimal(shown_code(outcome->code)) + ".\n  "@
                    + without_outer_white(whole),
            ),
{
    match outcome {
        Outcome::Failed(words) => Err(words.clone()),
        Outcome::NotStarted(words) => {
            let mut fault = "Could not run ".to_owned();
            fault.append(builder);
            fault.append(": ");
            fault.append(words.as_str());
            Err(fault)
        },
        Outcome::Finished { success, code, stdout, stderr } => {
            if !*success {
                let shown: i32 = match code {
                    Some(code) => *code,
                    None => -1,
                };
                let mut fault = builder.to_owned();
                fault.append(" exited ");
                fault.append(signed_decimal_text(shown).as_str());
                fault.append(".\n  ");
                fault.append(trim_white(lossy_text(stderr).as_str()).as_str());
                return Err(fault);
            }
            expect_message(decode(lossy_text(stdout).as_str()))
        },
    }
}

} // verus!
