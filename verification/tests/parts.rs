//! The parts of the library, each on its own.
use eleph_codegen::codec::{decode, encode};
use eleph_codegen::config::{Candidate, Config, Probe, Target};
use eleph_codegen::files::{files, strings, File};
use eleph_codegen::json::{string, string_at, Json, Numeral};
use eleph_codegen::options::{choose_targets, read_options};
use eleph_codegen::plan::{extension_of, Plan, Report};
use eleph_codegen::protocol::{display, exchange, expect_message, parse, versions, Outcome};
use eleph_codegen::request::{contributed_files, read_input, read_request, Intake};
use eleph_codegen::response::{make_plan, output_path, read_provided};
use eleph_codegen::signature::{digest, sign, tampered};
use eleph_codegen::text::{
    begins_with, comes_before, contains_dot_dot, decimal_text, join, join_from,
    signed_decimal_text, sort, split_at_each, strip, trim, trim_end, trim_white, white,
};

fn json(text: &str) -> Json {
    match decode(text) {
        Ok(value) => value,
        Err(words) => panic!("{}", words),
    }
}

fn strs(items: &[&str]) -> Vec<String> {
    items.iter().map(|s| s.to_string()).collect()
}

fn target(name: &str, output: &str, builder: &str) -> Target {
    Target {
        name: name.to_string(),
        output: output.to_string(),
        builder: builder.to_string(),
        settings: Json::Object(Vec::new()),
    }
}

fn file(path: &str, body: &str) -> File {
    File { path: path.to_string(), body: body.to_string() }
}

fn at(path: &str, mode: Option<u32>) -> Probe {
    Probe::File { shown: path.to_string(), mode }
}

fn fault<T>(result: Result<T, String>) -> String {
    match result {
        Ok(_) => panic!("no fault"),
        Err(words) => words,
    }
}

fn sound<T>(result: Result<T, String>) -> T {
    match result {
        Ok(value) => value,
        Err(words) => panic!("{}", words),
    }
}

const PHP_HEADER: &str = "<?php\n\ndeclare(strict_types=1);\n\n/*\n * GENERATED BY Elephentity — DO NOT EDIT.\n *\n * Regenerate with `eleph generate`. This file is machine-owned: edits are\n * detected by the build and rejected.\n *\n * path:   a/B.php\n * digest: sha256:434b58bfd8ecfdaacfb5e664b534e580eee0b5904fc0fbdf9e5d41cc6afb0e7c\n */\n\n";

const COMMENT_HEADER: &str = "// GENERATED BY Elephentity — DO NOT EDIT.\n//\n// Regenerate with `eleph generate`. This file is machine-owned: edits are\n// detected by the build and rejected.\n//\n// path:   m.ts\n// digest: sha256:3b8f653deed3564276ca105010e0bce52d4bc294566524088f19319aa4067ca8\n\n";

#[test]
fn a_digest_is_that_of_path_and_body() {
    assert_eq!(
        digest("a/B.php", "x\n"),
        "sha256:434b58bfd8ecfdaacfb5e664b534e580eee0b5904fc0fbdf9e5d41cc6afb0e7c"
    );
    assert_eq!(
        digest("", ""),
        "sha256:01ba4719c80b6fe911b091a7c05124b64eeece964e09c058ef8f9805daca546b"
    );
    assert_ne!(digest("a", "b"), digest("b", "a"));
    assert_eq!(digest("é", "\n").len(), 71);
}

#[test]
fn a_signed_file_is_its_header_and_its_body() {
    assert_eq!(sign("a/B.php", "x\n", "php"), format!("{}x\n", PHP_HEADER));
    assert_eq!(
        sign("m.ts", "const a = 1;\n", "line-comment"),
        format!("{}const a = 1;\n", COMMENT_HEADER)
    );
}

#[test]
fn only_an_edit_below_a_header_is_tampering() {
    for style in ["php", "line-comment"] {
        let text = sign("a/B.php", "x\ny\n", style);
        assert!(!tampered("a/B.php", &text, style));
        assert!(tampered("a/B.php", &text.replace("x\ny", "x\nz"), style));
        assert!(tampered("other", &text, style));
        assert!(!tampered("a/B.php", "written by hand\n", style));
        assert!(!tampered("a/B.php", "", style));
    }
    let other = sign("a/B.php", "x", "php");
    assert!(!tampered("a/B.php", &other, "line-comment"));
    assert!(!tampered("a/B.php", &format!("{}x", "\n".repeat(14)), "php"));
    let below = format!("{} * digest: sha256:00\nx", "\n".repeat(14));
    assert!(!tampered("a/B.php", &below, "php"));
    let above = format!("{} * digest: sha256:00\nx", "\n".repeat(13));
    assert!(tampered("a/B.php", &above, "php"));
}

#[test]
fn a_path_of_two_lines_hides_a_header() {
    let text = sign("a\nb", "x", "php");
    assert!(tampered("a\nb", &text, "php"));
}

#[test]
fn white_space_is_that_of_char() {
    for n in 0..=0x10ffffu32 {
        if let Some(c) = char::from_u32(n) {
            assert_eq!(white(c), c.is_whitespace(), "{:?}", c);
        }
    }
}

#[test]
fn trimming_is_that_of_str() {
    for text in ["", "/", "//", "a", "/a/", "//a/b//", "a//", "//a", " \u{85}é /\t", "\u{3000}"] {
        assert_eq!(trim_end(text, '/'), text.trim_end_matches('/'));
        assert_eq!(trim(text, '/'), text.trim_matches('/'));
        assert_eq!(trim_white(text), text.trim());
    }
}

#[test]
fn splitting_and_joining_are_those_of_str() {
    for text in ["", ",", "a", "a,b", ",a,,b,", "é,ü"] {
        let pieces = split_at_each(text, ',');
        assert_eq!(pieces, text.split(',').map(|s| s.to_string()).collect::<Vec<String>>());
        assert_eq!(join(&pieces, ","), text);
    }
    assert_eq!(join(&strs(&["a", "", "c"]), " and "), "a and  and c");
    assert_eq!(join(&Vec::new(), "-"), "");
    assert_eq!(join_from(&strs(&["a", "b", "c"]), 1, "-"), "b-c");
}

#[test]
fn prefixes_and_dots_are_found() {
    assert_eq!(strip("a/b", "a/"), Some("b".to_string()));
    assert_eq!(strip("a", "a"), Some("".to_string()));
    assert_eq!(strip("a", "ab"), None);
    assert!(begins_with("é/x", "é"));
    assert!(!begins_with("e/x", "é"));
    for text in ["", ".", "..", "a..b", "a.b.c", "a.."] {
        assert_eq!(contains_dot_dot(text), text.contains(".."));
    }
}

#[test]
fn numbers_are_written_in_decimal() {
    for n in [0u128, 7, 10, 255, 1000, u128::MAX] {
        assert_eq!(decimal_text(n), n.to_string());
    }
    for n in [0i32, -1, 42, -128, i32::MIN, i32::MAX] {
        assert_eq!(signed_decimal_text(n), n.to_string());
    }
}

#[test]
fn texts_are_sorted_by_their_characters() {
    let items = strs(&["b", "a/b", "a", "", "é", "z", "a.php", "B", "\u{10000}", "\u{ffff}", "a"]);
    let mut expected = items.clone();
    expected.sort();
    assert_eq!(sort(items.clone()), expected);
    for a in &items {
        for b in &items {
            assert_eq!(comes_before(a, b), a < b);
        }
    }
}

#[test]
fn json_is_read_and_written() {
    for text in [
        "null",
        "true",
        "[1,-1,1.5,18446744073709551615]",
        "{\"z\":{\"b\":[],\"a\":{}},\"a\":\"\\u0001é\\\"\"}",
    ] {
        assert_eq!(encode(&json(text)), text);
        assert_eq!(encode(&json(text).duplicate()), text);
    }
    assert_eq!(encode(&json("{\"a\":1,\"b\":2,\"a\":3}")), "{\"a\":3,\"b\":2}");
    assert_eq!(fault(decode("[1,")), "EOF while parsing a value at line 1 column 3");
    let twice = Json::Object(vec![
        ("a".to_string(), Json::Null),
        ("b".to_string(), Json::Bool(false)),
        ("a".to_string(), Json::Number(Numeral::Unsigned(7))),
    ]);
    assert_eq!(encode(&twice), "{\"a\":7,\"b\":false}");
}

#[test]
fn members_are_looked_up() {
    let value = json("{\"a\":\"x\",\"b\":3}");
    assert_eq!(string_at(&value, "a"), "x");
    assert_eq!(string_at(&value, "b"), "");
    assert_eq!(string_at(&value, "c"), "");
    assert_eq!(string_at(&json("[]"), "a"), "");
    assert_eq!(string(&json("\"y\"")), "y");
    assert!(value.get("b").is_some() && value.get("c").is_none());
    assert!(matches!(value.get("b"), Some(Json::Number(Numeral::Unsigned(3)))));
    assert!(matches!(json("-3"), Json::Number(Numeral::Other(_))));
}

#[test]
fn values_are_displayed_for_complaints() {
    let cases = [
        ("\"1.0\"", "1.0"),
        ("{\"a\":1}", "array"),
        ("[]", "array"),
        ("null", "null"),
        ("false", "false"),
        ("12", "12"),
        ("-1.5", "-1.5"),
    ];
    for (text, shown) in cases {
        assert_eq!(display(&json(text)), shown);
    }
}

#[test]
fn both_versions_must_match() {
    assert!(versions(&json("{\"elephentity\":1,\"irVersion\":\"1.1\"}")).is_ok());
    assert_eq!(
        fault(versions(&json("{\"elephentity\":\"1\",\"irVersion\":\"1.1\"}"))),
        "Protocol version mismatch: this build speaks 1, the other side speaks 1."
    );
    assert_eq!(
        fault(versions(&json("{\"elephentity\":1}"))),
        "IR version mismatch: this build emits 1.1, the other side speaks null. There is no compatibility guarantee before 1.0; upgrade whichever side is behind."
    );
    assert_eq!(
        fault(versions(&json("{\"elephentity\":1,\"irVersion\":1.1}"))),
        "IR version mismatch: this build emits 1.1, the other side speaks 1.1. There is no compatibility guarantee before 1.0; upgrade whichever side is behind."
    );
}

#[test]
fn a_message_is_an_object_with_versions() {
    assert_eq!(fault(parse("\"x\"")), "Expected a JSON object.");
    assert_eq!(
        fault(parse("")),
        "Not valid JSON: EOF while parsing a value at line 1 column 0"
    );
    assert!(parse("{}").is_ok());
    assert_eq!(fault(expect_message(Err("words".to_string()))), "Not valid JSON: words");
    assert!(expect_message(decode("{\"elephentity\":1,\"irVersion\":\"1.1\"}")).is_ok());
}

#[test]
fn a_builder_is_judged_by_how_it_ends() {
    let finished = |success: bool, code: Option<i32>, stdout: &[u8], stderr: &[u8]| Outcome::Finished {
        success,
        code,
        stdout: stdout.to_vec(),
        stderr: stderr.to_vec(),
    };
    let reply = b"{\"elephentity\":1,\"irVersion\":\"1.1\",\"x\":\"\xff\"}";
    let value = sound(exchange("b", &finished(true, Some(0), reply, b"noise")));
    assert_eq!(string_at(&value, "x"), "\u{fffd}");
    assert_eq!(
        fault(exchange("b", &finished(false, Some(7), reply, b"\n boom\t\n"))),
        "b exited 7.\n  boom"
    );
    assert_eq!(fault(exchange("b", &finished(false, None, b"", b""))), "b exited -1.\n  ");
    assert_eq!(
        fault(exchange("b", &Outcome::NotStarted("gone".to_string()))),
        "Could not run b: gone"
    );
    assert_eq!(fault(exchange("b", &Outcome::Failed("full".to_string()))), "full");
}

#[test]
fn files_must_have_paths_inside_and_bodies() {
    let read = sound(files(&json("[{\"path\":\"a/b\",\"body\":\"\"}]"), "bad"));
    assert_eq!((read[0].path.as_str(), read[0].body.as_str()), ("a/b", ""));
    for text in ["null", "[1]", "[{\"path\":\"\",\"body\":\"\"}]", "[{\"path\":\"a\"}]", "[{\"path\":3,\"body\":\"\"}]"] {
        assert_eq!(fault(files(&json(text), "bad")), "bad");
    }
    for path in ["../a", "a/..", "a..b", "/a"] {
        assert_eq!(
            fault(files(&json(&format!("[{{\"path\":\"{}\",\"body\":\"\"}}]", path)), "bad")),
            format!("File path \"{}\" escapes the output directory.", path)
        );
    }
    assert_eq!(
        fault(files(&json("[{\"path\":\"a\\u0000\",\"body\":\"\"},3]"), "bad")),
        "File path \"a\0\" escapes the output directory."
    );
}

#[test]
fn lists_of_strings_hold_strings() {
    assert_eq!(sound(strings(&json("[\"a\",\"b\"]"), "n")), strs(&["a", "b"]));
    assert_eq!(sound(strings(&Json::Null, "n")), strs(&[]));
    assert_eq!(fault(strings(&json("[\"a\",1]"), "n")), "\"n\" must be a list of strings.");
    assert_eq!(fault(strings(&json("{}"), "n")), "\"n\" must be a list of strings.");
}

#[test]
fn extensions_are_those_of_path() {
    for path in [
        "", ".", "..", "a", "a.php", "a.b.php", ".php", ".a.php", "a.", "a..", "d.x/a", "d/a.ts",
        "d/.ts", "a.php/", "a.php/.", "a.php//./", "a/..", "a.php/..", "..a", "...", "é.ü", "a./b",
        "/", "/a.c",
    ] {
        let expected = std::path::Path::new(path)
            .extension()
            .map(|x| x.to_string_lossy().into_owned());
        assert_eq!(extension_of(path), expected, "{}", path);
    }
}

#[test]
fn a_report_takes_down_what_was_found() {
    let mut report = Report::default();
    let post = file("a.ts", "x\n");
    let text = sign("a.ts", "x\n", "line-comment");
    assert_eq!(report.observe(&post, "line-comment", None), Some(text.clone()));
    assert_eq!(report.observe(&post, "line-comment", Some(&text)), None);
    let edited = format!("{}y", text);
    assert_eq!(report.observe(&post, "line-comment", Some(&edited)), Some(text.clone()));
    assert_eq!(report.observe(&post, "line-comment", Some("plain")), Some(text));
    assert_eq!(report.created, strs(&["a.ts"]));
    assert_eq!(report.unchanged, strs(&["a.ts"]));
    assert_eq!(report.updated, strs(&["a.ts", "a.ts"]));
    assert_eq!(report.tampered, strs(&["a.ts"]));
    assert_eq!(report.changes(), 3);
}

#[test]
fn stale_files_are_those_that_the_plan_owns() {
    let plan = Plan {
        name: "php".to_string(),
        directory: "out".to_string(),
        files: vec![file("Post.php", "")],
        style: "php".to_string(),
        extensions: strs(&["php", "inc"]),
        reserved: strs(&["nested", "/deep/er/"]),
    };
    let found = strs(&[
        "z.php", "Post.php", "notes.txt", "nested/a.php", "nested.php", "deep/er/x.inc",
        "deep/x.inc", ".php", "php",
    ]);
    assert_eq!(plan.stale(&found), strs(&["deep/x.inc", "nested.php", "z.php"]));
}

#[test]
fn a_file_not_named_as_listed_is_removed_again() {
    let plan = Plan {
        name: "php".to_string(),
        directory: "out".to_string(),
        files: vec![file("./Post.php", "")],
        style: "php".to_string(),
        extensions: strs(&["php"]),
        reserved: Vec::new(),
    };
    assert_eq!(plan.stale(&strs(&["Post.php"])), strs(&["Post.php"]));
}

#[test]
fn a_configuration_is_read() {
    let config = sound(Config::read(
        "p",
        &json("{\"spec\":\"s\",\"targets\":{\"b\":{\"output\":\"o/\",\"builder\":\"x\",\"k\":1},\"a\":{\"output\":\"q\",\"builder\":\"y\"}}}"),
    ));
    assert_eq!((config.spec.as_str(), config.builders.as_str()), ("s", "tools/builders"));
    let names: Vec<&str> = config.targets.iter().map(|t| t.name.as_str()).collect();
    assert_eq!(names, vec!["b", "a"]);
    assert_eq!(encode(&config.targets[0].settings), "{\"output\":\"o/\",\"builder\":\"x\",\"k\":1}");
    let config = sound(Config::load(
        "p",
        Some("{\"spec\":\"s\",\"builders\":\"bin\",\"targets\":{\"b\":{\"output\":\"o\",\"builder\":\"x\"}}}"),
    ));
    assert_eq!(config.builders, "bin");
}

#[test]
fn all_that_is_wrong_with_a_configuration_is_told() {
    let words = fault(Config::load(
        "root//",
        Some("{\"spec\":3,\"targets\":{\"a\":1,\"b\":{},\"c\":{\"output\":\"o\"},\"d\":{\"output\":\"z/\",\"builder\":\"x\"},\"e\":{\"output\":\"y\",\"builder\":\"x\"},\"f\":{\"output\":\"y/\",\"builder\":\"x\"},\"g\":{\"output\":\"z\",\"builder\":\"x\"},\"h\":{\"output\":\"z//\",\"builder\":\"x\"}}}"),
    ));
    assert_eq!(
        words,
        "root/eleph.json is not usable:\n  \"spec\" must be a non-empty string.\n  Target \"a\" must be an object.\n  Target \"b\" must set \"output\" to a non-empty string.\n  Target \"c\" must set \"builder\" to the program that generates it. Elephentity compiles the spec and generates nothing itself, so a target with no builder is one nothing can produce.\n  Targets d and g and h all write to \"z\". Each target needs its own output directory, because generating one deletes whatever it does not produce.\n  Targets e and f all write to \"y\". Each target needs its own output directory, because generating one deletes whatever it does not produce."
    );
    for text in ["{\"spec\":\"s\"}", "{\"spec\":\"s\",\"targets\":{}}", "{\"spec\":\"s\",\"targets\":[]}"] {
        assert_eq!(
            fault(Config::load("r", Some(text))),
            "r/eleph.json is not usable:\n  \"targets\" must be an object with at least one target in it."
        );
    }
    assert_eq!(
        fault(Config::load("r/", None)),
        "No eleph.json in \"r/\". It needs \"spec\" and a \"targets\" block."
    );
    assert_eq!(fault(Config::load("r", Some("[]"))), "Expected a JSON object.");
    assert_eq!(
        fault(Config::from_decoded("r", Err("oh".to_string()))),
        "Not valid JSON: oh"
    );
}

fn config() -> Config {
    Config {
        spec: "s".to_string(),
        targets: vec![
            target("a", "out/", "x"),
            target("b", "out/b", "x"),
            target("c", "out/b/c/", "x"),
            target("d", "outer", "x"),
        ],
        builders: "/tools/".to_string(),
    }
}

#[test]
fn directories_of_other_targets_are_reserved() {
    let config = config();
    assert_eq!(config.reserved(&config.targets[0]), strs(&["b", "b/c"]));
    assert_eq!(config.reserved(&config.targets[1]), strs(&["c"]));
    assert_eq!(config.reserved(&config.targets[2]), strs(&[]));
}

#[test]
fn builders_are_looked_for_in_order() {
    let config = config();
    let dirs = strs(&["/bin", "", "/usr/bin"]);
    let shown = |builder: &str| -> Vec<String> {
        config
            .candidates("root", &target("t", "o", builder), &dirs)
            .iter()
            .map(|c| match c {
                Candidate::Project(path) => path.clone(),
                Candidate::OnPath(i) => format!("#{}", i),
            })
            .collect()
    };
    assert_eq!(shown("gen"), strs(&["root/tools/gen", "#0", "#2"]));
    assert_eq!(shown("./gen"), strs(&["root/./gen"]));
    assert_eq!(shown("/opt/gen"), strs(&["/opt/gen"]));
}

#[test]
fn the_first_builder_found_must_run() {
    let config = config();
    let t = target("t", "o", "gen");
    let resolve = |probes: Vec<Probe>| config.resolve("root", &t, &probes);
    assert_eq!(sound(resolve(vec![Probe::Nothing, at("p", Some(0o100))])), 1);
    assert_eq!(sound(resolve(vec![at("p", None), Probe::Nothing])), 0);
    assert_eq!(sound(resolve(vec![at("p", Some(0o100001)), at("q", Some(0))])), 0);
    assert_eq!(
        fault(resolve(vec![at("p", Some(0o644)), at("q", Some(0o755))])),
        "The builder for target \"t\" is at p but is not executable. Try `chmod +x p`."
    );
    assert_eq!(
        fault(resolve(vec![Probe::Unreadable("denied".to_string()), at("q", None)])),
        "denied"
    );
    assert_eq!(
        fault(resolve(vec![Probe::Nothing])),
        "No builder \"gen\" for target \"t\". Looked in:\n  root/tools/gen\n  anywhere on PATH\nInstall it and put it where one of those points; Elephentity does not fetch builders."
    );
    assert_eq!(
        fault(config.resolve("root", &target("t", "o", "a/gen"), &vec![Probe::Nothing])),
        "No builder \"a/gen\" for target \"t\". Looked in:\n  root/a/gen\nInstall it and put it where one of those points; Elephentity does not fetch builders."
    );
}

#[test]
fn options_are_read() {
    let options = sound(read_options(&strs(&[
        "generate", "-p", "a", "--targets=x,y", "--check", "-n", "--no-interaction", "--project=b",
    ])));
    assert_eq!(
        (options.command.as_str(), options.root.as_str(), options.check),
        ("generate", "b", true)
    );
    assert_eq!(options.selected, Some("x,y".to_string()));
    let options = sound(read_options(&strs(&[])));
    assert_eq!(
        (options.command.as_str(), options.root.as_str(), options.check, options.selected),
        ("help", ".", false, None)
    );
    assert_eq!(fault(read_options(&strs(&["g", "x"]))), "Unknown option x.");
    assert_eq!(sound(read_options(&strs(&["g", "--project="]))).root, "");
}

#[test]
fn choosing_keeps_the_order_of_the_project() {
    let targets = config().targets;
    let chosen = sound(choose_targets(&targets, &Some("d, a,d".to_string())));
    let names: Vec<&str> = chosen.iter().map(|t| t.name.as_str()).collect();
    assert_eq!(names, vec!["a", "d"]);
    assert_eq!(sound(choose_targets(&targets, &None)).len(), 4);
    assert_eq!(
        fault(choose_targets(&targets, &Some("e,a".to_string()))),
        "Unknown target(s): e. This project configures: a, b, c, d."
    );
}

#[test]
fn requests_carry_contributions() {
    let input = "{\"elephentity\":1,\"irVersion\":\"1.1\",\"schema\":{\"a\":1},\"files\":{\"p\":[{\"path\":\"x\",\"body\":\"y\"}]}}";
    match read_input(input) {
        Intake::Accepted(request) => {
            assert_eq!(encode(&request.schema), "{\"a\":1}");
            assert_eq!(contributed_files(&request.contributions, "p").len(), 1);
            assert_eq!(contributed_files(&request.contributions, "q").len(), 0);
        }
        _ => panic!("not accepted"),
    }
    assert!(matches!(read_request(Err("e".to_string())), Intake::Refused(w) if w == "Not valid JSON: e"));
    assert!(matches!(read_input("{\"elephentity\":1,\"irVersion\":\"1.1\",\"schema\":[]}"), Intake::Refused(_)));
}

#[test]
fn a_plan_is_made_of_a_response() {
    let config = config();
    let request = match read_input("{\"elephentity\":1,\"irVersion\":\"1.1\",\"schema\":{},\"files\":{\"a\":[{\"path\":\"x\",\"body\":\"y\"}]}}") {
        Intake::Accepted(request) => request,
        _ => panic!("not accepted"),
    };
    let response = json("{\"headerStyle\":\"line-comment\",\"files\":[{\"path\":\"p\",\"body\":\"q\"}],\"extensions\":[\"ts\"]}");
    let plan = sound(make_plan("root/", &config, &request, &config.targets[0], &response));
    assert_eq!((plan.name.as_str(), plan.directory.as_str(), plan.style.as_str()), ("a", "root/out/", "line-comment"));
    let paths: Vec<&str> = plan.files.iter().map(|f| f.path.as_str()).collect();
    assert_eq!(paths, vec!["p", "x"]);
    assert_eq!(plan.extensions, strs(&["ts"]));
    assert_eq!(plan.reserved, strs(&["b", "b/c"]));
    assert_eq!(output_path("root/", &config.targets[1]), "root/out/b");
    assert_eq!(encode(&sound(read_provided("a", &response))), "{}");
    assert_eq!(
        fault(read_provided("a", &json("{\"provides\":null}"))),
        "[a] \"provides\" must be an object."
    );
}
