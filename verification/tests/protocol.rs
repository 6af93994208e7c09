//! Whole runs against a project that is held in memory.
use eleph_codegen::config::{Candidate, Probe};
use eleph_codegen::protocol::Outcome;
use eleph_codegen::run::begin;
use eleph_codegen::session::{Next, Reading};
use std::collections::BTreeMap;

/// What a builder does when it is run.
enum Builder {
    Answers(String),
    Exits(Option<i32>, Vec<u8>),
    CannotStart,
    NotExecutable,
}

/// A project: its files by path, its builders by path, and what they were sent.
struct World {
    files: BTreeMap<String, String>,
    builders: BTreeMap<String, Builder>,
    path: Vec<String>,
    sent: Vec<String>,
    unreadable: Vec<String>,
    touched: usize,
}

/// What a run left behind.
struct Output {
    code: i32,
    stdout: String,
    stderr: String,
}

fn plain(path: &str) -> String {
    let absolute = path.starts_with('/');
    let parts: Vec<&str> = path.split('/').filter(|p| !p.is_empty() && *p != ".").collect();
    let joined = parts.join("/");
    if absolute {
        format!("/{}", joined)
    } else {
        joined
    }
}

impl World {
    fn new() -> World {
        World {
            files: BTreeMap::new(),
            builders: BTreeMap::new(),
            path: Vec::new(),
            sent: Vec::new(),
            unreadable: Vec::new(),
            touched: 0,
        }
    }

    fn builder(&mut self, path: &str, response: &str) {
        self.builders.insert(plain(path), Builder::Answers(response.to_string()));
    }

    fn config(&mut self, targets: &str) {
        self.write("project/eleph.json", &format!("{{\"spec\":\"spec\",\"targets\":{}}}", targets));
    }

    fn write(&mut self, path: &str, contents: &str) {
        self.files.insert(plain(path), contents.to_string());
    }

    fn read(&self, path: &str) -> Option<String> {
        self.files.get(&plain(path)).cloned()
    }

    fn holds(&self, path: &str) -> bool {
        let path = plain(path);
        let inside = format!("{}/", path);
        self.files.keys().any(|p| *p == path || p.starts_with(&inside))
    }

    fn probe(&self, path: &str) -> Probe {
        match self.builders.get(&plain(path)) {
            None => Probe::Nothing,
            Some(Builder::NotExecutable) => {
                Probe::File { shown: path.to_string(), mode: Some(0o100644) }
            }
            Some(_) => Probe::File { shown: path.to_string(), mode: Some(0o100755) },
        }
    }

    fn place(&self, candidate: &Candidate, builder: &str) -> String {
        match candidate {
            Candidate::Project(path) => path.clone(),
            Candidate::OnPath(i) => format!("{}/{}", self.path[*i], builder),
        }
    }

    fn invoke(&mut self, args: &[&str], input: &str) -> Output {
        let args: Vec<String> = args.iter().map(|a| a.to_string()).collect();
        let mut stdout = String::new();
        let mut step = begin(&args);
        loop {
            stdout.push_str(&step.print);
            step = match step.next {
                Next::Exit { complaint, code } => {
                    return Output { code, stdout, stderr: complaint };
                }
                Next::Listen(state) => state.hear(input),
                Next::Configure(state) => {
                    let contents = self.read(&state.path());
                    state.configure(contents.as_deref())
                }
                Next::Resolve(work) => {
                    let builder = work.targets[work.next].builder.clone();
                    let probes: Vec<Probe> = work
                        .candidates(&self.path)
                        .iter()
                        .map(|c| self.probe(&self.place(c, &builder)))
                        .collect();
                    work.resolve(&probes)
                }
                Next::Ask(asking) => {
                    let builder = asking.work.targets[asking.work.next].builder.clone();
                    let candidates = asking.work.candidates(&self.path);
                    let path = plain(&self.place(&candidates[asking.program], &builder));
                    self.sent.push(asking.payload.clone());
                    let outcome = match &self.builders[&path] {
                        Builder::Answers(text) => Outcome::Finished {
                            success: true,
                            code: Some(0),
                            stdout: text.clone().into_bytes(),
                            stderr: Vec::new(),
                        },
                        Builder::Exits(code, stderr) => Outcome::Finished {
                            success: false,
                            code: *code,
                            stdout: Vec::new(),
                            stderr: stderr.clone(),
                        },
                        _ => Outcome::NotStarted("no such program".to_string()),
                    };
                    asking.answer(&outcome)
                }
                Next::Read(upkeep) => {
                    let path = plain(&format!("{}/{}", upkeep.directory(), upkeep.path()));
                    let reading = if self.unreadable.contains(&path) {
                        Reading::Failed { shown: path, words: "it is a directory".to_string() }
                    } else {
                        match self.read(&path) {
                            Some(text) => Reading::Contents(text),
                            None => Reading::Missing,
                        }
                    };
                    upkeep.find(reading)
                }
                Next::Write(writing) => {
                    self.touched += 1;
                    let path = format!("{}/{}", writing.upkeep.directory(), writing.path);
                    self.write(&path, &writing.contents);
                    writing.done()
                }
                Next::List(upkeep) => {
                    let inside = format!("{}/", plain(&upkeep.directory()));
                    let paths: Vec<String> = self
                        .files
                        .keys()
                        .rev()
                        .filter_map(|p| p.strip_prefix(&inside))
                        .map(|p| p.to_string())
                        .collect();
                    upkeep.list(&paths)
                }
                Next::Remove(removing) => {
                    self.touched += 1;
                    let path = format!("{}/{}", removing.upkeep.directory(), removing.path());
                    assert!(self.files.remove(&plain(&path)).is_some());
                    removing.done()
                }
            };
        }
    }
}

fn request() -> String {
    "{\"elephentity\":1,\"irVersion\":\"1.1\",\"schema\":{\"opaque\":\"the orchestrator must not inspect this\"}}".to_string()
}

fn response_with(path: &str, body: &str) -> String {
    format!(
        "{{\"elephentity\":1,\"irVersion\":\"1.1\",\"headerStyle\":\"php\",\"extensions\":[\"php\"],\"files\":[{{\"path\":\"{}\",\"body\":\"{}\"}}],\"errors\":[]}}",
        path, body
    )
}

fn response() -> String {
    response_with("Post.php", "namespace Fixture;\\n\\nfinal class Post\\n{\\n}\\n")
}

const PHP: &str = "{\"php\":{\"output\":\"generated\",\"builder\":\"./builder\"}}";

#[test]
fn rejects_unsupported_compiler_version() {
    let mut world = World::new();
    let output = world.invoke(
        &["generate"],
        "{\"elephentity\":1,\"irVersion\":\"99\",\"schema\":{}}",
    );
    assert_eq!(output.code, 2);
    assert_eq!(
        output.stdout,
        "IR version mismatch: this build emits 1.1, the other side speaks 99. There is no compatibility guarantee before 1.0; upgrade whichever side is behind.\n"
    );
}

#[test]
fn signs_checks_and_preserves_nested_targets() {
    let mut world = World::new();
    world.builder("project/builder", &response());
    world.config("{\"php\":{\"output\":\"generated\",\"builder\":\"./builder\"},\"nested\":{\"output\":\"generated/nested\",\"builder\":\"./builder\"}}");
    let output = world.invoke(&["generate", "--project", "project"], &request());
    assert_eq!(output.code, 0, "{}", output.stderr);
    assert_eq!(
        output.stdout,
        "php: 1 file(s): 1 created, 0 updated, 0 unchanged, 0 removed.\nnested: 1 file(s): 1 created, 0 updated, 0 unchanged, 0 removed.\n2 target(s) generated.\n"
    );
    let signed = world.read("project/generated/Post.php").unwrap();
    assert!(signed
        .contains("sha256:cff42c4dd731d4940868532b99381523560408f85b8d8d103321e24bc02cde0f"));
    let output = world.invoke(&["generate", "--project", "project", "--check"], &request());
    assert_eq!(output.code, 0);
    assert_eq!(output.stdout, "Every target is up to date (2 target(s), 2 files).\n");
    world.write(
        "project/generated/Post.php",
        &signed.replace("class Post", "class Edited"),
    );
    let before = world.read("project/generated/Post.php");
    let output = world.invoke(&["generate", "--project", "project", "--check"], &request());
    assert_eq!(output.code, 1);
    assert!(output.stdout.contains("Hand-edited"));
    assert_eq!(
        output.stdout,
        "php — 1 file(s) differ\nHand-edited:\n  Post.php\nWould be updated:\n  Post.php\n1 of 2 target(s) are out of date.\nRun eleph generate and commit the result.\n"
    );
    assert_eq!(before, world.read("project/generated/Post.php"));
    world.write("project/generated/stale.php", "old");
    world.write("project/generated/notes.txt", "keep");
    world.write("project/generated/nested/extra.php", "reserved");
    let output = world.invoke(
        &["generate", "--project", "project", "--targets", "php"],
        &request(),
    );
    assert_eq!(output.code, 0);
    assert_eq!(
        output.stdout,
        "[php] Post.php had been edited by hand; it has been regenerated.\nphp: 1 file(s): 0 created, 1 updated, 0 unchanged, 1 removed.\n1 target(s) generated.\n"
    );
    assert!(!world.holds("project/generated/stale.php"));
    assert!(world.holds("project/generated/notes.txt"));
    assert!(world.holds("project/generated/nested/extra.php"));
    assert_eq!(world.read("project/generated/Post.php"), Some(signed));
}

#[test]
fn pools_errors_before_writing_any_target() {
    let mut world = World::new();
    world.builder("project/good", &response());
    world.builder("project/bad-a", "{\"elephentity\":1,\"irVersion\":\"1.1\",\"headerStyle\":\"php\",\"errors\":[\"first failure\"]}");
    world.builder("project/bad-b", "{\"elephentity\":1,\"irVersion\":\"1.1\",\"headerStyle\":\"php\",\"errors\":[\"second failure\"]}");
    world.config("{\"good\":{\"output\":\"good-out\",\"builder\":\"./good\"},\"a\":{\"output\":\"a-out\",\"builder\":\"./bad-a\"},\"b\":{\"output\":\"b-out\",\"builder\":\"./bad-b\"}}");
    let output = world.invoke(&["generate", "--project", "project"], &request());
    assert_eq!(output.code, 1);
    assert!(output.stdout.contains("first failure") && output.stdout.contains("second failure"));
    assert_eq!(
        output.stdout,
        "2 problem(s) with the targets; nothing was generated.\n  [a] first failure\n  [b] second failure\n"
    );
    assert!(!world.holds("project/good-out"));
    assert_eq!(world.touched, 0);
}

#[test]
fn rejects_paths_outside_output_and_forwards_large_payloads_without_deadlock() {
    let mut world = World::new();
    world.config(PHP);
    world.builder(
        "project/builder",
        &response_with("../escape.php", "namespace Fixture;\\n\\nfinal class Post\\n{\\n}\\n"),
    );
    let output = world.invoke(&["generate", "--project", "project"], &request());
    assert_ne!(output.code, 0);
    assert!(output.stdout.contains("File path \"../escape.php\" escapes the output directory."));
    assert!(!world.holds("project/escape.php"));
    world.builder("project/builder", &response_with("Post.php", &"x".repeat(256 * 1024)));
    let input = format!(
        "{{\"elephentity\":1,\"irVersion\":\"1.1\",\"schema\":{{\"opaque\":\"the orchestrator must not inspect this\",\"large\":\"{}\"}}}}",
        "y".repeat(256 * 1024)
    );
    let output = world.invoke(&["generate", "--project", "project"], &input);
    assert_eq!(output.code, 0);
    assert!(world.sent[1].contains(&"y".repeat(256 * 1024)));
    assert!(world.read("project/generated/Post.php").unwrap().len() > 256 * 1024);
}

#[test]
fn sends_a_generate_message_with_the_schema_unread() {
    let mut world = World::new();
    world.write(
        "project/eleph.json",
        "{\"spec\":\"spec\",\"targets\":{\"php\":{\"output\":\"generated/\",\"builder\":\"./builder\",\"namespace\":\"App\"}}}",
    );
    world.builder("project/builder", &response());
    let input = "{\"schema\":{\"z\":1,\"a\":[1.5,-2,null,{\"k\":true}]},\"irVersion\":\"1.1\",\"elephentity\":1}";
    assert_eq!(world.invoke(&["generate", "-p", "project/"], input).code, 0);
    assert_eq!(
        world.sent,
        vec!["{\"elephentity\":1,\"irVersion\":\"1.1\",\"request\":\"generate\",\"target\":\"php\",\"config\":{\"output\":\"generated/\",\"builder\":\"./builder\",\"namespace\":\"App\"},\"outputDirectory\":\"project/generated/\",\"schema\":{\"z\":1,\"a\":[1.5,-2,null,{\"k\":true}]}}".to_string()]
    );
}

#[test]
fn contributed_files_are_written_with_the_target_they_are_for() {
    let mut world = World::new();
    world.config(PHP);
    world.builder("project/builder", &response());
    let input = "{\"elephentity\":1,\"irVersion\":\"1.1\",\"schema\":{},\"files\":{\"php\":[{\"path\":\"Extra.php\",\"body\":\"b\"}],\"other\":[{\"path\":\"Not.php\",\"body\":\"\"}]}}";
    let output = world.invoke(&["generate", "--project=project"], input);
    assert_eq!(output.code, 0);
    assert!(world.holds("project/generated/Extra.php"));
    assert!(world.holds("project/generated/Post.php"));
    assert!(!world.holds("project/generated/Not.php"));
    let bad = "{\"elephentity\":1,\"irVersion\":\"1.1\",\"schema\":{},\"files\":{\"php\":[{\"path\":\"/Extra.php\",\"body\":\"b\"}]}}";
    let output = world.invoke(&["generate", "--project=project"], bad);
    assert_eq!(output.code, 1);
    assert_eq!(output.stdout, "");
    assert_eq!(
        output.stderr,
        "File path \"/Extra.php\" escapes the output directory.\n"
    );
}

#[test]
fn help_is_printed_without_a_command() {
    let help = "eleph-codegen\n\nCommands: generate, describe, targets, doctor\nOptions: --project PATH, --targets NAMES, --check\n";
    let mut world = World::new();
    for args in [&[][..], &["help"][..], &["--help"][..], &["list", "--check"][..]] {
        let output = world.invoke(args, "");
        assert_eq!((output.code, output.stdout.as_str(), output.stderr.as_str()), (0, help, ""));
    }
}

#[test]
fn targets_are_listed_in_the_order_of_the_project() {
    let mut world = World::new();
    world.config("{\"ts\":{\"output\":\"b\",\"builder\":\"y\"},\"php\":{\"output\":\"a/\",\"builder\":\"x\"}}");
    let output = world.invoke(&["targets", "--project", "project"], "");
    assert_eq!(output.code, 0);
    assert_eq!(
        output.stdout,
        "{\"spec\":\"spec\",\"targets\":{\"ts\":{\"output\":\"b\",\"builder\":\"y\"},\"php\":{\"output\":\"a/\",\"builder\":\"x\"}}}\n"
    );
}

#[test]
fn doctor_tells_where_each_builder_is() {
    let mut world = World::new();
    world.config("{\"php\":{\"output\":\"generated\",\"builder\":\"gen-php\"},\"ts\":{\"output\":\"ts\",\"builder\":\"gen-ts\"}}");
    world.path = vec!["".to_string(), "/usr/bin".to_string(), "/opt/bin".to_string()];
    world.builder("/opt/bin/gen-php", "");
    world.builder("project/tools/builders/gen-ts", "");
    world.builder("/usr/bin/gen-ts", "");
    let output = world.invoke(&["doctor", "--project", "project"], "");
    assert_eq!(output.code, 0);
    assert_eq!(
        output.stdout,
        "eleph-codegen speaks protocol 1, IR 1.1.\n  php → /opt/bin/gen-php (writes generated)\n  ts → project/tools/builders/gen-ts (writes ts)\n2 target(s) ready.\n"
    );
    assert!(world.sent.is_empty());
}

#[test]
fn doctor_pools_what_is_wrong_with_the_builders() {
    let mut world = World::new();
    world.config("{\"php\":{\"output\":\"generated\",\"builder\":\"gen-php\"},\"ts\":{\"output\":\"ts\",\"builder\":\"./gen-ts\"}}");
    world.builders.insert("project/gen-ts".to_string(), Builder::NotExecutable);
    let output = world.invoke(&["doctor", "--project", "project"], "");
    assert_eq!(output.code, 1);
    assert_eq!(
        output.stdout,
        "eleph-codegen speaks protocol 1, IR 1.1.\n2 problem(s) with the targets; nothing was generated.\n  No builder \"gen-php\" for target \"php\". Looked in:\n  project/tools/builders/gen-php\n  anywhere on PATH\nInstall it and put it where one of those points; Elephentity does not fetch builders.\n  The builder for target \"ts\" is at project/./gen-ts but is not executable. Try `chmod +x project/./gen-ts`.\n"
    );
}

#[test]
fn builders_describe_themselves() {
    let mut world = World::new();
    world.config("{\"php\":{\"output\":\"a\",\"builder\":\"./one\"},\"ts\":{\"output\":\"b\",\"builder\":\"./two\"}}");
    world.builder("project/one", "{\"elephentity\":1,\"irVersion\":\"1.1\",\"provides\":{\"k\":[1]}}");
    world.builder("project/two", "{\"elephentity\":1,\"irVersion\":\"1.1\"}");
    let output = world.invoke(&["describe", "--project", "project"], "");
    assert_eq!(output.code, 0);
    assert_eq!(
        output.stdout,
        "{\"elephentity\":1,\"irVersion\":\"1.1\",\"targets\":{\"php\":{\"k\":[1]},\"ts\":{}}}\n"
    );
    assert_eq!(
        world.sent[0],
        "{\"elephentity\":1,\"irVersion\":\"1.1\",\"request\":\"describe\",\"target\":\"php\"}"
    );
}

#[test]
fn descriptions_that_fail_are_told_on_the_error_output() {
    let mut world = World::new();
    world.config("{\"php\":{\"output\":\"a\",\"builder\":\"./one\"},\"ts\":{\"output\":\"b\",\"builder\":\"./two\"}}");
    world.builder("project/one", "{\"elephentity\":1,\"irVersion\":\"1.1\",\"provides\":3}");
    world.builders.insert(
        "project/two".to_string(),
        Builder::Exits(Some(3), b" \xffno schema\n".to_vec()),
    );
    let output = world.invoke(&["describe", "--project", "project"], "");
    assert_eq!(output.code, 1);
    assert_eq!(output.stdout, "");
    assert_eq!(
        output.stderr,
        "[php] \"provides\" must be an object.\n[ts] The ts builder could not describe itself: project/./two exited 3.\n  \u{fffd}no schema\n  A builder must answer a \"describe\" request; one written before describe existed reads it as a generate and fails on the missing schema.\n"
    );
}

#[test]
fn builders_that_send_nothing_usable_are_faults() {
    let mut world = World::new();
    world.config(PHP);
    let cases: Vec<(Builder, &str)> = vec![
        (Builder::CannotStart, "The php builder sent something unusable: Could not run project/./builder: no such program"),
        (Builder::Exits(None, Vec::new()), "The php builder sent something unusable: project/./builder exited -1.\n  "),
        (Builder::Answers("[]".to_string()), "The php builder sent something unusable: Expected a JSON object."),
        (Builder::Answers("{\"elephentity\":2}".to_string()), "The php builder sent something unusable: Protocol version mismatch: this build speaks 1, the other side speaks 2."),
        (Builder::Answers("{\"elephentity\":1,\"irVersion\":\"1.1\",\"headerStyle\":\"hash\"}".to_string()), "The response declares header style \"hash\", which this build does not know."),
        (Builder::Answers("{\"elephentity\":1,\"irVersion\":\"1.1\"}".to_string()), "The response declares header style null, which this build does not know."),
        (Builder::Answers("{\"elephentity\":1,\"irVersion\":\"1.1\",\"headerStyle\":\"php\",\"errors\":3}".to_string()), "\"errors\" must be a list of strings."),
        (Builder::Answers("{\"elephentity\":1,\"irVersion\":\"1.1\",\"headerStyle\":\"php\",\"errors\":[\"a\",\"b\"]}".to_string()), "a\nb"),
        (Builder::Answers("{\"elephentity\":1,\"irVersion\":\"1.1\",\"headerStyle\":\"php\"}".to_string()), "Every file must be an object with \"path\" and \"body\"."),
        (Builder::Answers("{\"elephentity\":1,\"irVersion\":\"1.1\",\"headerStyle\":\"php\",\"files\":[],\"extensions\":[1]}".to_string()), "\"extensions\" must be a list of strings."),
    ];
    for (builder, fault) in cases {
        world.builders.insert("project/builder".to_string(), builder);
        let output = world.invoke(&["generate", "--project", "project"], &request());
        assert_eq!(output.code, 1);
        assert_eq!(
            output.stdout,
            format!("1 problem(s) with the targets; nothing was generated.\n  [php] {}\n", fault)
        );
    }
    assert_eq!(world.touched, 0);
}

#[test]
fn an_input_that_is_no_request_is_refused() {
    let mut world = World::new();
    let cases = [
        ("", "Expected a compiled spec on stdin. `eleph-codegen generate` is run by `eleph generate`, which compiles the specs and pipes them in.\n"),
        (" \n\u{2003}", "Expected a compiled spec on stdin. `eleph-codegen generate` is run by `eleph generate`, which compiles the specs and pipes them in.\n"),
        ("{", "Not valid JSON: EOF while parsing an object at line 1 column 1\n"),
        ("3", "Expected a JSON object.\n"),
        ("{}", "Protocol version mismatch: this build speaks 1, the other side speaks null.\n"),
        ("{\"elephentity\":true}", "Protocol version mismatch: this build speaks 1, the other side speaks true.\n"),
        ("{\"elephentity\":{}}", "Protocol version mismatch: this build speaks 1, the other side speaks array.\n"),
        ("{\"elephentity\":1.0}", "Protocol version mismatch: this build speaks 1, the other side speaks 1.0.\n"),
        ("{\"elephentity\":1,\"irVersion\":\"1.1\"}", "The request carries no schema.\n"),
    ];
    for (input, words) in cases {
        let output = world.invoke(&["generate"], input);
        assert_eq!((output.code, output.stdout.as_str(), output.stderr.as_str()), (2, words, ""));
    }
    let cases = [
        ("[]", "\"files\" must be an object keyed by target.\n"),
        ("{\"\":[]}", "Every entry in \"files\" must be keyed by target name.\n"),
        ("{\"php\":[{}]}", "Every file contributed to \"php\" must be an object with \"path\" and \"body\".\n"),
    ];
    for (files, words) in cases {
        let input = format!(
            "{{\"elephentity\":1,\"irVersion\":\"1.1\",\"schema\":{{}},\"files\":{}}}",
            files
        );
        let output = world.invoke(&["generate"], &input);
        assert_eq!((output.code, output.stdout.as_str(), output.stderr.as_str()), (1, "", words));
    }
}

#[test]
fn options_that_are_not_known_are_faults() {
    let mut world = World::new();
    world.config(PHP);
    let cases: Vec<(&[&str], &str)> = vec![
        (&["generate", "--fast"], "Unknown option --fast.\n"),
        (&["generate", "-p"], "--project must be a directory path.\n"),
        (&["generate", "-t"], "--targets needs at least one target name.\n"),
        (&["conjure", "-p", "project", "-n", "--no-ansi"], "Unknown command conjure.\n"),
        (&["targets", "-p", "elsewhere"], "No eleph.json in \"elsewhere\". It needs \"spec\" and a \"targets\" block.\n"),
    ];
    for (args, words) in cases {
        let output = world.invoke(args, "");
        assert_eq!((output.code, output.stdout.as_str(), output.stderr.as_str()), (1, "", words));
    }
}

#[test]
fn targets_are_chosen_by_name() {
    let mut world = World::new();
    world.config("{\"php\":{\"output\":\"a\",\"builder\":\"./b\"},\"ts\":{\"output\":\"c\",\"builder\":\"./b\"},\"go\":{\"output\":\"d\",\"builder\":\"./b\"}}");
    world.builder("project/b", "");
    let output = world.invoke(&["doctor", "-p", "project", "--targets= go , ,php"], "");
    assert_eq!(
        output.stdout,
        "eleph-codegen speaks protocol 1, IR 1.1.\n  php → project/./b (writes a)\n  go → project/./b (writes d)\n3 target(s) ready.\n"
    );
    let output = world.invoke(&["doctor", "-p", "project", "-t", "go,rust,c"], "");
    assert_eq!(output.code, 2);
    assert_eq!(
        output.stdout,
        "Unknown target(s): rust, c. This project configures: php, ts, go.\n"
    );
    let output = world.invoke(&["doctor", "-p", "project", "-t", " , "], "");
    assert_eq!(output.code, 2);
    assert_eq!(output.stdout, "--targets needs at least one target name.\n");
}

#[test]
fn a_file_that_cannot_be_read_ends_the_run() {
    let mut world = World::new();
    world.config(PHP);
    world.builder("project/builder", &response());
    world.unreadable.push("project/generated/Post.php".to_string());
    let output = world.invoke(&["generate", "-p", "project"], &request());
    assert_eq!(output.code, 1);
    assert_eq!(
        output.stderr,
        "Cannot read project/generated/Post.php: it is a directory\n"
    );
    assert_eq!(world.touched, 0);
}

#[test]
fn a_check_tells_what_generating_then_does() {
    let mut world = World::new();
    world.config(PHP);
    world.builder("project/builder", &response());
    world.write("project/generated/b.php", "");
    world.write("project/generated/a.php", "");
    let before = world.files.clone();
    let output = world.invoke(&["generate", "-p", "project", "--check"], &request());
    assert_eq!(output.code, 1);
    assert_eq!(
        output.stdout,
        "php — 3 file(s) differ\nWould be created:\n  Post.php\nNo longer produced by the schema:\n  a.php\n  b.php\n1 of 1 target(s) are out of date.\nRun eleph generate and commit the result.\n"
    );
    assert_eq!((world.touched, before), (0, world.files.clone()));
    let output = world.invoke(&["generate", "-p", "project"], &request());
    assert_eq!(
        output.stdout,
        "php: 1 file(s): 1 created, 0 updated, 0 unchanged, 2 removed.\n1 target(s) generated.\n"
    );
    assert_eq!(world.touched, 3);
    let output = world.invoke(&["generate", "-p", "project", "--check"], &request());
    assert_eq!(output.stdout, "Every target is up to date (1 target(s), 1 files).\n");
    assert_eq!(world.touched, 3);
}

#[test]
fn a_second_run_changes_nothing_for_nested_targets() {
    for outputs in [("generated", "generated/nested"), ("generated/", "generated//nested/")] {
        let mut world = World::new();
        world.builder("project/builder", &response());
        world.config(&format!(
            "{{\"php\":{{\"output\":\"{}\",\"builder\":\"./builder\"}},\"nested\":{{\"output\":\"{}\",\"builder\":\"./builder\"}}}}",
            outputs.0, outputs.1
        ));
        assert_eq!(world.invoke(&["generate", "-p", "project"], &request()).code, 0);
        assert_eq!(world.touched, 2);
        let before = world.files.clone();
        let output = world.invoke(&["generate", "-p", "project", "--check"], &request());
        assert_eq!(output.code, 0);
        assert_eq!(output.stdout, "Every target is up to date (2 target(s), 2 files).\n");
        let output = world.invoke(&["generate", "-p", "project"], &request());
        assert_eq!(output.code, 0);
        assert_eq!(
            output.stdout,
            "php: 1 file(s): 0 created, 0 updated, 1 unchanged, 0 removed.\nnested: 1 file(s): 0 created, 0 updated, 1 unchanged, 0 removed.\n2 target(s) generated.\n"
        );
        assert_eq!((world.touched, before), (2, world.files.clone()));
    }
}

#[test]
fn a_nested_output_that_is_not_written_plainly_is_not_reserved() {
    let mut world = World::new();
    world.builder("project/builder", &response());
    world.config("{\"php\":{\"output\":\"generated\",\"builder\":\"./builder\"},\"nested\":{\"output\":\"generated/./nested\",\"builder\":\"./builder\"}}");
    assert_eq!(world.invoke(&["generate", "-p", "project"], &request()).code, 0);
    let output = world.invoke(&["generate", "-p", "project", "--check"], &request());
    assert_eq!(output.code, 1);
    assert!(output.stdout.contains("No longer produced by the schema:\n  nested/Post.php\n"));
}

#[test]
fn an_output_that_is_not_reserved_is_left_alone_where_it_is_not_owned() {
    let mut world = World::new();
    world.builder("project/php", &response());
    world.builder(
        "project/ts",
        "{\"elephentity\":1,\"irVersion\":\"1.1\",\"headerStyle\":\"line-comment\",\"extensions\":[\"ts\"],\"files\":[{\"path\":\"post.ts\",\"body\":\"\"}]}",
    );
    world.config("{\"php\":{\"output\":\"generated\",\"builder\":\"./php\"},\"ts\":{\"output\":\"generated/./nested\",\"builder\":\"./ts\"}}");
    assert_eq!(world.invoke(&["generate", "-p", "project"], &request()).code, 0);
    let output = world.invoke(&["generate", "-p", "project", "--check"], &request());
    assert_eq!(output.code, 0);
    assert!(world.holds("project/generated/nested/post.ts"));
}

#[test]
fn doctor_tells_the_errors_behind_the_builders_that_are_ready() {
    let mut world = World::new();
    world.config("{\"a\":{\"output\":\"a\",\"builder\":\"./x\"},\"b\":{\"output\":\"b\",\"builder\":\"./y\"}}");
    world.builder("project/y", "");
    let output = world.invoke(&["doctor", "-p", "project"], "");
    assert_eq!(output.code, 1);
    assert_eq!(
        output.stdout,
        "eleph-codegen speaks protocol 1, IR 1.1.\n  b → project/./y (writes b)\n1 problem(s) with the targets; nothing was generated.\n  No builder \"./x\" for target \"a\". Looked in:\n  project/./x\nInstall it and put it where one of those points; Elephentity does not fetch builders.\n"
    );
    world.builder("project/x", "");
    assert_eq!(world.invoke(&["doctor", "-p", "project"], "").code, 0);
}
