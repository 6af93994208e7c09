//! A project's configuration: its targets, and where their builders are.
use vstd::prelude::*;
use crate::codec::decode;
#[allow(unused_imports)]
use crate::codec::{json_decoded, json_result};
use crate::json::{string_at, Json};
#[allow(unused_imports)]
use crate::json::{a_member_of_a_sound_value_is_sound, distinct_keys, members_view, JsonView};
use crate::protocol::expect_object;
#[allow(unused_imports)]
use crate::protocol::object_expected;
use crate::text::{begins_with, has_char, join, same, strip, trim, trim_end};
#[allow(unused_imports)]
use crate::text::{joined, stripped, texts, trimmed, trimmed_end};

verus! {

/// A target: what is generated, where to, by which builder, and all that the
/// project sets for it.
pub struct Target {
    pub name: String,
    pub output: String,
    pub builder: String,
    pub settings: Json,
}

/// What a [`Target`] holds.
pub struct TargetView {
    pub name: Seq<char>,
    pub output: Seq<char>,
    pub builder: Seq<char>,
    pub settings: JsonView,
}

impl View for Target {
    type V = TargetView;

    open spec fn view(&self) -> TargetView {
        TargetView {
            name: self.name@,
            output: self.output@,
            builder: self.builder@,
            settings: self.settings@,
        }
    }
}

impl TargetView {
    /// The directory that the target writes to.
    pub open spec fn directory(self) -> Seq<char> {
        trimmed_end(self.output, '/')
    }
}

/// What a list of targets holds.
pub open spec fn targets_view(targets: Seq<Target>) -> Seq<TargetView> {
    targets.map_values(|target: Target| target@)
}

/// A project's configuration.
pub struct Config {
    pub spec: String,
    pub targets: Vec<Target>,
    pub builders: String,
}

/// What a [`Config`] holds.
pub struct ConfigView {
    pub spec: Seq<char>,
    pub targets: Seq<TargetView>,
    pub builders: Seq<char>,
}

impl View for Config {
    type V = ConfigView;

    open spec fn view(&self) -> ConfigView {
        ConfigView {
            spec: self.spec@,
            targets: targets_view(self.targets@),
            builders: self.builders@,
        }
    }
}

/// Whether no two targets write to one directory.
pub open spec fn directories_apart(targets: Seq<TargetView>) -> bool {
    forall|i: int, j: int|
        0 <= i < j < targets.len() ==> targets[i].directory() != targets[j].directory()
}

/// Whether no two targets have one name.
pub open spec fn names_apart(targets: Seq<TargetView>) -> bool {
    forall|i: int, j: int| 0 <= i < j < targets.len() ==> targets[i].name != targets[j].name
}

impl ConfigView {
    /// Whether the configuration is one that a project can have: it names its
    /// specs and its builders' directory, and has at least one target; each
    /// target has an output and a builder, and a directory of its own.
    pub open spec fn sound(self) -> bool {
        &&& self.spec.len() > 0
        &&& self.builders.len() > 0
        &&& self.targets.len() > 0
        &&& forall|i: int|
            0 <= i < self.targets.len() ==> (#[trigger] self.targets[i]).output.len() > 0
                && self.targets[i].builder.len() > 0
        &&& directories_apart(self.targets)
    }
}

/// What is wrong with a target as the project sets it, if anything is.
pub open spec fn target_fault(name: Seq<char>, settings: JsonView) -> Option<Seq<char>> {
    if !(settings is Object) {
        Some("Target \""@ + name + "\" must be an object."@)
    } else if settings.at("output"@).string().len() == 0 {
        Some("Target \""@ + name + "\" must set \"output\" to a non-empty string."@)
    } else if settings.at("builder"@).string().len() == 0 {
        Some(
            "Target \""@ + name
                + "\" must set \"builder\" to the program that generates it. Elephentity compiles the spec and generates nothing itself, so a target with no builder is one nothing can produce."@,
        )
    } else {
        None
    }
}

/// The target that the project sets.
pub open spec fn target_set(name: Seq<char>, settings: JsonView) -> TargetView {
    TargetView {
        name,
        output: settings.at("output"@).string(),
        builder: settings.at("builder"@).string(),
        settings,
    }
}

/// The targets that the project sets, without the faulty ones.
pub open spec fn targets_set(members: Seq<(Seq<char>, JsonView)>) -> Seq<TargetView>
    decreases members.len(),
{
    if members.len() == 0 {
        Seq::empty()
    } else {
        let before = targets_set(members.drop_last());
        let (name, settings) = members.last();
        if target_fault(name, settings) is None {
            before.push(target_set(name, settings))
        } else {
            before
        }
    }
}

/// What is wrong with the faulty targets.
pub open spec fn target_faults(members: Seq<(Seq<char>, JsonView)>) -> Seq<Seq<char>>
    decreases members.len(),
{
    if members.len() == 0 {
        Seq::empty()
    } else {
        let before = target_faults(members.drop_last());
        let (name, settings) = members.last();
        match target_fault(name, settings) {
            Some(fault) => before.push(fault),
            None => before,
        }
    }
}

/// The names of the targets that write to a directory.
pub open spec fn names_in(targets: Seq<TargetView>, directory: Seq<char>) -> Seq<Seq<char>>
    decreases targets.len(),
{
    if targets.len() == 0 {
        Seq::empty()
    } else {
        let before = names_in(targets.drop_last(), directory);
        if targets.last().directory() == directory {
            before.push(targets.last().name)
        } else {
            before
        }
    }
}

/// Whether target `n` is the first that writes to its directory.
pub open spec fn first_in_directory(targets: Seq<TargetView>, n: int) -> bool {
    forall|i: int| 0 <= i < n ==> (#[trigger] targets[i]).directory() != targets[n].directory()
}

/// The complaint about targets that write to one directory.
pub open spec fn shared_complaint(names: Seq<Seq<char>>, directory: Seq<char>) -> Seq<char> {
    "Targets "@ + joined(names, " and "@) + " all write to \""@ + directory
        + "\". Each target needs its own output directory, because generating one deletes whatever it does not produce."@
}

/// The complaints about the directories of the first `n` targets to which more
/// than one target writes, each once and in the order of their first targets.
pub open spec fn shared_faults(targets: Seq<TargetView>, n: nat) -> Seq<Seq<char>>
    decreases n,
{
    if n == 0 {
        Seq::empty()
    } else {
        let before = shared_faults(targets, (n - 1) as nat);
        let directory = targets[n - 1].directory();
        let names = names_in(targets, directory);
        if first_in_directory(targets, n - 1) && names.len() > 1 {
            before.push(shared_complaint(names, directory))
        } else {
            before
        }
    }
}

/// The targets that a configuration sets.
pub open spec fn config_targets(value: JsonView) -> Seq<TargetView> {
    match value.at("targets"@) {
        JsonView::Object(members) => targets_set(members),
        _ => Seq::empty(),
    }
}

/// All that is wrong with a configuration.
pub open spec fn config_faults(value: JsonView) -> Seq<Seq<char>> {
    let none = Seq::<Seq<char>>::empty();
    let spec_faults = if value.at("spec"@).string().len() == 0 {
        none.push("\"spec\" must be a non-empty string."@)
    } else {
        none
    };
    let block_faults = match value.at("targets"@) {
        JsonView::Object(members) => if members.len() > 0 {
            target_faults(members)
        } else {
            none.push("\"targets\" must be an object with at least one target in it."@)
        },
        _ => none.push("\"targets\" must be an object with at least one target in it."@),
    };
    spec_faults + block_faults + shared_faults(config_targets(value), config_targets(value).len())
}

/// Where the builders are that a configuration does not say it of.
pub open spec fn builders_set(value: JsonView) -> Seq<char> {
    if value.at("builders"@).string().len() > 0 {
        value.at("builders"@).string()
    } else {
        "tools/builders"@
    }
}

/// The configuration that a value sets, or all that is wrong with it.
pub open spec fn config_read(path: Seq<char>, value: JsonView) -> Result<ConfigView, Seq<char>> {
    if config_faults(value).len() > 0 {
        Err(path + " is not usable:\n  "@ + joined(config_faults(value), "\n  "@))
    } else {
        Ok(
            ConfigView {
                spec: value.at("spec"@).string(),
                targets: config_targets(value),
                builders: builders_set(value),
            },
        )
    }
}

/// The path of a project's configuration.
pub open spec fn config_path(root: Seq<char>) -> Seq<char> {
    trimmed_end(root, '/') + "/eleph.json"@
}

/// The complaint about a project without a configuration.
pub open spec fn no_config(root: Seq<char>) -> Seq<char> {
    "No eleph.json in \""@ + root + "\". It needs \"spec\" and a \"targets\" block."@
}

/// The configuration of a project, from what was read at its path.
pub open spec fn config_loaded(root: Seq<char>, decoded: Result<JsonView, Seq<char>>) -> Result<
    ConfigView,
    Seq<char>,
> {
    match object_expected(decoded) {
        Err(fault) => Err(fault),
        Ok(value) => config_read(config_path(root), value),
    }
}

/// What a loading of a configuration comes to.
pub open spec fn config_result(result: Result<Config, String>) -> Result<ConfigView, Seq<char>> {
    match result {
        Ok(config) => Ok(config@),
        Err(fault) => Err(fault@),
    }
}

/// Reads one target as the project sets it.
fn read_target(name: &str, settings: &Json) -> (result: Result<Target, String>)
    ensures
        match target_fault(name@, settings@) {
            Some(fault) => result is Err && result->Err_0@ == fault,
            None => result is Ok && result->Ok_0@ == target_set(name@, settings@),
        },
{
    let mut fault = "Target \"".to_owned();
    fault.append(name);
    if !settings.is_object() {
        fault.append("\" must be an object.");
        return Err(fault);
    }
    let output = string_at(settings, "output");
    let builder = string_at(settings, "builder");
    if output.as_str().is_empty() {
        fault.append("\" must set \"output\" to a non-empty string.");
        return Err(fault);
    }
    if builder.as_str().is_empty() {
        fault.append(
            "\" must set \"builder\" to the program that generates it. Elephentity compiles the spec and generates nothing itself, so a target with no builder is one nothing can produce.",
        );
        return Err(fault);
    }
    Ok(Target { name: name.to_owned(), output, builder, settings: settings.duplicate() })
}

/// Reads the targets that a project sets: the sound ones, and what is wrong
/// with the others.
fn read_targets(members: &Vec<(String, Json)>) -> (result: (Vec<Target>, Vec<String>))
    ensures
        targets_view(result.0@) == targets_set(members_view(members@)),
        texts(result.1@) == target_faults(members_view(members@)),
{
    let ghost all = members_view(members@);
    let mut targets: Vec<Target> = Vec::new();
    let mut faults: Vec<String> = Vec::new();
    let mut i: usize = 0;
    assert(targets_view(targets@) =~= Seq::empty());
    assert(texts(faults@) =~= Seq::empty());
    while i < members.len()
        invariant
            i <= members@.len(),
            all == members_view(members@),
            targets_view(targets@) == targets_set(all.take(i as int)),
            texts(faults@) == target_faults(all.take(i as int)),
        decreases members@.len() - i,
    {
        assert(all.take(i + 1).drop_last() =~= all.take(i as int));
        assert(all.take(i + 1).last() == all[i as int]);
        match read_target(members[i].0.as_str(), &members[i].1) {
            Ok(target) => {
                let ghost before = targets_view(targets@);
                targets.push(target);
                assert(targets_view(targets@) =~= before.push(target@));
            },
            Err(fault) => {
                let ghost before = texts(faults@);
                faults.push(fault);
                assert(texts(faults@) =~= before.push(fault@));
            },
        }
        i += 1;
    }
    assert(all.take(i as int) =~= all);
    (targets, faults)
}

/// The names of the targets that write to a directory.
fn names_sharing(targets: &Vec<Target>, directory: &str) -> (names: Vec<String>)
    ensures
        texts(names@) == names_in(targets_view(targets@), directory@),
{
    let ghost all = targets_view(targets@);
    let mut names: Vec<String> = Vec::new();
    let mut i: usize = 0;
    assert(texts(names@) =~= Seq::empty());
    while i < targets.len()
        invariant
            i <= targets@.len(),
            all == targets_view(targets@),
            texts(names@) == names_in(all.take(i as int), directory@),
        decreases targets@.len() - i,
    {
        assert(all.take(i + 1).drop_last() =~= all.take(i as int));
        assert(all.take(i + 1).last() == targets@[i as int]@);
        if same(trim_end(targets[i].output.as_str(), '/').as_str(), directory) {
            let ghost before = texts(names@);
            names.push(targets[i].name.clone());
            assert(texts(names@) =~= before.push(targets@[i as int]@.name));
        }
        i += 1;
    }
    assert(all.take(i as int) =~= all);
    names
}

/// Whether target `n` is the first that writes to its directory.
fn is_first(targets: &Vec<Target>, n: usize, directory: &str) -> (yes: bool)
    requires
        n < targets@.len(),
        directory@ == targets@[n as int]@.directory(),
    ensures
        yes == first_in_directory(targets_view(targets@), n as int),
{
    let ghost all = targets_view(targets@);
    let mut i: usize = 0;
    while i < n
        invariant
            i <= n < targets@.len(),
            all == targets_view(targets@),
            directory@ == all[n as int].directory(),
            forall|j: int| 0 <= j < i ==> (#[trigger] all[j]).directory() != directory@,
        decreases n - i,
    {
        assert(all[i as int] == targets@[i as int]@);
        if same(trim_end(targets[i].output.as_str(), '/').as_str(), directory) {
            return false;
        }
        i += 1;
    }
    true
}

/// The complaints about the directories to which more than one target writes.
fn find_shared(targets: &Vec<Target>) -> (faults: Vec<String>)
    ensures
        texts(faults@) == shared_faults(targets_view(targets@), targets@.len()),
{
    let ghost all = targets_view(targets@);
    let mut faults: Vec<String> = Vec::new();
    let mut i: usize = 0;
    assert(texts(faults@) =~= Seq::empty());
    while i < targets.len()
        invariant
            i <= targets@.len(),
            all == targets_view(targets@),
            texts(faults@) == shared_faults(all, i as nat),
        decreases targets@.len() - i,
    {
        assert(all[i as int] == targets@[i as int]@);
        let directory = trim_end(targets[i].output.as_str(), '/');
        if is_first(targets, i, directory.as_str()) {
            let names = names_sharing(targets, directory.as_str());
            if names.len() > 1 {
                let mut fault = "Targets ".to_owned();
                fault.append(join(&names, " and ").as_str());
                fault.append(" all write to \"");
                fault.append(directory.as_str());
                fault.append(
                    "\". Each target needs its own output directory, because generating one deletes whatever it does not produce.",
                );
                let ghost before = texts(faults@);
                faults.push(fault);
                assert(texts(faults@) =~= before.push(fault@));
            }
        }
        i += 1;
    }
    faults
}

impl Config {
    /// Reads a configuration, shown as `path`.
    pub fn read(path: &str, v: &Json) -> (result: Result<Config, String>)
        ensures
            config_result(result) == config_read(path@, v@),
            result is Ok ==> result->Ok_0@.sound(),
    {
        let spec = string_at(v, "spec");
        let mut errors: Vec<String> = Vec::new();
        assert(texts(errors@) =~= Seq::empty());
        if spec.as_str().is_empty() {
            errors.push("\"spec\" must be a non-empty string.".to_owned());
            assert(texts(errors@) =~= Seq::empty().push("\"spec\" must be a non-empty string."@));
        }
        let mut targets: Vec<Target> = Vec::new();
        assert(targets_view(targets@) =~= Seq::empty());
        let mut block_errors: Vec<String> = Vec::new();
        match v.get("targets") {
            Some(Json::Object(members)) => {
                if members.len() > 0 {
                    let (read, faults) = read_targets(members);
                    targets = read;
                    block_errors = faults;
                } else {
                    block_errors.push(
                        "\"targets\" must be an object with at least one target in it.".to_owned(),
                    );
                    assert(members_view(members@) =~= Seq::empty());
                    assert(texts(block_errors@) =~= Seq::empty().push(
                        "\"targets\" must be an object with at least one target in it."@,
                    ));
                }
            },
            _ => {
                block_errors.push(
                    "\"targets\" must be an object with at least one target in it.".to_owned(),
                );
                assert(texts(block_errors@) =~= Seq::empty().push(
                    "\"targets\" must be an object with at least one target in it."@,
                ));
            },
        }
        let mut shared = find_shared(&targets);
        let ghost first = errors@;
        let ghost second = block_errors@;
        let ghost third = shared@;
        errors.append(&mut block_errors);
        errors.append(&mut shared);
        assert(texts(errors@) =~= texts(first) + texts(second) + texts(third));
        assert(texts(errors@) == config_faults(v@));
        if errors.len() > 0 {
            let mut fault = path.to_owned();
            fault.append(" is not usable:\n  ");
            fault.append(join(&errors, "\n  ").as_str());
            return Err(fault);
        }
        let set = string_at(v, "builders");
        let builders = if set.as_str().is_empty() {
            "tools/builders".to_owned()
        } else {
            set
        };
        proof {
            a_read_config_is_sound(path@, v@);
        }
        Ok(Config { spec, targets, builders })
    }

    /// The configuration of a project, from what was read at its path.
    pub fn from_decoded(root: &str, decoded: Result<Json, String>) -> (result: Result<
        Config,
        String,
    >)
        ensures
            config_result(result) == config_loaded(root@, json_result(decoded)),
            result is Ok ==> result->Ok_0@.sound(),
            decoded is Ok && decoded->Ok_0@.wf() && result is Ok ==> names_apart(
                result->Ok_0@.targets,
            ),
    {
        match expect_object(decoded) {
            Err(fault) => Err(fault),
            Ok(value) => {
                let mut path = trim_end(root, '/');
                path.append("/eleph.json");
                let result = Config::read(path.as_str(), &value);
                proof {
                    if result is Ok {
                        a_read_config_is_sound(path@, value@);
                    }
                }
                result
            },
        }
    }

    /// The configuration of a project, from the contents of its file, if there
    /// is one.
    pub fn load(root: &str, contents: Option<&str>) -> (result: Result<Config, String>)
        ensures
            config_result(result) == match contents {
                Some(text) => config_loaded(root@, json_decoded(text@)),
                None => Err::<ConfigView, Seq<char>>(no_config(root@)),
            },
            result is Ok ==> result->Ok_0@.sound() && names_apart(result->Ok_0@.targets),
    {
        match contents {
            None => {
                let mut fault = "No eleph.json in \"".to_owned();
                fault.append(root);
                fault.append("\". It needs \"spec\" and a \"targets\" block.");
                Err(fault)
            },
            Some(text) => Config::from_decoded(root, decode(text)),
        }
    }

    /// The directories of other targets that lie within the target's, as seen
    /// from there.
    pub fn reserved(&self, target: &Target) -> (inner: Vec<String>)
        ensures
            texts(inner@) == reserved_in(self@.targets, target@),
    {
        let ghost all = self@.targets;
        let mut prefix = trim_end(target.output.as_str(), '/');
        prefix.append("/");
        let mut inner: Vec<String> = Vec::new();
        let mut i: usize = 0;
        assert(texts(inner@) =~= Seq::empty());
        while i < self.targets.len()
            invariant
                i <= self.targets@.len(),
                all == targets_view(self.targets@),
                prefix@ == target@.directory() + "/"@,
                texts(inner@) == reserved_in(all.take(i as int), target@),
            decreases self.targets@.len() - i,
        {
            assert(all.take(i + 1).drop_last() =~= all.take(i as int));
            assert(all.take(i + 1).last() == self.targets@[i as int]@);
            if !same(self.targets[i].name.as_str(), target.name.as_str()) {
                match strip(
                    trim_end(self.targets[i].output.as_str(), '/').as_str(),
                    prefix.as_str(),
                ) {
                    Some(rest) => {
                        let ghost before = texts(inner@);
                        inner.push(rest);
                        assert(texts(inner@) =~= before.push(rest@));
                    },
                    None => {},
                }
            }
            i += 1;
        }
        assert(all.take(i as int) =~= all);
        inner
    }

    /// Where the project itself may have the target's builder.
    fn project_path(&self, root: &str, target: &Target) -> (path: String)
        ensures
            path@ == project_builder(root@, self@.builders, target@.builder),
    {
        if begins_with(target.builder.as_str(), "/") {
            return target.builder.clone();
        }
        let mut path = root.to_owned();
        path.append("/");
        if has_char(target.builder.as_str(), '/') {
            path.append(target.builder.as_str());
        } else {
            path.append(trim(self.builders.as_str(), '/').as_str());
            path.append("/");
            path.append(target.builder.as_str());
        }
        path
    }

    /// Where to look for the target's builder, in order.
    pub fn candidates(&self, root: &str, target: &Target, path_dirs: &Vec<String>) -> (found: Vec<
        Candidate,
    >)
        ensures
            candidates_view(found@) == builder_candidates(
                root@,
                self@.builders,
                target@.builder,
                texts(path_dirs@),
            ),
    {
        let mut found: Vec<Candidate> = Vec::new();
        found.push(Candidate::Project(self.project_path(root, target)));
        let ghost first = candidates_view(found@);
        assert(first =~= Seq::empty().push(
            CandidateView::Project(project_builder(root@, self@.builders, target@.builder)),
        ));
        if has_char(target.builder.as_str(), '/') {
            return found;
        }
        let ghost dirs = texts(path_dirs@);
        let mut i: usize = 0;
        assert(candidates_view(found@) =~= first + on_path(dirs, 0));
        while i < path_dirs.len()
            invariant
                i <= path_dirs@.len(),
                dirs == texts(path_dirs@),
                candidates_view(found@) == first + on_path(dirs, i as nat),
            decreases path_dirs@.len() - i,
        {
            assert(dirs[i as int] == path_dirs@[i as int]@);
            if !path_dirs[i].as_str().is_empty() {
                let ghost before = candidates_view(found@);
                found.push(Candidate::OnPath(i));
                assert(candidates_view(found@) =~= before.push(CandidateView::OnPath(i as int)));
                assert(before.push(CandidateView::OnPath(i as int)) =~= first + on_path(
                    dirs,
                    (i + 1) as nat,
                ));
            }
            i += 1;
        }
        found
    }

    /// Which of the candidates is the target's builder, from what was found at
    /// each of them.
    pub fn resolve(&self, root: &str, target: &Target, probes: &Vec<Probe>) -> (result: Result<
        usize,
        String,
    >)
        ensures
            resolve_result(result) == builder_resolved(
                root@,
                self@.builders,
                target@,
                probes@,
            ),
            result is Ok ==> result->Ok_0 < probes@.len() && probes@[result->Ok_0 as int] is File,
    {
        let mut i: usize = 0;
        while i < probes.len()
            invariant
                i <= probes@.len(),
                first_found(probes@, i as nat) == first_found(probes@, 0),
            decreases probes@.len() - i,
        {
            match &probes[i] {
                Probe::Nothing => {},
                Probe::Unreadable(words) => {
                    return Err(words.clone());
                },
                Probe::File { shown, mode } => {
                    let runs = match mode {
                        Some(mode) => *mode & 0o111 != 0,
                        None => true,
                    };
                    if runs {
                        return Ok(i);
                    }
                    let mut fault = "The builder for target \"".to_owned();
                    fault.append(target.name.as_str());
                    fault.append("\" is at ");
                    fault.append(shown.as_str());
                    fault.append(" but is not executable. Try `chmod +x ");
                    fault.append(shown.as_str());
                    fault.append("`.");
                    return Err(fault);
                },
            }
            i += 1;
        }
        let mut looked: Vec<String> = Vec::new();
        looked.push(self.project_path(root, target));
        if !has_char(target.builder.as_str(), '/') {
            looked.push("anywhere on PATH".to_owned());
        }
        assert(texts(looked@) =~= places_looked(root@, self@.builders, target@.builder));
        let mut fault = "No builder \"".to_owned();
        fault.append(target.builder.as_str());
        fault.append("\" for target \"");
        fault.append(target.name.as_str());
        fault.append("\". Looked in:\n  ");
        fault.append(join(&looked, "\n  ").as_str());
        fault.append(
            "\nInstall it and put it where one of those points; Elephentity does not fetch builders.",
        );
        Err(fault)
    }
}

/// The directories of other targets that lie within the target's, as seen from
/// there.
pub open spec fn reserved_in(targets: Seq<TargetView>, target: TargetView) -> Seq<Seq<char>>
    decreases targets.len(),
{
    if targets.len() == 0 {
        Seq::empty()
    } else {
        let before = reserved_in(targets.drop_last(), target);
        let other = targets.last();
        match stripped(other.directory(), target.directory() + "/"@) {
            Some(rest) => if other.name != target.name {
                before.push(rest)
            } else {
                before
            },
            None => before,
        }
    }
}

/// Where the project itself may have a builder: at its path, taken from the
/// root of the project where it is not absolute, or by its name in the
/// project's directory of builders.
pub open spec fn project_builder(
    root: Seq<char>,
    builders: Seq<char>,
    builder: Seq<char>,
) -> Seq<char> {
    if "/"@.is_prefix_of(builder) {
        builder
    } else if builder.contains('/') {
        root + "/"@ + builder
    } else {
        root + "/"@ + trimmed(builders, '/') + "/"@ + builder
    }
}

/// A place to look for a builder: a path, or a directory of the search path, by
/// its number there, in which to look for the builder's name.
pub enum Candidate {
    Project(String),
    OnPath(usize),
}

/// What a [`Candidate`] holds.
pub enum CandidateView {
    Project(Seq<char>),
    OnPath(int),
}

impl View for Candidate {
    type V = CandidateView;

    open spec fn view(&self) -> CandidateView {
        match self {
            Candidate::Project(path) => CandidateView::Project(path@),
            Candidate::OnPath(i) => CandidateView::OnPath(*i as int),
        }
    }
}

/// What a list of candidates holds.
pub open spec fn candidates_view(candidates: Seq<Candidate>) -> Seq<CandidateView> {
    candidates.map_values(|candidate: Candidate| candidate@)
}

/// The first `n` directories of the search path, without the empty ones.
pub open spec fn on_path(dirs: Seq<Seq<char>>, n: nat) -> Seq<CandidateView>
    decreases n,
{
    if n == 0 {
        Seq::empty()
    } else if dirs[n - 1].len() > 0 {
        on_path(dirs, (n - 1) as nat).push(CandidateView::OnPath(n - 1))
    } else {
        on_path(dirs, (n - 1) as nat)
    }
}

/// Where to look for a builder, in order: where the project may have it, and
/// on the search path where only a name is given.
pub open spec fn builder_candidates(
    root: Seq<char>,
    builders: Seq<char>,
    builder: Seq<char>,
    dirs: Seq<Seq<char>>,
) -> Seq<CandidateView> {
    let first = seq![CandidateView::Project(project_builder(root, builders, builder))];
    if builder.contains('/') {
        first
    } else {
        first + on_path(dirs, dirs.len())
    }
}

/// What was found at a place where a builder may be.
pub enum Probe {
    /// No file.
    Nothing,
    /// A file, shown by its path, with its mode where files have one.
    File { shown: String, mode: Option<u32> },
    /// A file about which nothing can be learnt.
    Unreadable(String),
}

/// The number of the first probe from `n` on that found a file.
pub open spec fn first_found(probes: Seq<Probe>, n: nat) -> Option<int>
    decreases probes.len() - n,
{
    if n >= probes.len() {
        None
    } else if probes[n as int] is Nothing {
        first_found(probes, n + 1)
    } else {
        Some(n as int)
    }
}

/// Whether a file with this mode can be run.
pub open spec fn runnable(mode: Option<u32>) -> bool {
    match mode {
        Some(mode) => mode & 0o111 != 0,
        None => true,
    }
}

/// The places that are named where no builder was found.
pub open spec fn places_looked(
    root: Seq<char>,
    builders: Seq<char>,
    builder: Seq<char>,
) -> Seq<Seq<char>> {
    if builder.contains('/') {
        seq![project_builder(root, builders, builder)]
    } else {
        seq![project_builder(root, builders, builder), "anywhere on PATH"@]
    }
}

/// The complaint about a builder that was not found.
pub open spec fn no_builder(
    root: Seq<char>,
    builders: Seq<char>,
    target: TargetView,
) -> Seq<char> {
    "No builder \""@ + target.builder + "\" for target \""@ + target.name + "\". Looked in:\n  "@
        + joined(places_looked(root, builders, target.builder), "\n  "@)
        + "\nInstall it and put it where one of those points; Elephentity does not fetch builders."@
}

/// Which candidate is a target's builder: the first where a file was found,
/// provided that it can be run.
pub open spec fn builder_resolved(
    root: Seq<char>,
    builders: Seq<char>,
    target: TargetView,
    probes: Seq<Probe>,
) -> Result<int, Seq<char>> {
    match first_found(probes, 0) {
        None => Err(no_builder(root, builders, target)),
        Some(i) => match probes[i] {
            Probe::File { shown, mode } => if runnable(mode) {
                Ok(i)
            } else {
                Err(
                    "The builder for target \""@ + target.name + "\" is at "@ + shown@
                        + " but is not executable. Try `chmod +x "@ + shown@ + "`."@,
                )
            },
            Probe::Unreadable(words) => Err(words@),
            Probe::Nothing => Err(Seq::empty()),
        },
    }
}

/// What a resolution comes to.
pub open spec fn resolve_result(result: Result<usize, String>) -> Result<int, Seq<char>> {
    match result {
        Ok(i) => Ok(i as int),
        Err(fault) => Err(fault@),
    }
}

proof fn set_targets_are_complete(members: Seq<(Seq<char>, JsonView)>)
    ensures
        targets_set(members).len() + target_faults(members).len() == members.len(),
        forall|i: int|
            0 <= i < targets_set(members).len() ==> (#[trigger] targets_set(
                members,
            )[i]).output.len() > 0 && targets_set(members)[i].builder.len() > 0,
    decreases members.len(),
{
    if members.len() > 0 {
        set_targets_are_complete(members.drop_last());
    }
}

proof fn set_targets_are_members(members: Seq<(Seq<char>, JsonView)>)
    ensures
        forall|i: int|
            0 <= i < targets_set(members).len() ==> exists|j: int|
                0 <= j < members.len() && (#[trigger] targets_set(members)[i]).name
                    == #[trigger] members[j].0 && targets_set(members)[i].settings
                    == members[j].1,
        distinct_keys(members) ==> names_apart(targets_set(members)),
    decreases members.len(),
{
    if members.len() > 0 {
        let front = members.drop_last();
        set_targets_are_members(front);
        let all = targets_set(members);
        let before = targets_set(front);
        assert forall|i: int| 0 <= i < all.len() implies exists|j: int|
            0 <= j < members.len() && (#[trigger] all[i]).name == #[trigger] members[j].0
                && all[i].settings == members[j].1 by {
            if i < before.len() {
                let j = choose|j: int|
                    0 <= j < front.len() && before[i].name == #[trigger] front[j].0
                        && before[i].settings == front[j].1;
                assert(members[j] == front[j]);
            } else {
                assert(members[members.len() - 1].0 == all[i].name);
            }
        }
        if distinct_keys(members) {
            assert forall|i: int, j: int| 0 <= i < j < front.len() implies front[i].0
                != front[j].0 by {
                assert(members[i].0 != members[j].0);
            }
            assert forall|i: int, j: int| 0 <= i < j < all.len() implies all[i].name
                != all[j].name by {
                if j == before.len() {
                    assert(all[i] == before[i]);
                    let k = choose|k: int|
                        0 <= k < front.len() && before[i].name == #[trigger] front[k].0
                            && before[i].settings == front[k].1;
                    assert(members[k].0 != members[members.len() - 1].0);
                } else {
                    assert(before[i].name != before[j].name);
                }
            }
        }
    }
}

proof fn names_in_counts(targets: Seq<TargetView>, directory: Seq<char>)
    ensures
        (exists|i: int|
            0 <= i < targets.len() && (#[trigger] targets[i]).directory() == directory)
            ==> names_in(targets, directory).len() >= 1,
        (exists|i: int, j: int|
            0 <= i < j < targets.len() && (#[trigger] targets[i]).directory() == directory && (
            #[trigger] targets[j]).directory() == directory) ==> names_in(targets, directory).len()
            >= 2,
    decreases targets.len(),
{
    if targets.len() > 0 {
        let front = targets.drop_last();
        names_in_counts(front, directory);
        if exists|i: int| 0 <= i < targets.len() && (#[trigger] targets[i]).directory() == directory {
            let i = choose|i: int|
                0 <= i < targets.len() && (#[trigger] targets[i]).directory() == directory;
            if i < front.len() {
                assert(front[i].directory() == directory);
            }
        }
        if exists|i: int, j: int|
            0 <= i < j < targets.len() && (#[trigger] targets[i]).directory() == directory && (
            #[trigger] targets[j]).directory() == directory {
            let (i, j) = choose|i: int, j: int|
                0 <= i < j < targets.len() && (#[trigger] targets[i]).directory() == directory && (
                #[trigger] targets[j]).directory() == directory;
            assert(front[i].directory() == directory);
            if j < front.len() {
                assert(front[j].directory() == directory);
            }
        }
    }
}

proof fn shared_faults_grow(targets: Seq<TargetView>, m: nat, n: nat)
    requires
        m <= n,
    ensures
        shared_faults(targets, m).len() <= shared_faults(targets, n).len(),
    decreases n,
{
    if m < n {
        shared_faults_grow(targets, m, (n - 1) as nat);
    }
}

/// A directory that two targets share is a fault.
pub proof fn a_shared_directory_is_a_fault(targets: Seq<TargetView>, i: int, j: int)
    requires
        0 <= i < j < targets.len(),
        targets[i].directory() == targets[j].directory(),
    ensures
        shared_faults(targets, targets.len()).len() > 0,
    decreases i,
{
    if first_in_directory(targets, i) {
        names_in_counts(targets, targets[i].directory());
        shared_faults_grow(targets, (i + 1) as nat, targets.len());
    } else {
        let k = choose|k: int|
            0 <= k < i && (#[trigger] targets[k]).directory() == targets[i].directory();
        a_shared_directory_is_a_fault(targets, k, j);
    }
}

/// A configuration that is read is sound; and where no object in it has a key
/// twice, no two of its targets have one name, and neither do their settings
/// have a key twice.
pub proof fn a_read_config_is_sound(path: Seq<char>, value: JsonView)
    requires
        config_read(path, value) is Ok,
    ensures
        config_read(path, value)->Ok_0.sound(),
        value.wf() ==> names_apart(config_read(path, value)->Ok_0.targets),
        value.wf() ==> forall|i: int|
            0 <= i < config_read(path, value)->Ok_0.targets.len() ==> (#[trigger] config_read(
                path,
                value,
            )->Ok_0.targets[i]).settings.wf(),
{
    let config = config_read(path, value)->Ok_0;
    let faults = config_faults(value);
    let targets = config_targets(value);
    assert(faults.len() == 0);
    assert(shared_faults(targets, targets.len()).len() == 0);
    assert(value.at("targets"@) is Object);
    let members = value.at("targets"@)->Object_0;
    assert(target_faults(members).len() == 0);
    set_targets_are_complete(members);
    assert forall|i: int, j: int| 0 <= i < j < targets.len() implies targets[i].directory()
        != targets[j].directory() by {
        if targets[i].directory() == targets[j].directory() {
            a_shared_directory_is_a_fault(targets, i, j);
        }
    }
    reveal_strlit("tools/builders");
    set_targets_are_members(members);
    if value.wf() {
        a_member_of_a_sound_value_is_sound(value, "targets"@);
        assert forall|i: int| 0 <= i < targets.len() implies (
        #[trigger] targets[i]).settings.wf() by {
            let j = choose|j: int|
                0 <= j < members.len() && targets[i].name == #[trigger] members[j].0
                    && targets[i].settings == members[j].1;
            assert(members[j].1.wf());
        }
    }
}

/// Each other target whose directory lies within the target's is reserved.
pub proof fn an_inner_target_is_reserved(targets: Seq<TargetView>, target: TargetView, i: int)
    requires
        0 <= i < targets.len(),
        targets[i].name != target.name,
        (target.directory() + "/"@).is_prefix_of(targets[i].directory()),
    ensures
        reserved_in(targets, target).contains(
            targets[i].directory().skip((target.directory() + "/"@).len() as int),
        ),
    decreases targets.len(),
{
    let rest = targets[i].directory().skip((target.directory() + "/"@).len() as int);
    let all = reserved_in(targets, target);
    let before = reserved_in(targets.drop_last(), target);
    if i == targets.len() - 1 {
        assert(all.last() == rest);
    } else {
        an_inner_target_is_reserved(targets.drop_last(), target, i);
        let k = choose|k: int| 0 <= k < before.len() && before[k] == rest;
        assert(all[k] == rest);
    }
}

proof fn the_first_from_a_place_on(probes: Seq<Probe>, n: nat)
    requires
        n <= probes.len(),
    ensures
        match first_found(probes, n) {
            Some(i) => n <= i < probes.len() && !(probes[i] is Nothing) && forall|j: int|
                n <= j < i ==> #[trigger] probes[j] is Nothing,
            None => forall|j: int| n <= j < probes.len() ==> #[trigger] probes[j] is Nothing,
        },
    decreases probes.len() - n,
{
    if n < probes.len() && probes[n as int] is Nothing {
        the_first_from_a_place_on(probes, n + 1);
    }
}

/// The first candidate at which there is a file decides: it is the builder if
/// it can be run, and if not there is none, whatever comes after it.
pub proof fn the_first_file_found_decides(
    root: Seq<char>,
    builders: Seq<char>,
    target: TargetView,
    probes: Seq<Probe>,
    i: int,
)
    requires
        0 <= i < probes.len(),
        !(probes[i] is Nothing),
        forall|j: int| 0 <= j < i ==> #[trigger] probes[j] is Nothing,
    ensures
        builder_resolved(root, builders, target, probes) is Ok <==> probes[i] is File && runnable(
            probes[i]->mode,
        ),
        builder_resolved(root, builders, target, probes) is Ok ==> builder_resolved(
            root,
            builders,
            target,
            probes,
        )->Ok_0 == i,
{
    the_first_from_a_place_on(probes, 0);
    let first = first_found(probes, 0);
    assert(first is Some);
    assert(first->0 == i);
}

proof fn on_path_is_in_order(dirs: Seq<Seq<char>>, n: nat)
    requires
        n <= dirs.len(),
    ensures
        forall|i: int|
            0 <= i < on_path(dirs, n).len() ==> (#[trigger] on_path(dirs, n)[i]) is OnPath && 0
                <= on_path(dirs, n)[i]->OnPath_0 < n,
        forall|i: int, j: int|
            0 <= i < j < on_path(dirs, n).len() ==> (#[trigger] on_path(dirs, n)[i])->OnPath_0 < (
            #[trigger] on_path(dirs, n)[j])->OnPath_0,
    decreases n,
{
    if n > 0 {
        on_path_is_in_order(dirs, (n - 1) as nat);
    }
}

/// A builder is looked for in the project first, and after that on the search
/// path in its order.
pub proof fn the_project_comes_first(
    root: Seq<char>,
    builders: Seq<char>,
    builder: Seq<char>,
    dirs: Seq<Seq<char>>,
)
    ensures
        ({
            let candidates = builder_candidates(root, builders, builder, dirs);
            &&& candidates.len() > 0
            &&& candidates[0] == CandidateView::Project(project_builder(root, builders, builder))
            &&& forall|i: int|
                0 < i < candidates.len() ==> (#[trigger] candidates[i]) is OnPath && 0
                    <= candidates[i]->OnPath_0 < dirs.len()
            &&& forall|i: int, j: int|
                0 < i < j < candidates.len() ==> (#[trigger] candidates[i])->OnPath_0 < (
                #[trigger] candidates[j])->OnPath_0
        }),
{
    on_path_is_in_order(dirs, dirs.len());
    let rest = on_path(dirs, dirs.len());
    let candidates = builder_candidates(root, builders, builder, dirs);
    assert forall|i: int| 0 < i < candidates.len() implies #[trigger] candidates[i]
        == rest[i - 1] by {}
}

} // verus!
