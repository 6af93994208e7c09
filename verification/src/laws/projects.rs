//! Laws of a project's configuration and of its builders.
use vstd::prelude::*;
#[allow(unused_imports)]
use crate::config::{
    a_shared_directory_is_a_fault, builder_candidates, builder_resolved, config_faults,
    config_loaded, config_path, config_read, config_targets, first_found, first_in_directory,
    names_in, no_config, on_path, project_builder, reserved_in, runnable, shared_faults,
    target_faults, targets_set, CandidateView, ConfigView, Probe, TargetView,
};
#[allow(unused_imports)]
use crate::json::JsonView;
#[allow(unused_imports)]
use crate::text::{joined, trimmed, trimmed_end};

verus! {

/// Whether a value is a text that is not empty.
pub open spec fn is_a_word(value: JsonView) -> bool {
    value is Text && value->Text_0.len() > 0
}

/// Whether the settings of a target are an object that sets its output and its
/// builder.
pub open spec fn sets_a_target(settings: JsonView) -> bool {
    settings is Object && is_a_word(settings.at("output"@)) && is_a_word(settings.at("builder"@))
}

/// Whether two of the members set one directory.
pub open spec fn share_a_directory(members: Seq<(Seq<char>, JsonView)>) -> bool {
    exists|i: int, j: int|
        0 <= i < j < members.len() && trimmed_end(
            (#[trigger] members[i]).1.at("output"@)->Text_0,
            '/',
        ) == trimmed_end((#[trigger] members[j]).1.at("output"@)->Text_0, '/')
}

proof fn sound_members(members: Seq<(Seq<char>, JsonView)>)
    ensures
        target_faults(members).len() == 0 <==> forall|i: int|
            0 <= i < members.len() ==> sets_a_target((#[trigger] members[i]).1),
        target_faults(members).len() == 0 ==> {
            let targets = targets_set(members);
            &&& targets.len() == members.len()
            &&& forall|i: int|
                0 <= i < members.len() ==> {
                    &&& (#[trigger] targets[i]).name == members[i].0
                    &&& targets[i].settings == members[i].1
                    &&& members[i].1.at("output"@) == JsonView::Text(targets[i].output)
                    &&& members[i].1.at("builder"@) == JsonView::Text(targets[i].builder)
                }
        },
    decreases members.len(),
{
    if members.len() > 0 {
        let front = members.drop_last();
        sound_members(front);
        assert(forall|i: int| 0 <= i < front.len() ==> front[i] == members[i]);
        let last = members[members.len() - 1];
        if target_faults(members).len() == 0 {
            assert(sets_a_target(last.1));
            assert forall|i: int| 0 <= i < members.len() implies sets_a_target(
                (#[trigger] members[i]).1,
            ) by {
                if i < front.len() {
                    assert(sets_a_target(front[i].1));
                }
            }
            let targets = targets_set(members);
            assert forall|i: int| 0 <= i < members.len() implies {
                &&& (#[trigger] targets[i]).name == members[i].0
                &&& targets[i].settings == members[i].1
                &&& members[i].1.at("output"@) == JsonView::Text(targets[i].output)
                &&& members[i].1.at("builder"@) == JsonView::Text(targets[i].builder)
            } by {
                if i < front.len() {
                    assert(targets_set(front)[i] == targets[i]);
                    assert(front[i] == members[i]);
                }
            }
        }
        if forall|i: int| 0 <= i < members.len() ==> sets_a_target((#[trigger] members[i]).1) {
            assert forall|i: int| 0 <= i < front.len() implies sets_a_target(
                (#[trigger] front[i]).1,
            ) by {
                assert(sets_a_target(members[i].1));
            }
            assert(sets_a_target(last.1));
        }
    }
}

proof fn no_fault_without_a_shared_directory(targets: Seq<TargetView>, n: nat)
    requires
        n <= targets.len(),
        forall|i: int, j: int|
            0 <= i < j < targets.len() ==> targets[i].directory() != targets[j].directory(),
    ensures
        shared_faults(targets, n).len() == 0,
    decreases n,
{
    if n > 0 {
        no_fault_without_a_shared_directory(targets, (n - 1) as nat);
        one_name_in_a_directory(targets, n - 1, targets.len());
        assert(targets.take(targets.len() as int) =~= targets);
    }
}

proof fn one_name_in_a_directory(targets: Seq<TargetView>, k: int, n: nat)
    requires
        0 <= k < targets.len(),
        n <= targets.len(),
        forall|i: int, j: int|
            0 <= i < j < targets.len() ==> targets[i].directory() != targets[j].directory(),
    ensures
        names_in(targets.take(n as int), targets[k].directory()).len() == (if k < n {
            1nat
        } else {
            0nat
        }),
    decreases n,
{
    if n > 0 {
        one_name_in_a_directory(targets, k, (n - 1) as nat);
        let all = targets.take(n as int);
        assert(all.drop_last() =~= targets.take(n - 1));
        assert(all.last() == targets[n - 1]);
        if k < n - 1 {
            assert(targets[k].directory() != targets[n - 1].directory());
        } else if k > n - 1 {
            assert(targets[n - 1].directory() != targets[k].directory());
        }
    }
}

/// A configuration is read exactly where it names its specs, has a target, each
/// target is an object that sets an output and a builder, and no two of them set
/// one directory. What is read is then what is set: each target with its own
/// name, output, builder and settings, in the order in which they are set.
pub proof fn a_configuration_is_read_as_it_is_set(path: Seq<char>, value: JsonView)
    ensures
        config_read(path, value) is Ok <==> {
            &&& is_a_word(value.at("spec"@))
            &&& value.at("targets"@) is Object
            &&& value.at("targets"@)->Object_0.len() > 0
            &&& forall|i: int|
                0 <= i < value.at("targets"@)->Object_0.len() ==> sets_a_target(
                    (#[trigger] value.at("targets"@)->Object_0[i]).1,
                )
            &&& !share_a_directory(value.at("targets"@)->Object_0)
        },
        config_read(path, value) is Ok ==> {
            let config = config_read(path, value)->Ok_0;
            let members = value.at("targets"@)->Object_0;
            &&& value.at("spec"@) == JsonView::Text(config.spec)
            &&& is_a_word(value.at("builders"@)) ==> value.at("builders"@) == JsonView::Text(
                config.builders,
            )
            &&& !is_a_word(value.at("builders"@)) ==> config.builders == "tools/builders"@
            &&& config.targets.len() == members.len()
            &&& forall|i: int|
                0 <= i < members.len() ==> {
                    &&& (#[trigger] config.targets[i]).name == members[i].0
                    &&& config.targets[i].settings == members[i].1
                    &&& members[i].1.at("output"@) == JsonView::Text(config.targets[i].output)
                    &&& members[i].1.at("builder"@) == JsonView::Text(config.targets[i].builder)
                }
        },
{
    let block = value.at("targets"@);
    let members = block->Object_0;
    let targets = config_targets(value);
    if block is Object && members.len() > 0 {
        sound_members(members);
        if target_faults(members).len() == 0 {
            assert forall|i: int| 0 <= i < members.len() implies (
            #[trigger] targets[i]).directory() == trimmed_end(
                members[i].1.at("output"@)->Text_0,
                '/',
            ) by {}
            if share_a_directory(members) {
                let (i, j) = choose|i: int, j: int|
                    0 <= i < j < members.len() && trimmed_end(
                        (#[trigger] members[i]).1.at("output"@)->Text_0,
                        '/',
                    ) == trimmed_end((#[trigger] members[j]).1.at("output"@)->Text_0, '/');
                assert(targets[i].directory() == targets[j].directory());
                a_shared_directory_is_a_fault(targets, i, j);
            } else {
                assert forall|i: int, j: int|
                    0 <= i < j < targets.len() implies targets[i].directory()
                    != targets[j].directory() by {
                    assert(trimmed_end(members[i].1.at("output"@)->Text_0, '/') != trimmed_end(
                        members[j].1.at("output"@)->Text_0,
                        '/',
                    ));
                }
                no_fault_without_a_shared_directory(targets, targets.len());
            }
        }
    }
}

/// What is wrong with the settings of a target.
pub open spec fn complaint_about(name: Seq<char>, settings: JsonView) -> Seq<char> {
    if !(settings is Object) {
        "Target \""@ + name + "\" must be an object."@
    } else if !is_a_word(settings.at("output"@)) {
        "Target \""@ + name + "\" must set \"output\" to a non-empty string."@
    } else {
        "Target \""@ + name
            + "\" must set \"builder\" to the program that generates it. Elephentity compiles the spec and generates nothing itself, so a target with no builder is one nothing can produce."@
    }
}

proof fn faulty_members(members: Seq<(Seq<char>, JsonView)>)
    ensures
        target_faults(members) == members.filter(
            |member: (Seq<char>, JsonView)| !sets_a_target(member.1),
        ).map_values(|member: (Seq<char>, JsonView)| complaint_about(member.0, member.1)),
        targets_set(members).map_values(|target: TargetView| (target.name, target.settings))
            == members.filter(|member: (Seq<char>, JsonView)| sets_a_target(member.1)),
        forall|i: int|
            0 <= i < targets_set(members).len() ==> (#[trigger] targets_set(
                members,
            )[i]).settings.at("output"@) == JsonView::Text(targets_set(members)[i].output)
                && targets_set(members)[i].settings.at("builder"@) == JsonView::Text(
                targets_set(members)[i].builder,
            ),
    decreases members.len(),
{
    reveal(Seq::filter);
    let bad = |member: (Seq<char>, JsonView)| !sets_a_target(member.1);
    let good = |member: (Seq<char>, JsonView)| sets_a_target(member.1);
    let words = |member: (Seq<char>, JsonView)| complaint_about(member.0, member.1);
    let pair = |target: TargetView| (target.name, target.settings);
    if members.len() > 0 {
        let front = members.drop_last();
        let last = members.last();
        faulty_members(front);
        if sets_a_target(last.1) {
            assert(targets_set(members).map_values(pair) =~= targets_set(front).map_values(
                pair,
            ).push(last));
        } else {
            assert(members.filter(bad).map_values(words) =~= front.filter(bad).map_values(
                words,
            ).push(words(last)));
        }
    } else {
        assert(targets_set(members).map_values(pair) =~= members.filter(good));
        assert(members.filter(bad).map_values(words) =~= Seq::empty());
    }
}

proof fn names_of_a_directory(targets: Seq<TargetView>, directory: Seq<char>)
    ensures
        names_in(targets, directory) == targets.filter(
            |target: TargetView| trimmed_end(target.output, '/') == directory,
        ).map_values(|target: TargetView| target.name),
    decreases targets.len(),
{
    reveal(Seq::filter);
    let here = |target: TargetView| trimmed_end(target.output, '/') == directory;
    let name = |target: TargetView| target.name;
    if targets.len() > 0 {
        let front = targets.drop_last();
        names_of_a_directory(front, directory);
        if here(targets.last()) {
            assert(targets.filter(here).map_values(name) =~= front.filter(here).map_values(
                name,
            ).push(targets.last().name));
        }
    } else {
        assert(targets.filter(here).map_values(name) =~= Seq::empty());
    }
}

/// The names of the targets with an output in a directory, in order.
pub open spec fn names_with_output(targets: Seq<TargetView>, directory: Seq<char>) -> Seq<Seq<char>> {
    targets.filter(
        |target: TargetView| trimmed_end(target.output, '/') == directory,
    ).map_values(|target: TargetView| target.name)
}

/// Whether target `i` is the first of several with one directory.
pub open spec fn shares_first(targets: Seq<TargetView>, i: int) -> bool {
    &&& names_with_output(targets, trimmed_end(targets[i].output, '/')).len() > 1
    &&& forall|j: int|
        0 <= j < i ==> trimmed_end((#[trigger] targets[j]).output, '/') != trimmed_end(
            targets[i].output,
            '/',
        )
}

/// The complaint about the targets that share the directory of target `i`.
pub open spec fn complaint_about_sharing(targets: Seq<TargetView>, i: int) -> Seq<char> {
    let directory = trimmed_end(targets[i].output, '/');
    "Targets "@ + joined(names_with_output(targets, directory), " and "@) + " all write to \""@
        + directory
        + "\". Each target needs its own output directory, because generating one deletes whatever it does not produce."@
}

proof fn shared_directories(targets: Seq<TargetView>, n: nat)
    requires
        n <= targets.len(),
    ensures
        shared_faults(targets, n) == Seq::new(n, |i: int| i).filter(
            |i: int| shares_first(targets, i),
        ).map_values(|i: int| complaint_about_sharing(targets, i)),
    decreases n,
{
    reveal(Seq::filter);
    let first = |i: int| shares_first(targets, i);
    let words = |i: int| complaint_about_sharing(targets, i);
    let all = Seq::new(n, |i: int| i);
    if n > 0 {
        let front = Seq::new((n - 1) as nat, |i: int| i);
        shared_directories(targets, (n - 1) as nat);
        names_of_a_directory(targets, targets[n - 1].directory());
        assert(all.drop_last() =~= front);
        assert(all.last() == n - 1);
        assert(first_in_directory(targets, n - 1) <==> forall|j: int|
            0 <= j < n - 1 ==> trimmed_end((#[trigger] targets[j]).output, '/') != trimmed_end(
                targets[n - 1].output,
                '/',
            ));
        if first(n - 1) {
            assert(all.filter(first).map_values(words) =~= front.filter(first).map_values(
                words,
            ).push(words(n - 1)));
        }
    } else {
        assert(all.filter(first).map_values(words) =~= Seq::empty());
    }
}

/// Where a configuration is not read, all that is wrong with it is told: of the
/// specs, of each target that is not set, in order, or of a lack of targets, and
/// of each directory that several of the others share, by all their names.
pub proof fn all_that_is_wrong_is_told(path: Seq<char>, value: JsonView)
    ensures
        config_read(path, value) is Err ==> config_read(path, value)->Err_0 == path
            + " is not usable:\n  "@ + joined(config_faults(value), "\n  "@),
        ({
            let members = value.at("targets"@)->Object_0;
            let some = value.at("targets"@) is Object && members.len() > 0;
            let none = Seq::<Seq<char>>::empty();
            let targets = config_targets(value);
            &&& config_faults(value) == (if is_a_word(value.at("spec"@)) {
                none
            } else {
                none.push("\"spec\" must be a non-empty string."@)
            }) + (if some {
                members.filter(
                    |member: (Seq<char>, JsonView)| !sets_a_target(member.1),
                ).map_values(|member: (Seq<char>, JsonView)| complaint_about(member.0, member.1))
            } else {
                none.push("\"targets\" must be an object with at least one target in it."@)
            }) + Seq::new(targets.len(), |i: int| i).filter(
                |i: int| shares_first(targets, i),
            ).map_values(|i: int| complaint_about_sharing(targets, i))
            &&& some ==> targets.map_values(
                |target: TargetView| (target.name, target.settings),
            ) == members.filter(|member: (Seq<char>, JsonView)| sets_a_target(member.1))
            &&& forall|i: int|
                0 <= i < targets.len() ==> (#[trigger] targets[i]).settings.at("output"@)
                    == JsonView::Text(targets[i].output)
        }),
{
    let members = value.at("targets"@)->Object_0;
    let targets = config_targets(value);
    shared_directories(targets, targets.len());
    if value.at("targets"@) is Object {
        faulty_members(members);
    }
}

/// A configuration is looked for in the root, and is what its file holds.
pub proof fn a_configuration_is_loaded_from_the_root(
    root: Seq<char>,
    decoded: Result<JsonView, Seq<char>>,
)
    ensures
        config_path(root) == trimmed_end(root, '/') + "/eleph.json"@,
        no_config(root) == "No eleph.json in \""@ + root
            + "\". It needs \"spec\" and a \"targets\" block."@,
        decoded is Ok && decoded->Ok_0 is Object ==> config_loaded(root, decoded) == config_read(
            trimmed_end(root, '/') + "/eleph.json"@,
            decoded->Ok_0,
        ),
        decoded is Ok && !(decoded->Ok_0 is Object) ==> config_loaded(root, decoded) == Err::<
            ConfigView,
            Seq<char>,
        >("Expected a JSON object."@),
        decoded is Err ==> config_loaded(root, decoded) == Err::<ConfigView, Seq<char>>(
            "Not valid JSON: "@ + decoded->Err_0,
        ),
{
}

/// What is reserved in the directory of a target are the directories of the
/// other targets within it, as seen from there, each of them.
pub proof fn all_inner_directories_are_reserved(
    targets: Seq<TargetView>,
    target: TargetView,
    inner: Seq<char>,
)
    ensures
        reserved_in(targets, target).contains(inner) <==> exists|i: int|
            0 <= i < targets.len() && (#[trigger] targets[i]).name != target.name && trimmed_end(
                targets[i].output,
                '/',
            ) == trimmed_end(target.output, '/') + "/"@ + inner,
    decreases targets.len(),
{
    if targets.len() > 0 {
        let front = targets.drop_last();
        let last = targets.last();
        let before = reserved_in(front, target);
        let all = reserved_in(targets, target);
        let prefix = target.directory() + "/"@;
        all_inner_directories_are_reserved(front, target, inner);
        if prefix.is_prefix_of(last.directory()) {
            assert(prefix + last.directory().skip(prefix.len() as int) =~= last.directory());
        }
        if last.directory() == prefix + inner {
            assert(prefix.is_prefix_of(last.directory()));
            assert(last.directory().skip(prefix.len() as int) =~= inner);
        }
        if all.contains(inner) {
            let k = choose|k: int| 0 <= k < all.len() && all[k] == inner;
            if k < before.len() {
                assert(before[k] == inner);
                let i = choose|i: int|
                    0 <= i < front.len() && (#[trigger] front[i]).name != target.name
                        && trimmed_end(front[i].output, '/') == trimmed_end(target.output, '/')
                        + "/"@ + inner;
                assert(targets[i] == front[i]);
            } else {
                assert(targets[targets.len() - 1].name != target.name);
            }
        }
        if exists|i: int|
            0 <= i < targets.len() && (#[trigger] targets[i]).name != target.name && trimmed_end(
                targets[i].output,
                '/',
            ) == trimmed_end(target.output, '/') + "/"@ + inner {
            let i = choose|i: int|
                0 <= i < targets.len() && (#[trigger] targets[i]).name != target.name
                    && trimmed_end(targets[i].output, '/') == trimmed_end(target.output, '/')
                    + "/"@ + inner;
            if i < front.len() {
                assert(front[i] == targets[i]);
                let k = choose|k: int| 0 <= k < before.len() && before[k] == inner;
                assert(all[k] == inner);
            } else {
                assert(all.last() == inner);
            }
        }
    }
}

/// Whether a target other than the one at hand writes within its directory.
pub open spec fn writes_within(other: TargetView, target: TargetView) -> bool {
    other.name != target.name && (trimmed_end(target.output, '/') + "/"@).is_prefix_of(
        trimmed_end(other.output, '/'),
    )
}

/// What is reserved stands in the order of the targets, each directory without
/// that of the target at hand.
pub proof fn what_is_reserved_stands_in_order(targets: Seq<TargetView>, target: TargetView)
    ensures
        reserved_in(targets, target) == targets.filter(
            |other: TargetView| writes_within(other, target),
        ).map_values(
            |other: TargetView|
                trimmed_end(other.output, '/').skip(trimmed_end(target.output, '/').len() as int + 1),
        ),
    decreases targets.len(),
{
    reveal(Seq::filter);
    reveal_strlit("/");
    let within = |other: TargetView| writes_within(other, target);
    let inner = |other: TargetView|
        trimmed_end(other.output, '/').skip(trimmed_end(target.output, '/').len() as int + 1);
    if targets.len() > 0 {
        let front = targets.drop_last();
        what_is_reserved_stands_in_order(front, target);
        assert((target.directory() + "/"@).len() == target.directory().len() + 1);
        if within(targets.last()) {
            assert(targets.filter(within).map_values(inner) =~= front.filter(within).map_values(
                inner,
            ).push(inner(targets.last())));
        }
    } else {
        assert(targets.filter(within).map_values(inner) =~= Seq::empty());
    }
}

/// Where the project itself may have a builder: an absolute path is taken as it
/// is, any other path from the root, and a name in the directory of builders.
pub proof fn where_the_project_has_a_builder(
    root: Seq<char>,
    builders: Seq<char>,
    builder: Seq<char>,
)
    ensures
        builder.len() > 0 && builder[0] == '/' ==> project_builder(root, builders, builder)
            == builder,
        builder.len() > 0 && builder[0] != '/' && builder.contains('/') ==> project_builder(
            root,
            builders,
            builder,
        ) == root + "/"@ + builder,
        !builder.contains('/') ==> project_builder(root, builders, builder) == root + "/"@
            + trimmed(builders, '/') + "/"@ + builder,
{
    reveal_strlit("/");
    if builder.len() > 0 {
        assert(builder.subrange(0, 1)[0] == builder[0]);
        if builder[0] == '/' {
            assert(builder.subrange(0, 1) =~= "/"@);
        } else {
            assert("/"@[0] == '/');
        }
        if !builder.contains('/') {
            assert(builder[0] != '/');
        }
    }
}

proof fn directories_of_the_search_path(dirs: Seq<Seq<char>>, n: nat, d: int)
    requires
        n <= dirs.len(),
    ensures
        on_path(dirs, n).contains(CandidateView::OnPath(d)) <==> 0 <= d < n && dirs[d].len() > 0,
        forall|i: int| 0 <= i < on_path(dirs, n).len() ==> (#[trigger] on_path(dirs, n)[i]) is OnPath,
    decreases n,
{
    if n > 0 {
        let before = on_path(dirs, (n - 1) as nat);
        let all = on_path(dirs, n);
        directories_of_the_search_path(dirs, (n - 1) as nat, d);
        if before.contains(CandidateView::OnPath(d)) {
            let k = choose|k: int| 0 <= k < before.len() && before[k] == CandidateView::OnPath(d);
            assert(all[k] == CandidateView::OnPath(d));
        }
        if all.contains(CandidateView::OnPath(d)) {
            let k = choose|k: int| 0 <= k < all.len() && all[k] == CandidateView::OnPath(d);
            if k < before.len() {
                assert(before[k] == CandidateView::OnPath(d));
            }
        }
        if d == n - 1 && dirs[d].len() > 0 {
            assert(all.last() == CandidateView::OnPath(d));
        }
    }
}

/// A builder that is given by a path is looked for there alone. One that is given
/// by a name is looked for in the project, and in each directory of the search
/// path that is not empty, and nowhere else; in the project first, and on the
/// search path in its order.
pub proof fn a_builder_is_looked_for_everywhere_on_the_search_path(
    root: Seq<char>,
    builders: Seq<char>,
    builder: Seq<char>,
    dirs: Seq<Seq<char>>,
    d: int,
)
    ensures
        ({
            let candidates = builder_candidates(root, builders, builder, dirs);
            &&& candidates.len() > 0
            &&& candidates[0] == CandidateView::Project(project_builder(root, builders, builder))
            &&& builder.contains('/') ==> candidates.len() == 1
            &&& !builder.contains('/') ==> (candidates.contains(CandidateView::OnPath(d)) <==> 0
                <= d < dirs.len() && dirs[d].len() > 0)
            &&& forall|i: int|
                0 < i < candidates.len() ==> (#[trigger] candidates[i]) is OnPath
            &&& forall|i: int, j: int|
                0 < i < j < candidates.len() ==> (#[trigger] candidates[i])->OnPath_0 < (
                #[trigger] candidates[j])->OnPath_0
        }),
{
    crate::config::the_project_comes_first(root, builders, builder, dirs);
    let rest = on_path(dirs, dirs.len());
    let candidates = builder_candidates(root, builders, builder, dirs);
    directories_of_the_search_path(dirs, dirs.len(), d);
    if !builder.contains('/') {
        let it = CandidateView::OnPath(d);
        if candidates.contains(it) {
            let k = choose|k: int| 0 <= k < candidates.len() && candidates[k] == it;
            assert(rest[k - 1] == it);
        }
        if rest.contains(it) {
            let k = choose|k: int| 0 <= k < rest.len() && rest[k] == it;
            assert(candidates[k + 1] == it);
        }
    }
}

/// A file can be run exactly where its owner, its group or all others may.
pub proof fn a_file_that_someone_may_run_can_be_run(mode: u32)
    ensures
        runnable(None),
        runnable(Some(mode)) <==> mode & 0o100 != 0 || mode & 0o010 != 0 || mode & 0o001 != 0,
{
    assert(mode & 0o111 != 0 <==> mode & 0o100 != 0 || mode & 0o010 != 0 || mode & 0o001 != 0)
        by (bit_vector);
}

/// What is told of a builder that is not found, cannot be looked at or cannot be
/// run: the first place where there is something decides.
pub proof fn what_is_told_of_a_builder(
    root: Seq<char>,
    builders: Seq<char>,
    target: TargetView,
    probes: Seq<Probe>,
    i: int,
)
    ensures
        (forall|j: int| 0 <= j < probes.len() ==> #[trigger] probes[j] is Nothing)
            ==> builder_resolved(root, builders, target, probes) == Err::<int, Seq<char>>(
            "No builder \""@ + target.builder + "\" for target \""@ + target.name
                + "\". Looked in:\n  "@ + (if target.builder.contains('/') {
                project_builder(root, builders, target.builder)
            } else {
                project_builder(root, builders, target.builder) + "\n  "@ + "anywhere on PATH"@
            })
                + "\nInstall it and put it where one of those points; Elephentity does not fetch builders."@,
        ),
        0 <= i < probes.len() && (forall|j: int|
            0 <= j < i ==> #[trigger] probes[j] is Nothing) ==> match probes[i] {
            Probe::Nothing => true,
            Probe::Unreadable(words) => builder_resolved(root, builders, target, probes) == Err::<
                int,
                Seq<char>,
            >(words@),
            Probe::File { shown, mode } => builder_resolved(root, builders, target, probes) == (
            if runnable(mode) {
                Ok::<int, Seq<char>>(i)
            } else {
                Err::<int, Seq<char>>(
                    "The builder for target \""@ + target.name + "\" is at "@ + shown@
                        + " but is not executable. Try `chmod +x "@ + shown@ + "`."@,
                )
            }),
        },
{
    the_first_probe(probes, 0);
    let places = crate::config::places_looked(root, builders, target.builder);
    let first = project_builder(root, builders, target.builder);
    if target.builder.contains('/') {
        assert(places =~= seq![first]);
        crate::laws::texts::joining_goes_piece_by_piece(seq![first], first, "\n  "@);
    } else {
        assert(places =~= seq![first].push("anywhere on PATH"@));
        crate::laws::texts::joining_goes_piece_by_piece(
            seq![first],
            "anywhere on PATH"@,
            "\n  "@,
        );
        crate::laws::texts::joining_goes_piece_by_piece(seq![first], first, "\n  "@);
    }
    if 0 <= i < probes.len() && !(probes[i] is Nothing) && (forall|j: int|
        0 <= j < i ==> #[trigger] probes[j] is Nothing) {
        let found = first_found(probes, 0);
        assert(found is Some);
        assert(found->0 == i);
    }
}

proof fn the_first_probe(probes: Seq<Probe>, n: nat)
    requires
        n <= probes.len(),
    ensures
        match first_found(probes, n) {
            Some(i) => n <= i < probes.len() && !(probes[i] is Nothing) && forall|j: int|
                n <= j < i ==> #[trigger] probes[j] is Nothing,
            None => forall|j: int| n <= j < probes.len() ==> #[trigger] probes[j] is Nothing,
        },
    decreases probes.len() - n,
{
    if n < probes.len() && probes[n as int] is Nothing {
        the_first_probe(probes, n + 1);
    }
}

} // verus!
