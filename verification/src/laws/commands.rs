//! Laws of the command line.
use vstd::prelude::*;
#[allow(unused_imports)]
use crate::config::TargetView;
#[allow(unused_imports)]
use crate::options::{
    names_among, names_listed, names_of, names_unknown, options_from, options_read, targets_chosen,
    targets_named, OptionsView,
};
#[allow(unused_imports)]
use crate::text::{joined, split, without_outer_white};

verus! {

/// Whether an option takes the argument behind it as its value.
pub open spec fn takes_a_value(arg: Seq<char>) -> bool {
    arg == "--project"@ || arg == "-p"@ || arg == "--targets"@ || arg == "-t"@
}

/// Whether an argument stands as an option: behind the command, and not as the
/// value of the option before it.
pub open spec fn stands_as_option(args: Seq<Seq<char>>, i: int) -> bool
    decreases i,
{
    i == 1 || (i > 1 && !(stands_as_option(args, i - 1) && takes_a_value(args[i - 1])))
}

/// Whether an argument sets the root.
pub open spec fn sets_root(arg: Seq<char>) -> bool {
    arg == "--project"@ || arg == "-p"@ || "--project="@.is_prefix_of(arg)
}

/// Whether an argument selects targets.
pub open spec fn selects_targets(arg: Seq<char>) -> bool {
    arg == "--targets"@ || arg == "-t"@ || "--targets="@.is_prefix_of(arg)
}

/// Whether an argument is an option that is known.
pub open spec fn is_known(arg: Seq<char>) -> bool {
    sets_root(arg) || selects_targets(arg) || arg == "--check"@ || arg == "--no-ansi"@ || arg
        == "--no-interaction"@ || arg == "-n"@
}

/// The value that option `i` gives: what stands behind it, or behind the equals
/// sign in it, where it has one.
pub open spec fn value_of(args: Seq<Seq<char>>, i: int) -> Seq<char> {
    if takes_a_value(args[i]) {
        args[i + 1]
    } else {
        args[i].skip(10)
    }
}

/// What an option is for.
pub enum Kind {
    /// It sets the root.
    Root,
    /// It selects targets.
    Selection,
}

impl Kind {
    /// Whether an argument is of the kind.
    pub open spec fn has(self, arg: Seq<char>) -> bool {
        match self {
            Kind::Root => sets_root(arg),
            Kind::Selection => selects_targets(arg),
        }
    }
}

/// Whether option `i` is the last of its kind.
pub open spec fn is_last(
    args: Seq<Seq<char>>,
    kind: Kind,
    from: int,
    i: int,
) -> bool {
    &&& from <= i < args.len()
    &&& stands_as_option(args, i)
    &&& kind.has(args[i])
    &&& forall|j: int|
        i < j < args.len() && #[trigger] stands_as_option(args, j) ==> !kind.has(args[j])
}

/// Whether there is no option of a kind.
pub open spec fn is_absent(
    args: Seq<Seq<char>>,
    kind: Kind,
    from: int,
) -> bool {
    forall|j: int|
        from <= j < args.len() && #[trigger] stands_as_option(args, j) ==> !kind.has(args[j])
}

/// Whether all options from a place on are known and have their values.
pub open spec fn are_known(args: Seq<Seq<char>>, from: int) -> bool {
    forall|i: int|
        from <= i < args.len() && #[trigger] stands_as_option(args, i) ==> is_known(args[i]) && (
        takes_a_value(args[i]) ==> i + 1 < args.len())
}

proof fn option_words(arg: Seq<char>)
    ensures
        "--project="@.len() == 10,
        "--targets="@.len() == 10,
        "--project="@.is_prefix_of(arg) ==> !takes_a_value(arg) && arg != "--check"@ && arg
            != "--no-ansi"@ && arg != "--no-interaction"@ && arg != "-n"@ && !"--targets="@.is_prefix_of(
            arg,
        ),
        "--targets="@.is_prefix_of(arg) ==> !takes_a_value(arg) && arg != "--check"@ && arg
            != "--no-ansi"@ && arg != "--no-interaction"@ && arg != "-n"@,
        "--project"@ != "--targets"@,
        "--project"@ != "-t"@,
        "-p"@ != "--targets"@,
        "-p"@ != "-t"@,
        !takes_a_value("--check"@),
        !sets_root("--check"@),
        !selects_targets("--check"@),
        !sets_root("--targets"@),
        !sets_root("-t"@),
        !selects_targets("--project"@),
        !selects_targets("-p"@),
        arg == "--no-ansi"@ || arg == "--no-interaction"@ || arg == "-n"@ ==> !takes_a_value(arg)
            && !sets_root(arg) && !selects_targets(arg) && arg != "--check"@,
{
    reveal_strlit("--project=");
    reveal_strlit("--targets=");
    reveal_strlit("--project");
    reveal_strlit("-p");
    reveal_strlit("--targets");
    reveal_strlit("-t");
    reveal_strlit("--check");
    reveal_strlit("--no-ansi");
    reveal_strlit("--no-interaction");
    reveal_strlit("-n");
    assert("--project="@[2] == 'p' && "--targets="@[2] == 't' && "--project"@[2] == 'p'
        && "--targets"@[2] == 't' && "-p"@[1] == 'p' && "-t"@[1] == 't' && "--check"@[2] == 'c'
        && "--no-ansi"@[2] == 'n' && "--no-interaction"@[2] == 'n' && "-n"@[1] == 'n');
    assert("--no-ansi"@.len() == 9 && "--no-interaction"@.len() == 16 && "--check"@.len() == 7
        && "--project"@.len() == 9 && "--targets"@.len() == 9 && "-p"@.len() == 2 && "-t"@.len()
        == 2 && "-n"@.len() == 2);
    if "--project="@.is_prefix_of(arg) {
        assert(arg.subrange(0, 10)[2] == arg[2]);
    }
    if "--targets="@.is_prefix_of(arg) {
        assert(arg.subrange(0, 10)[2] == arg[2]);
    }
    assert("--no-interaction"@.subrange(0, 10)[2] == 'n');
}

/// What the options from a place on come to.
#[verifier::rlimit(40)]
proof fn options_from_a_place_on(args: Seq<Seq<char>>, n: int, options: OptionsView)
    requires
        1 <= n <= args.len(),
        stands_as_option(args, n),
    ensures
        ({
            let read = options_from(args.skip(n), options);
            &&& read is Ok <==> are_known(args, n)
            &&& read is Ok ==> {
                let found = read->Ok_0;
                &&& found.command == options.command
                &&& found.check <==> options.check || exists|i: int|
                    n <= i < args.len() && #[trigger] stands_as_option(args, i) && args[i]
                        == "--check"@
                &&& is_absent(args, Kind::Root, n) ==> found.root
                    == options.root
                &&& forall|i: int| #[trigger]
                    is_last(args, Kind::Root, n, i) ==> found.root == value_of(
                        args,
                        i,
                    )
                &&& is_absent(args, Kind::Selection, n) ==> found.selected
                    == options.selected
                &&& forall|i: int| #[trigger]
                    is_last(args, Kind::Selection, n, i) ==> found.selected
                        == Some(value_of(args, i))
            }
        }),
    decreases args.len() - n,
{
    let rest = args.skip(n);
    let roots = Kind::Root;
    let choices = Kind::Selection;
    if n < args.len() {
        let arg = args[n];
        option_words(arg);
        assert(rest[0] == arg);
        let known = is_known(arg) && (takes_a_value(arg) ==> n + 1 < args.len());
        if known {
            let step: int = if takes_a_value(arg) {
                2
            } else {
                1
            };
            assert(rest.skip(step) =~= args.skip(n + step));
            if takes_a_value(arg) {
                assert(rest[1] == args[n + 1]);
                assert(!stands_as_option(args, n + 1));
            }
            assert(stands_as_option(args, n + step));
            assert forall|j: int| n < j < n + step implies !stands_as_option(args, j) by {}
            let now = if arg == "--project"@ || arg == "-p"@ {
                OptionsView { root: args[n + 1], ..options }
            } else if arg == "--targets"@ || arg == "-t"@ {
                OptionsView { selected: Some(args[n + 1]), ..options }
            } else if arg == "--check"@ {
                OptionsView { check: true, ..options }
            } else if "--project="@.is_prefix_of(arg) {
                OptionsView { root: arg.skip(10), ..options }
            } else if "--targets="@.is_prefix_of(arg) {
                OptionsView { selected: Some(arg.skip(10)), ..options }
            } else {
                options
            };
            options_from_a_place_on(args, n + step, now);
            assert(options_from(rest, options) == options_from(args.skip(n + step), now));
            assert(are_known(args, n) <==> are_known(args, n + step)) by {
                if are_known(args, n + step) {
                    assert forall|i: int|
                        n <= i < args.len() && #[trigger] stands_as_option(
                            args,
                            i,
                        ) implies is_known(args[i]) && (takes_a_value(args[i]) ==> i + 1
                        < args.len()) by {
                        if i > n {
                            assert(i >= n + step);
                        }
                    }
                }
            }
            let read = options_from(rest, options);
            if read is Ok {
                let found = read->Ok_0;
                assert(found.check <==> options.check || exists|i: int|
                    n <= i < args.len() && #[trigger] stands_as_option(args, i) && args[i]
                        == "--check"@) by {
                    if arg == "--check"@ {
                        assert(stands_as_option(args, n) && args[n] == "--check"@);
                    }
                    if exists|i: int|
                        n + step <= i < args.len() && #[trigger] stands_as_option(args, i)
                            && args[i] == "--check"@ {
                        let i = choose|i: int|
                            n + step <= i < args.len() && #[trigger] stands_as_option(args, i)
                                && args[i] == "--check"@;
                        assert(n <= i);
                    }
                    if exists|i: int|
                        n <= i < args.len() && #[trigger] stands_as_option(args, i) && args[i]
                            == "--check"@ {
                        let i = choose|i: int|
                            n <= i < args.len() && #[trigger] stands_as_option(args, i)
                                && args[i] == "--check"@;
                        if i > n {
                            assert(i >= n + step);
                        }
                    }
                }
                the_last_of_a_kind(args, roots, n, step);
                the_last_of_a_kind(args, choices, n, step);
                assert(is_absent(args, roots, n) ==> found.root == options.root);
                assert forall|i: int| #[trigger] is_last(args, roots, n, i) implies found.root
                    == value_of(args, i) by {
                    if i == n {
                        assert(is_absent(args, roots, n + step));
                    } else {
                        assert(is_last(args, roots, n + step, i));
                    }
                }
                assert(is_absent(args, choices, n) ==> found.selected == options.selected);
                assert forall|i: int| #[trigger] is_last(args, choices, n, i) implies found.selected
                    == Some(value_of(args, i)) by {
                    if i == n {
                        assert(is_absent(args, choices, n + step));
                    } else {
                        assert(is_last(args, choices, n + step, i));
                    }
                }
            }
        } else {
            assert(!are_known(args, n)) by {
                assert(stands_as_option(args, n));
            }
        }
    }
}

proof fn the_last_of_a_kind(
    args: Seq<Seq<char>>,
    kind: Kind,
    n: int,
    step: int,
)
    requires
        1 <= n < args.len(),
        step >= 1,
        stands_as_option(args, n),
        forall|j: int| n < j < n + step ==> !#[trigger] stands_as_option(args, j),
    ensures
        is_absent(args, kind, n) <==> is_absent(args, kind, n + step) && !kind.has(args[n]),
        is_last(args, kind, n, n) ==> is_absent(args, kind, n + step),
        forall|i: int|
            i != n ==> (#[trigger] is_last(args, kind, n, i) ==> is_last(args, kind, n + step, i)),
{
    if is_absent(args, kind, n + step) && !kind.has(args[n]) {
        assert forall|j: int|
            n <= j < args.len() && #[trigger] stands_as_option(args, j) implies !kind.has(args[j]) by {
            if j > n {
                assert(j >= n + step);
            }
        }
    }
    if is_absent(args, kind, n) {
        assert(stands_as_option(args, n));
    }
    assert forall|i: int| i != n && #[trigger] is_last(args, kind, n, i) implies is_last(
        args,
        kind,
        n + step,
        i,
    ) by {
        assert(i >= n + step);
    }
}

/// The command line is read exactly where each argument that stands as an option
/// is known and has its value. The command is the first argument. A check is
/// asked for exactly where some option is `--check`, wherever it stands. The root
/// and the selection are those of the last option that gives one; without any,
/// the root is the current directory, and nothing is selected.
pub proof fn options_are_read_wherever_they_stand(args: Seq<Seq<char>>)
    requires
        args.len() > 0,
    ensures
        options_read(args) is Ok <==> are_known(args, 1),
        options_read(args) is Ok ==> {
            let options = options_read(args)->Ok_0;
            &&& options.command == args[0]
            &&& options.check <==> exists|i: int|
                1 <= i < args.len() && #[trigger] stands_as_option(args, i) && args[i]
                    == "--check"@
            &&& is_absent(args, Kind::Root, 1) ==> options.root == "."@
            &&& forall|i: int| #[trigger]
                is_last(args, Kind::Root, 1, i) ==> options.root == value_of(
                    args,
                    i,
                )
            &&& is_absent(args, Kind::Selection, 1) ==> options.selected
                is None
            &&& forall|i: int| #[trigger]
                is_last(args, Kind::Selection, 1, i) ==> options.selected
                    == Some(value_of(args, i))
        },
{
    let plain = OptionsView { command: args[0], root: "."@, check: false, selected: None };
    options_from_a_place_on(args, 1, plain);
}

/// The first option that is not known, or lacks its value, is told of.
pub proof fn the_first_unknown_option_is_told(args: Seq<Seq<char>>, i: int)
    requires
        1 <= i < args.len(),
        stands_as_option(args, i),
        !(is_known(args[i]) && (takes_a_value(args[i]) ==> i + 1 < args.len())),
        forall|j: int|
            1 <= j < i && #[trigger] stands_as_option(args, j) ==> is_known(args[j]) && (
            takes_a_value(args[j]) ==> j + 1 < args.len()),
    ensures
        options_read(args) == Err::<OptionsView, Seq<char>>(
            if args[i] == "--project"@ || args[i] == "-p"@ {
                "--project must be a directory path."@
            } else if args[i] == "--targets"@ || args[i] == "-t"@ {
                "--targets needs at least one target name."@
            } else {
                "Unknown option "@ + args[i] + "."@
            },
        ),
{
    let plain = OptionsView { command: args[0], root: "."@, check: false, selected: None };
    the_first_unknown_from_a_place_on(args, 1, plain, i);
}

proof fn the_first_unknown_from_a_place_on(
    args: Seq<Seq<char>>,
    n: int,
    options: OptionsView,
    i: int,
)
    requires
        1 <= n <= i < args.len(),
        stands_as_option(args, n),
        stands_as_option(args, i),
        !(is_known(args[i]) && (takes_a_value(args[i]) ==> i + 1 < args.len())),
        forall|j: int|
            n <= j < i && #[trigger] stands_as_option(args, j) ==> is_known(args[j]) && (
            takes_a_value(args[j]) ==> j + 1 < args.len()),
    ensures
        options_from(args.skip(n), options) == Err::<OptionsView, Seq<char>>(
            if args[i] == "--project"@ || args[i] == "-p"@ {
                "--project must be a directory path."@
            } else if args[i] == "--targets"@ || args[i] == "-t"@ {
                "--targets needs at least one target name."@
            } else {
                "Unknown option "@ + args[i] + "."@
            },
        ),
    decreases args.len() - n,
{
    let rest = args.skip(n);
    let arg = args[n];
    option_words(arg);
    assert(rest[0] == arg);
    if n < i {
        let step: int = if takes_a_value(arg) {
            2
        } else {
            1
        };
        assert(rest.skip(step) =~= args.skip(n + step));
        if takes_a_value(arg) {
            assert(rest[1] == args[n + 1]);
            assert(!stands_as_option(args, n + 1));
        }
        assert(stands_as_option(args, n + step));
        let now = if arg == "--project"@ || arg == "-p"@ {
            OptionsView { root: args[n + 1], ..options }
        } else if arg == "--targets"@ || arg == "-t"@ {
            OptionsView { selected: Some(args[n + 1]), ..options }
        } else if arg == "--check"@ {
            OptionsView { check: true, ..options }
        } else if "--project="@.is_prefix_of(arg) {
            OptionsView { root: arg.skip(10), ..options }
        } else if "--targets="@.is_prefix_of(arg) {
            OptionsView { selected: Some(arg.skip(10)), ..options }
        } else {
            options
        };
        assert(i >= n + step);
        the_first_unknown_from_a_place_on(args, n + step, now, i);
    }
}

/// Without arguments the command is to help, in the current directory.
pub proof fn without_arguments_help_is_asked_for()
    ensures
        options_read(Seq::empty()) == Ok::<OptionsView, Seq<char>>(
            OptionsView { command: "help"@, root: "."@, check: false, selected: None },
        ),
{
}

/// Whether a name is one that a list of names asks for.
pub open spec fn asks_for(list: Seq<char>, name: Seq<char>) -> bool {
    name.len() > 0 && exists|i: int|
        0 <= i < split(list, ',').len() && without_outer_white(#[trigger] split(list, ',')[i])
            == name
}

proof fn names_are_those_of_the_pieces(pieces: Seq<Seq<char>>, name: Seq<char>)
    ensures
        names_among(pieces).contains(name) <==> name.len() > 0 && exists|i: int|
            0 <= i < pieces.len() && without_outer_white(#[trigger] pieces[i]) == name,
    decreases pieces.len(),
{
    if pieces.len() > 0 {
        let front = pieces.drop_last();
        let before = names_among(front);
        let all = names_among(pieces);
        names_are_those_of_the_pieces(front, name);
        if all.contains(name) {
            let k = choose|k: int| 0 <= k < all.len() && all[k] == name;
            if k < before.len() {
                assert(before[k] == name);
                let i = choose|i: int|
                    0 <= i < front.len() && without_outer_white(#[trigger] front[i]) == name;
                assert(pieces[i] == front[i]);
            } else {
                assert(without_outer_white(pieces[pieces.len() - 1]) == name);
            }
        }
        if name.len() > 0 && exists|i: int|
            0 <= i < pieces.len() && without_outer_white(#[trigger] pieces[i]) == name {
            let i = choose|i: int|
                0 <= i < pieces.len() && without_outer_white(#[trigger] pieces[i]) == name;
            if i < front.len() {
                assert(without_outer_white(front[i]) == name);
                let k = choose|k: int| 0 <= k < before.len() && before[k] == name;
                assert(all[k] == name);
            } else {
                assert(all.last() == name);
            }
        }
    }
}

proof fn names_are_kept_in_order(pieces: Seq<Seq<char>>)
    ensures
        names_among(pieces) == pieces.map_values(
            |piece: Seq<char>| without_outer_white(piece),
        ).filter(|name: Seq<char>| name.len() > 0),
    decreases pieces.len(),
{
    reveal(Seq::filter);
    let trim = |piece: Seq<char>| without_outer_white(piece);
    let some = |name: Seq<char>| name.len() > 0;
    let all = pieces.map_values(trim);
    if pieces.len() > 0 {
        names_are_kept_in_order(pieces.drop_last());
        assert(all.drop_last() =~= pieces.drop_last().map_values(trim));
        assert(all.last() == trim(pieces.last()));
    } else {
        assert(all.filter(some) =~= Seq::empty());
    }
}

/// A list asks for the names between its commas, without the white space around
/// them and without the empty ones, in order.
pub proof fn names_stand_between_commas(list: Seq<char>)
    ensures
        names_listed(list) == split(list, ',').map_values(
            |piece: Seq<char>| without_outer_white(piece),
        ).filter(|name: Seq<char>| name.len() > 0),
{
    names_are_kept_in_order(split(list, ','));
}

proof fn unknown_names(names: Seq<Seq<char>>, targets: Seq<TargetView>)
    ensures
        names_unknown(names, targets).len() == 0 <==> forall|i: int|
            0 <= i < names.len() ==> exists|j: int|
                0 <= j < targets.len() && (#[trigger] targets[j]).name == #[trigger] names[i],
        names_unknown(names, targets) == names.filter(
            |name: Seq<char>| !names_of(targets).contains(name),
        ),
    decreases names.len(),
{
    reveal(Seq::filter);
    if names.len() > 0 {
        let front = names.drop_last();
        let last = names.last();
        unknown_names(front, targets);
        assert(names_of(targets).contains(last) <==> exists|j: int|
            0 <= j < targets.len() && (#[trigger] targets[j]).name == last) by {
            if names_of(targets).contains(last) {
                let j = choose|j: int| 0 <= j < targets.len() && names_of(targets)[j] == last;
                assert(targets[j].name == last);
            }
            if exists|j: int| 0 <= j < targets.len() && (#[trigger] targets[j]).name == last {
                let j = choose|j: int| 0 <= j < targets.len() && (#[trigger] targets[j]).name
                    == last;
                assert(names_of(targets)[j] == last);
            }
        }
        if names_unknown(names, targets).len() == 0 {
            assert forall|i: int| 0 <= i < names.len() implies exists|j: int|
                0 <= j < targets.len() && (#[trigger] targets[j]).name == #[trigger] names[i] by {
                if i < front.len() {
                    assert(front[i] == names[i]);
                }
            }
        }
        if forall|i: int|
            0 <= i < names.len() ==> exists|j: int|
                0 <= j < targets.len() && (#[trigger] targets[j]).name == #[trigger] names[i] {
            assert forall|i: int| 0 <= i < front.len() implies exists|j: int|
                0 <= j < targets.len() && (#[trigger] targets[j]).name == #[trigger] front[i] by {
                assert(names[i] == front[i]);
            }
            assert(names[names.len() - 1] == last);
        }
    }
}

proof fn named_targets(targets: Seq<TargetView>, names: Seq<Seq<char>>)
    ensures
        targets_named(targets, names) == targets.filter(
            |target: TargetView| names.contains(target.name),
        ),
    decreases targets.len(),
{
    reveal(Seq::filter);
    if targets.len() > 0 {
        named_targets(targets.drop_last(), names);
    }
}

/// Targets are chosen exactly where each name that the list asks for is that of
/// a target, and it asks for some. Chosen are then the targets that it asks for,
/// in the order of the project, and all where there is no list.
pub proof fn the_targets_asked_for_are_chosen(
    targets: Seq<TargetView>,
    list: Seq<char>,
    name: Seq<char>,
)
    ensures
        targets_chosen(targets, None) == Ok::<Seq<TargetView>, Seq<char>>(targets),
        targets_chosen(targets, Some(list)) is Ok ==> {
            let chosen = targets_chosen(targets, Some(list))->Ok_0;
            &&& chosen == targets.filter(|target: TargetView| asks_for(list, target.name))
            &&& asks_for(list, name) ==> exists|j: int|
                0 <= j < targets.len() && (#[trigger] targets[j]).name == name
        },
        targets_chosen(targets, Some(list)) is Err ==> (forall|other: Seq<char>|
            !asks_for(list, other)) || exists|other: Seq<char>|
            asks_for(list, other) && forall|j: int|
                0 <= j < targets.len() ==> (#[trigger] targets[j]).name != other,
        (forall|other: Seq<char>| !asks_for(list, other)) ==> targets_chosen(targets, Some(list))
            == Err::<Seq<TargetView>, Seq<char>>("--targets needs at least one target name."@),
{
    let names = names_listed(list);
    let pieces = split(list, ',');
    assert forall|other: Seq<char>| names.contains(other) <==> #[trigger] asks_for(list, other) by {
        names_are_those_of_the_pieces(pieces, other);
    }
    unknown_names(names, targets);
    named_targets(targets, names);
    let in_names = |target: TargetView| names.contains(target.name);
    let asked = |target: TargetView| asks_for(list, target.name);
    assert(in_names =~= asked);
    if names.len() > 0 {
        assert(names.contains(names[0]));
        assert(asks_for(list, names[0]));
    } else {
        assert forall|other: Seq<char>| !asks_for(list, other) by {
            assert(!names.contains(other));
        }
    }
    if targets_chosen(targets, Some(list)) is Ok && asks_for(list, name) {
        assert(names.contains(name));
        let i = choose|i: int| 0 <= i < names.len() && names[i] == name;
        assert(exists|j: int|
            0 <= j < targets.len() && (#[trigger] targets[j]).name == names[i]);
    }
    if targets_chosen(targets, Some(list)) is Err && names.len() > 0 {
        let i = choose|i: int|
            0 <= i < names.len() && !(exists|j: int|
                0 <= j < targets.len() && (#[trigger] targets[j]).name == #[trigger] names[i]);
        assert(names.contains(names[i]));
        assert(asks_for(list, names[i]));
    }
}

/// The complaint about names that no target has tells each of them, in order,
/// and the names of all targets.
pub proof fn unknown_names_are_told(targets: Seq<TargetView>, list: Seq<char>)
    requires
        targets_chosen(targets, Some(list)) is Err,
        names_listed(list).len() > 0,
    ensures
        targets_chosen(targets, Some(list))->Err_0 == "Unknown target(s): "@ + joined(
            names_listed(list).filter(
                |name: Seq<char>|
                    !targets.map_values(|target: TargetView| target.name).contains(name),
            ),
            ", "@,
        ) + ". This project configures: "@ + joined(
            targets.map_values(|target: TargetView| target.name),
            ", "@,
        ) + "."@,
{
    let names = names_listed(list);
    unknown_names(names, targets);
    let all = targets.map_values(|target: TargetView| target.name);
    assert(names_of(targets) =~= all);
    assert((|name: Seq<char>| !names_of(targets).contains(name)) =~= (|name: Seq<char>|
        !all.contains(name)));
}

} // verus!
