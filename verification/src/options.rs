//! The command line, and the choice of targets that it makes.
use vstd::prelude::*;
use crate::config::Target;
#[allow(unused_imports)]
use crate::config::{directories_apart, names_apart, targets_view, TargetView};
use crate::text::{join, same, split_at_each, strip, trim_white};
#[allow(unused_imports)]
use crate::text::{joined, split, stripped, texts, without_outer_white};

verus! {

/// What the command line asks for.
pub struct Options {
    pub command: String,
    pub root: String,
    pub check: bool,
    pub selected: Option<String>,
}

/// What [`Options`] hold.
pub struct OptionsView {
    pub command: Seq<char>,
    pub root: Seq<char>,
    pub check: bool,
    pub selected: Option<Seq<char>>,
}

/// What an optional string holds.
pub open spec fn optional_view(text: Option<String>) -> Option<Seq<char>> {
    match text {
        Some(text) => Some(text@),
        None => None,
    }
}

impl View for Options {
    type V = OptionsView;

    open spec fn view(&self) -> OptionsView {
        OptionsView {
            command: self.command@,
            root: self.root@,
            check: self.check,
            selected: optional_view(self.selected),
        }
    }
}

/// The options after the arguments, each taken in turn, or what is wrong with
/// the first that is not understood.
pub open spec fn options_from(args: Seq<Seq<char>>, options: OptionsView) -> Result<
    OptionsView,
    Seq<char>,
>
    decreases args.len(),
{
    if args.len() == 0 {
        Ok(options)
    } else {
        let arg = args[0];
        if arg == "--project"@ || arg == "-p"@ {
            if args.len() < 2 {
                Err("--project must be a directory path."@)
            } else {
                options_from(args.skip(2), OptionsView { root: args[1], ..options })
            }
        } else if arg == "--targets"@ || arg == "-t"@ {
            if args.len() < 2 {
                Err("--targets needs at least one target name."@)
            } else {
                options_from(args.skip(2), OptionsView { selected: Some(args[1]), ..options })
            }
        } else if arg == "--check"@ {
            options_from(args.skip(1), OptionsView { check: true, ..options })
        } else if arg == "--no-ansi"@ || arg == "--no-interaction"@ || arg == "-n"@ {
            options_from(args.skip(1), options)
        } else {
            match stripped(arg, "--project="@) {
                Some(root) => options_from(args.skip(1), OptionsView { root, ..options }),
                None => match stripped(arg, "--targets="@) {
                    Some(names) => options_from(
                        args.skip(1),
                        OptionsView { selected: Some(names), ..options },
                    ),
                    None => Err("Unknown option "@ + arg + "."@),
                },
            }
        }
    }
}

/// What the command line asks for: the command, which is to help where there is
/// none, and the options.
pub open spec fn options_read(args: Seq<Seq<char>>) -> Result<OptionsView, Seq<char>> {
    let plain = OptionsView {
        command: "help"@,
        root: "."@,
        check: false,
        selected: None,
    };
    if args.len() == 0 {
        Ok(plain)
    } else {
        options_from(args.skip(1), OptionsView { command: args[0], ..plain })
    }
}

/// What a reading of the command line comes to.
pub open spec fn options_result(result: Result<Options, String>) -> Result<
    OptionsView,
    Seq<char>,
> {
    match result {
        Ok(options) => Ok(options@),
        Err(fault) => Err(fault@),
    }
}

/// Reads the command line, without the name of the program.
pub fn read_options(args: &Vec<String>) -> (result: Result<Options, String>)
    ensures
        options_result(result) == options_read(texts(args@)),
{
    let ghost all = texts(args@);
    let mut options = Options {
        command: "help".to_owned(),
        root: ".".to_owned(),
        check: false,
        selected: None,
    };
    if args.len() == 0 {
        return Ok(options);
    }
    options.command = args[0].clone();
    let mut i: usize = 1;
    while i < args.len()
        invariant
            1 <= i <= args@.len(),
            all == texts(args@),
            options_from(all.skip(i as int), options@) == options_read(all),
        decreases args@.len() - i,
    {
        let arg = args[i].as_str();
        let ghost rest = all.skip(i as int);
        assert(rest[0] == arg@);
        assert(rest.skip(1) =~= all.skip(i + 1));
        if same(arg, "--project") || same(arg, "-p") {
            if i + 1 >= args.len() {
                return Err("--project must be a directory path.".to_owned());
            }
            assert(rest[1] == args@[i + 1]@);
            assert(rest.skip(2) =~= all.skip(i + 2));
            options.root = args[i + 1].clone();
            i += 2;
        } else if same(arg, "--targets") || same(arg, "-t") {
            if i + 1 >= args.len() {
                return Err("--targets needs at least one target name.".to_owned());
            }
            assert(rest[1] == args@[i + 1]@);
            assert(rest.skip(2) =~= all.skip(i + 2));
            options.selected = Some(args[i + 1].clone());
            i += 2;
        } else if same(arg, "--check") {
            options.check = true;
            i += 1;
        } else if same(arg, "--no-ansi") || same(arg, "--no-interaction") || same(arg, "-n") {
            i += 1;
        } else {
            match strip(arg, "--project=") {
                Some(root) => {
                    options.root = root;
                },
                None => match strip(arg, "--targets=") {
                    Some(names) => {
                        options.selected = Some(names);
                    },
                    None => {
                        let mut fault = "Unknown option ".to_owned();
                        fault.append(arg);
                        fault.append(".");
                        return Err(fault);
                    },
                },
            }
            i += 1;
        }
    }
    Ok(options)
}

/// The names in a list of pieces: trimmed, and without the empty ones.
pub open spec fn names_among(pieces: Seq<Seq<char>>) -> Seq<Seq<char>>
    decreases pieces.len(),
{
    if pieces.len() == 0 {
        Seq::empty()
    } else {
        let before = names_among(pieces.drop_last());
        let name = without_outer_white(pieces.last());
        if name.len() > 0 {
            before.push(name)
        } else {
            before
        }
    }
}

/// The names that are separated by commas.
pub open spec fn names_listed(list: Seq<char>) -> Seq<Seq<char>> {
    names_among(split(list, ','))
}

/// The names of targets.
pub open spec fn names_of(targets: Seq<TargetView>) -> Seq<Seq<char>> {
    targets.map_values(|target: TargetView| target.name)
}

/// The names that no target has.
pub open spec fn names_unknown(names: Seq<Seq<char>>, targets: Seq<TargetView>) -> Seq<Seq<char>>
    decreases names.len(),
{
    if names.len() == 0 {
        Seq::empty()
    } else {
        let before = names_unknown(names.drop_last(), targets);
        if names_of(targets).contains(names.last()) {
            before
        } else {
            before.push(names.last())
        }
    }
}

/// The targets that have one of the names.
pub open spec fn targets_named(targets: Seq<TargetView>, names: Seq<Seq<char>>) -> Seq<TargetView>
    decreases targets.len(),
{
    if targets.len() == 0 {
        Seq::empty()
    } else {
        let before = targets_named(targets.drop_last(), names);
        if names.contains(targets.last().name) {
            before.push(targets.last())
        } else {
            before
        }
    }
}

/// The targets that the command line chooses, all where it names none, or what
/// is wrong with the names.
pub open spec fn targets_chosen(
    targets: Seq<TargetView>,
    selected: Option<Seq<char>>,
) -> Result<Seq<TargetView>, Seq<char>> {
    match selected {
        None => Ok(targets),
        Some(list) => {
            let names = names_listed(list);
            let unknown = names_unknown(names, targets);
            if names.len() == 0 {
                Err("--targets needs at least one target name."@)
            } else if unknown.len() > 0 {
                Err(
                    "Unknown target(s): "@ + joined(unknown, ", "@)
                        + ". This project configures: "@ + joined(names_of(targets), ", "@)
                        + "."@,
                )
            } else {
                Ok(targets_named(targets, names))
            }
        },
    }
}

/// What a choice of targets comes to.
pub open spec fn chosen_result(result: Result<Vec<Target>, String>) -> Result<
    Seq<TargetView>,
    Seq<char>,
> {
    match result {
        Ok(targets) => Ok(targets_view(targets@)),
        Err(fault) => Err(fault@),
    }
}

/// Whether a text is in a list.
fn listed(texts_in: &Vec<String>, text: &str) -> (yes: bool)
    ensures
        yes == texts(texts_in@).contains(text@),
{
    let ghost all = texts(texts_in@);
    let mut i: usize = 0;
    while i < texts_in.len()
        invariant
            i <= texts_in@.len(),
            all == texts(texts_in@),
            forall|j: int| 0 <= j < i ==> #[trigger] all[j] != text@,
        decreases texts_in@.len() - i,
    {
        assert(all[i as int] == texts_in@[i as int]@);
        if same(texts_in[i].as_str(), text) {
            return true;
        }
        i += 1;
    }
    false
}

/// The names that are separated by commas.
fn read_names(list: &str) -> (names: Vec<String>)
    ensures
        texts(names@) == names_listed(list@),
{
    let pieces = split_at_each(list, ',');
    let ghost all = texts(pieces@);
    let mut names: Vec<String> = Vec::new();
    let mut i: usize = 0;
    assert(texts(names@) =~= Seq::empty());
    while i < pieces.len()
        invariant
            i <= pieces@.len(),
            all == texts(pieces@),
            texts(names@) == names_among(all.take(i as int)),
        decreases pieces@.len() - i,
    {
        assert(all.take(i + 1).drop_last() =~= all.take(i as int));
        assert(all.take(i + 1).last() == pieces@[i as int]@);
        let name = trim_white(pieces[i].as_str());
        if !name.as_str().is_empty() {
            let ghost before = texts(names@);
            names.push(name);
            assert(texts(names@) =~= before.push(name@));
        }
        i += 1;
    }
    assert(all.take(i as int) =~= all);
    names
}

/// The names of targets.
fn target_names(targets: &Vec<Target>) -> (names: Vec<String>)
    ensures
        texts(names@) == names_of(targets_view(targets@)),
{
    let mut names: Vec<String> = Vec::new();
    let mut i: usize = 0;
    while i < targets.len()
        invariant
            i <= targets@.len(),
            names@.len() == i,
            forall|j: int| 0 <= j < i ==> (#[trigger] names@[j])@ == targets@[j]@.name,
        decreases targets@.len() - i,
    {
        names.push(targets[i].name.clone());
        i += 1;
    }
    assert(texts(names@) =~= names_of(targets_view(targets@)));
    names
}

impl Target {
    /// A copy of the target.
    pub fn duplicate(&self) -> (copy: Target)
        ensures
            copy@ == self@,
    {
        Target {
            name: self.name.clone(),
            output: self.output.clone(),
            builder: self.builder.clone(),
            settings: self.settings.duplicate(),
        }
    }
}

/// The targets that the command line chooses, or what is wrong with the names.
pub fn choose_targets(targets: &Vec<Target>, selected: &Option<String>) -> (result: Result<
    Vec<Target>,
    String,
>)
    ensures
        chosen_result(result) == targets_chosen(
            targets_view(targets@),
            optional_view(*selected),
        ),
{
    let ghost all = targets_view(targets@);
    let mut chosen: Vec<Target> = Vec::new();
    let mut i: usize = 0;
    match selected {
        None => {
            while i < targets.len()
                invariant
                    i <= targets@.len(),
                    chosen@.len() == i,
                    forall|j: int| 0 <= j < i ==> (#[trigger] chosen@[j])@ == targets@[j]@,
                decreases targets@.len() - i,
            {
                chosen.push(targets[i].duplicate());
                i += 1;
            }
            assert(targets_view(chosen@) =~= all);
            Ok(chosen)
        },
        Some(list) => {
            let names = read_names(list.as_str());
            if names.len() == 0 {
                return Err("--targets needs at least one target name.".to_owned());
            }
            let known = target_names(targets);
            let ghost asked = texts(names@);
            let mut unknown: Vec<String> = Vec::new();
            assert(texts(unknown@) =~= Seq::empty());
            while i < names.len()
                invariant
                    i <= names@.len(),
                    asked == texts(names@),
                    texts(known@) == names_of(all),
                    texts(unknown@) == names_unknown(asked.take(i as int), all),
                decreases names@.len() - i,
            {
                assert(asked.take(i + 1).drop_last() =~= asked.take(i as int));
                assert(asked.take(i + 1).last() == names@[i as int]@);
                if !listed(&known, names[i].as_str()) {
                    let ghost before = texts(unknown@);
                    unknown.push(names[i].clone());
                    assert(texts(unknown@) =~= before.push(names@[i as int]@));
                }
                i += 1;
            }
            assert(asked.take(i as int) =~= asked);
            if unknown.len() > 0 {
                let mut fault = "Unknown target(s): ".to_owned();
                fault.append(join(&unknown, ", ").as_str());
                fault.append(". This project configures: ");
                fault.append(join(&known, ", ").as_str());
                fault.append(".");
                return Err(fault);
            }
            i = 0;
            assert(targets_view(chosen@) =~= Seq::empty());
            while i < targets.len()
                invariant
                    i <= targets@.len(),
                    all == targets_view(targets@),
                    asked == texts(names@),
                    targets_view(chosen@) == targets_named(all.take(i as int), asked),
                decreases targets@.len() - i,
            {
                assert(all.take(i + 1).drop_last() =~= all.take(i as int));
                assert(all.take(i + 1).last() == targets@[i as int]@);
                if listed(&names, targets[i].name.as_str()) {
                    let ghost before = targets_view(chosen@);
                    chosen.push(targets[i].duplicate());
                    assert(targets_view(chosen@) =~= before.push(targets@[i as int]@));
                }
                i += 1;
            }
            assert(all.take(i as int) =~= all);
            Ok(chosen)
        },
    }
}

proof fn named_targets_are_a_choice(
    targets: Seq<TargetView>,
    names: Seq<Seq<char>>,
    target: TargetView,
)
    ensures
        targets_named(targets, names).contains(target) <==> targets.contains(target)
            && names.contains(target.name),
        targets_named(targets, names).len() <= targets.len(),
    decreases targets.len(),
{
    if targets.len() > 0 {
        let front = targets.drop_last();
        let before = targets_named(front, names);
        let all = targets_named(targets, names);
        named_targets_are_a_choice(front, names, target);
        if targets.contains(target) {
            let i = choose|i: int| 0 <= i < targets.len() && targets[i] == target;
            if i < front.len() {
                assert(front[i] == target);
            }
        }
        if front.contains(target) {
            let i = choose|i: int| 0 <= i < front.len() && front[i] == target;
            assert(targets[i] == target);
        }
        if before.contains(target) {
            let i = choose|i: int| 0 <= i < before.len() && before[i] == target;
            assert(all[i] == target);
        }
        if all.contains(target) {
            let i = choose|i: int| 0 <= i < all.len() && all[i] == target;
            if i < before.len() {
                assert(before[i] == target);
            } else {
                assert(targets[targets.len() - 1] == target);
            }
        }
        if target == targets.last() && names.contains(target.name) {
            assert(all[all.len() - 1] == target);
            assert(targets[targets.len() - 1] == target);
        }
    }
}

proof fn a_name_that_is_not_unknown(
    names: Seq<Seq<char>>,
    targets: Seq<TargetView>,
    name: Seq<char>,
)
    requires
        names.contains(name),
        names_unknown(names, targets).len() == 0,
    ensures
        names_of(targets).contains(name),
    decreases names.len(),
{
    let i = choose|i: int| 0 <= i < names.len() && names[i] == name;
    let front = names.drop_last();
    if i < front.len() {
        assert(front[i] == name);
        a_name_that_is_not_unknown(front, targets, name);
    }
}

/// What is chosen by a list of names are the project's targets that it names,
/// and each name is that of one of them; without a list all are chosen.
pub proof fn a_choice_is_what_is_named(
    targets: Seq<TargetView>,
    selected: Option<Seq<char>>,
    target: TargetView,
    name: Seq<char>,
)
    requires
        targets_chosen(targets, selected) is Ok,
    ensures
        selected is None ==> targets_chosen(targets, selected)->Ok_0 == targets,
        selected is Some ==> {
            let chosen = targets_chosen(targets, selected)->Ok_0;
            let names = names_listed(selected->0);
            &&& chosen.len() > 0
            &&& chosen.contains(target) <==> targets.contains(target) && names.contains(
                target.name,
            )
            &&& names.contains(name) ==> names_of(chosen).contains(name)
        },
{
    if selected is Some {
        let names = names_listed(selected->0);
        named_targets_are_a_choice(targets, names, target);
        assert(names.contains(names[0]));
        a_name_is_chosen(targets, names, names[0]);
        if names.contains(name) {
            a_name_is_chosen(targets, names, name);
        }
    }
}

proof fn a_name_is_chosen(targets: Seq<TargetView>, names: Seq<Seq<char>>, name: Seq<char>)
    requires
        names.contains(name),
        names_unknown(names, targets).len() == 0,
    ensures
        names_of(targets_named(targets, names)).contains(name),
{
    a_name_that_is_not_unknown(names, targets, name);
    let i = choose|i: int| 0 <= i < targets.len() && names_of(targets)[i] == name;
    named_targets_are_a_choice(targets, names, targets[i]);
    let chosen = targets_named(targets, names);
    assert(targets.contains(targets[i]));
    let j = choose|j: int| 0 <= j < chosen.len() && chosen[j] == targets[i];
    assert(names_of(chosen)[j] == name);
}

/// Chosen targets are targets of the project, and as much apart as those are.
pub proof fn a_choice_keeps_targets_apart(
    targets: Seq<TargetView>,
    selected: Option<Seq<char>>,
)
    requires
        targets_chosen(targets, selected) is Ok,
    ensures
        forall|i: int|
            0 <= i < targets_chosen(targets, selected)->Ok_0.len() ==> targets.contains(
                #[trigger] targets_chosen(targets, selected)->Ok_0[i],
            ),
        names_apart(targets) ==> names_apart(targets_chosen(targets, selected)->Ok_0),
        directories_apart(targets) ==> directories_apart(targets_chosen(targets, selected)->Ok_0),
{
    if selected is Some {
        named_targets_stay_apart(targets, names_listed(selected->0));
    }
}

proof fn named_targets_stay_apart(targets: Seq<TargetView>, names: Seq<Seq<char>>)
    ensures
        forall|i: int|
            0 <= i < targets_named(targets, names).len() ==> targets.contains(
                #[trigger] targets_named(targets, names)[i],
            ),
        names_apart(targets) ==> names_apart(targets_named(targets, names)),
        directories_apart(targets) ==> directories_apart(targets_named(targets, names)),
    decreases targets.len(),
{
    if targets.len() > 0 {
        let front = targets.drop_last();
        let before = targets_named(front, names);
        let all = targets_named(targets, names);
        named_targets_stay_apart(front, names);
        assert forall|i: int| 0 <= i < all.len() implies targets.contains(#[trigger] all[i]) by {
            if i < before.len() {
                assert(front.contains(before[i]));
                let k = choose|k: int| 0 <= k < front.len() && front[k] == before[i];
                assert(targets[k] == all[i]);
            } else {
                assert(targets[targets.len() - 1] == all[i]);
            }
        }
        assert forall|i: int, j: int| 0 <= i < j < all.len() implies (names_apart(targets)
            ==> all[i].name != all[j].name) && (directories_apart(targets) ==> all[i].directory()
            != all[j].directory()) by {
            assert(front.contains(before[i]));
            let k = choose|k: int| 0 <= k < front.len() && front[k] == before[i];
            assert(targets[k] == all[i]);
            if j < before.len() {
                if names_apart(targets) {
                    assert forall|a: int, b: int| 0 <= a < b < front.len() implies front[a].name
                        != front[b].name by {
                        assert(targets[a].name != targets[b].name);
                    }
                    assert(before[i].name != before[j].name);
                }
                if directories_apart(targets) {
                    assert forall|a: int, b: int|
                        0 <= a < b < front.len() implies front[a].directory()
                        != front[b].directory() by {
                        assert(targets[a].directory() != targets[b].directory());
                    }
                    assert(before[i].directory() != before[j].directory());
                }
            } else {
                assert(all[j] == targets[targets.len() - 1]);
                if names_apart(targets) {
                    assert(targets[k].name != targets[targets.len() - 1].name);
                }
                if directories_apart(targets) {
                    assert(targets[k].directory() != targets[targets.len() - 1].directory());
                }
            }
        }
    }
}

proof fn a_check_behind_the_options(args: Seq<Seq<char>>, options: OptionsView)
    requires
        options_from(args, options) is Ok,
    ensures
        options_from(args.push("--check"@), options) == Ok::<OptionsView, Seq<char>>(
            OptionsView { check: true, ..options_from(args, options)->Ok_0 },
        ),
    decreases args.len(),
{
    let more = args.push("--check"@);
    if args.len() == 0 {
        reveal_strlit("--check");
        reveal_strlit("--project");
        reveal_strlit("-p");
        reveal_strlit("--targets");
        reveal_strlit("-t");
        assert("--check"@.len() == 7 && "--project"@.len() == 9 && "-p"@.len() == 2
            && "--targets"@.len() == 9 && "-t"@.len() == 2);
        assert(more.skip(1) =~= Seq::empty());
        reveal_with_fuel(options_from, 2);
    } else {
        let arg = args[0];
        assert(more[0] == arg);
        if arg == "--project"@ || arg == "-p"@ {
            assert(more.skip(2) =~= args.skip(2).push("--check"@));
            a_check_behind_the_options(args.skip(2), OptionsView { root: args[1], ..options });
        } else if arg == "--targets"@ || arg == "-t"@ {
            assert(more.skip(2) =~= args.skip(2).push("--check"@));
            a_check_behind_the_options(
                args.skip(2),
                OptionsView { selected: Some(args[1]), ..options },
            );
        } else {
            assert(more.skip(1) =~= args.skip(1).push("--check"@));
            let now = if arg == "--check"@ {
                OptionsView { check: true, ..options }
            } else if arg == "--no-ansi"@ || arg == "--no-interaction"@ || arg == "-n"@ {
                options
            } else {
                match stripped(arg, "--project="@) {
                    Some(root) => OptionsView { root, ..options },
                    None => OptionsView { selected: stripped(arg, "--targets="@), ..options },
                }
            };
            a_check_behind_the_options(args.skip(1), now);
        }
    }
}

/// `--check` behind a command and its options asks for a check and changes
/// nothing else.
pub proof fn a_check_is_asked_for(args: Seq<Seq<char>>)
    requires
        args.len() > 0,
        options_read(args) is Ok,
    ensures
        options_read(args.push("--check"@)) == Ok::<OptionsView, Seq<char>>(
            OptionsView { check: true, ..options_read(args)->Ok_0 },
        ),
{
    let plain = OptionsView {
        command: args[0],
        root: "."@,
        check: false,
        selected: None,
    };
    assert(args.push("--check"@).skip(1) =~= args.skip(1).push("--check"@));
    a_check_behind_the_options(args.skip(1), plain);
}

} // verus!
