//! Laws of what is written for a target and of what is removed.
use vstd::prelude::*;
#[allow(unused_imports)]
use crate::files::FileView;
#[allow(unused_imports)]
use crate::plan::{bare, extension, is_stale, observed, stale_among, PlanView, ReportView};
#[allow(unused_imports)]
use crate::signature::{is_tampered, signed};
#[allow(unused_imports)]
use crate::text::{
    joined, joined_split_is_the_text, sorted, split, split_leaves_a_plain_text_whole,
    split_parts_at_a_separator, trimmed,
};
#[allow(unused_imports)]
use crate::upkeep::{
    a_check_changes_no_file, after_files, applied, components, consistent, deleted_is_what_is_stale,
    generating_leaves_the_plan, lasting, lists, place,
};

verus! {

/// Whether a text is the beginning of a path up to one of its names.
pub open spec fn leads_to_a_name(start: Seq<char>) -> bool {
    start.len() == 0 || start.last() == '/'
}

proof fn the_last_name(start: Seq<char>, name: Seq<char>)
    requires
        leads_to_a_name(start),
        !name.contains('/'),
    ensures
        split(start + name, '/').last() == name,
{
    split_leaves_a_plain_text_whole(name, '/');
    if start.len() > 0 {
        split_parts_at_a_separator(start.drop_last(), '/', name);
        assert(start + name =~= start.drop_last().push('/') + name);
        assert((split(start.drop_last(), '/') + seq![name]).last() == name);
    } else {
        assert(start + name =~= name);
    }
}

/// The extension of a path is what follows the last full stop in its last name,
/// where something stands before that, at whatever depth the name stands.
pub proof fn the_extension_follows_the_last_full_stop(
    start: Seq<char>,
    stem: Seq<char>,
    end: Seq<char>,
)
    requires
        leads_to_a_name(start),
        stem.len() > 0,
        !stem.contains('/'),
        !end.contains('/'),
        !end.contains('.'),
        !(stem == seq!['.'] && end.len() == 0),
    ensures
        extension(start + stem + seq!['.'] + end) == Some(end),
{
    let name = stem + seq!['.'] + end;
    let path = start + stem + seq!['.'] + end;
    assert(path =~= start + name);
    assert forall|i: int| 0 <= i < name.len() implies name[i] != '/' by {
        if i < stem.len() {
            assert(stem[i] != '/');
        } else if i > stem.len() {
            assert(end[i - stem.len() - 1] != '/');
        }
    }
    assert(bare(path) == path) by {
        if end.len() > 0 {
            assert(path.last() == end.last());
            assert(end[end.len() - 1] != '.');
        } else {
            assert(path[path.len() - 2] == stem.last());
            assert(stem[stem.len() - 1] != '/');
        }
    }
    the_last_name(start, name);
    assert(name =~= stem.push('.') + end);
    split_parts_at_a_separator(stem, '.', end);
    split_leaves_a_plain_text_whole(end, '.');
    joined_split_is_the_text(stem, '.');
    let parts = split(name, '.');
    assert(parts =~= split(stem, '.').push(end));
    if split(stem, '.').len() == 1 {
        assert(joined(split(stem, '.'), seq!['.']) == stem);
        assert(parts[0] == stem);
    }
    reveal_strlit("..");
    if name == ".."@ {
        assert(name.len() == 2);
        if stem.len() == 1 {
            assert(stem[0] == name[0]);
            assert(stem =~= seq!['.']);
        }
    }
}

/// A last name without a full stop, or with one at its start alone, has no
/// extension, and neither has the one that climbs.
pub proof fn a_name_without_an_extension(start: Seq<char>, name: Seq<char>)
    requires
        leads_to_a_name(start),
        name.len() > 0,
        !name.contains('/'),
    ensures
        !name.contains('.') ==> extension(start + name) is None,
        !name.contains('.') ==> extension(start + seq!['.'] + name) is None,
        extension(start + ".."@) is None,
        extension(Seq::empty()) is None,
{
    reveal_strlit("..");
    if !name.contains('.') {
        let path = start + name;
        assert(path.last() == name.last());
        assert(name[name.len() - 1] != '.' && name[name.len() - 1] != '/');
        assert(bare(path) == path);
        the_last_name(start, name);
        split_leaves_a_plain_text_whole(name, '.');
        let hidden = seq!['.'] + name;
        let other = start + seq!['.'] + name;
        assert(other =~= start + hidden);
        assert(other.last() == name.last());
        assert(bare(other) == other);
        assert forall|i: int| 0 <= i < hidden.len() implies hidden[i] != '/' by {
            if i > 0 {
                assert(name[i - 1] != '/');
            }
        }
        the_last_name(start, hidden);
        assert(hidden =~= Seq::<char>::empty().push('.') + name);
        split_parts_at_a_separator(Seq::empty(), '.', name);
        assert(split(Seq::<char>::empty(), '.') =~= seq![Seq::empty()]);
        assert(split(hidden, '.') =~= seq![Seq::empty(), name]);
    }
    let up = start + ".."@;
    assert(up.last() == '.' && up[up.len() - 2] == '.');
    assert(bare(up) == up);
    assert(!".."@.contains('/'));
    the_last_name(start, ".."@);
    split_leaves_a_plain_text_whole(Seq::empty(), '/');
    split_leaves_a_plain_text_whole(Seq::empty(), '.');
}

/// A separator at the end of a path, and a component there that stands for the
/// directory itself, do not change its extension.
pub proof fn the_end_of_a_path_does_not_count(path: Seq<char>)
    ensures
        extension(path + seq!['/']) == extension(path),
        extension(path + seq!['/', '.']) == extension(path),
        extension(seq!['.']) is None,
{
    let dot = seq!['.'];
    assert(dot.drop_last() =~= Seq::<char>::empty());
    assert(bare(Seq::empty()) == Seq::<char>::empty());
    assert(bare(dot) == Seq::<char>::empty());
    split_leaves_a_plain_text_whole(Seq::empty(), '/');
    split_leaves_a_plain_text_whole(Seq::empty(), '.');
    let once = path + seq!['/'];
    let twice = path + seq!['/', '.'];
    assert(once.drop_last() =~= path);
    assert(twice.drop_last() =~= once);
    assert(twice[twice.len() - 2] == '/');
    assert(bare(once) == bare(path));
    assert(bare(twice) == bare(once));
}

/// Whether a path that was found is no longer produced: no file of the plan has
/// it, its extension is one of the plan's, and it begins with none of the
/// reserved directories.
pub open spec fn is_no_longer_produced(plan: PlanView, path: Seq<char>) -> bool {
    &&& forall|i: int| 0 <= i < plan.files.len() ==> (#[trigger] plan.files[i]).path != path
    &&& exists|i: int|
        0 <= i < plan.extensions.len() && extension(path) == Some(#[trigger] plan.extensions[i])
    &&& forall|i: int|
        0 <= i < plan.reserved.len() ==> !(trimmed(#[trigger] plan.reserved[i], '/')
            + "/"@).is_prefix_of(path)
}

/// A path is stale exactly where it is no longer produced.
pub proof fn stale_means_no_longer_produced(plan: PlanView, path: Seq<char>)
    ensures
        is_stale(plan, path) <==> is_no_longer_produced(plan, path),
{
    if is_stale(plan, path) {
        let ext = extension(path)->0;
        let i = choose|i: int| 0 <= i < plan.extensions.len() && plan.extensions[i] == ext;
        assert(extension(path) == Some(plan.extensions[i]));
        assert forall|k: int| 0 <= k < plan.reserved.len() implies !(trimmed(
            #[trigger] plan.reserved[k],
            '/',
        ) + "/"@).is_prefix_of(path) by {}
    }
    if is_no_longer_produced(plan, path) {
        let i = choose|i: int|
            0 <= i < plan.extensions.len() && extension(path) == Some(
                #[trigger] plan.extensions[i],
            );
        assert(plan.extensions.contains(plan.extensions[i]));
    }
}

proof fn what_is_stale_is_kept_in_order(plan: PlanView, found: Seq<Seq<char>>)
    ensures
        stale_among(plan, found) == found.filter(
            |path: Seq<char>| is_no_longer_produced(plan, path),
        ),
    decreases found.len(),
{
    reveal(Seq::filter);
    if found.len() > 0 {
        what_is_stale_is_kept_in_order(plan, found.drop_last());
        stale_means_no_longer_produced(plan, found.last());
    }
}

/// Of all that is found in a directory, at any depth, exactly that is removed,
/// or told by a check, which is no longer produced, each path as often as it is
/// found, and in order.
pub proof fn what_is_no_longer_produced_is_removed(
    plan: PlanView,
    check: bool,
    directory: Map<Seq<char>, Seq<char>>,
    found: Seq<Seq<char>>,
    path: Seq<char>,
)
    ensures
        ({
            let deleted = applied(plan, check, directory, found).0.deleted;
            &&& deleted == sorted(
                found.filter(|other: Seq<char>| is_no_longer_produced(plan, other)),
            )
            &&& deleted == sorted(stale_among(plan, found))
            &&& deleted.contains(path) <==> found.contains(path) && is_no_longer_produced(
                plan,
                path,
            )
        }),
{
    what_is_stale_is_kept_in_order(plan, found);
    stale_means_no_longer_produced(plan, path);
    deleted_is_what_is_stale(plan, check, directory, found, path);
}

/// What is taken down of a file: it is created where nothing is found, unchanged
/// where what is found is the file as signed, and updated where it is anything
/// else; and tampered with where that does not match the digest that it shows.
pub proof fn what_is_taken_down_of_a_file(
    report: ReportView,
    file: FileView,
    style: Seq<char>,
    found: Option<Seq<char>>,
)
    ensures
        ({
            let now = observed(report, file, style, found);
            let text = signed(file.path, file.body, style);
            let differs = found is Some && found->0 != text;
            &&& now.created == (if found is None {
                report.created.push(file.path)
            } else {
                report.created
            })
            &&& now.unchanged == (if found == Some(text) {
                report.unchanged.push(file.path)
            } else {
                report.unchanged
            })
            &&& now.updated == (if differs {
                report.updated.push(file.path)
            } else {
                report.updated
            })
            &&& now.tampered == (if differs && is_tampered(file.path, found->0, style) {
                report.tampered.push(file.path)
            } else {
                report.tampered
            })
            &&& now.deleted == report.deleted
            &&& now.changes() == now.created.len() + now.updated.len() + now.deleted.len()
        }),
{
}

/// The paths of the files of which something holds, in order.
pub open spec fn paths_where(files: Seq<FileView>, holds: spec_fn(FileView) -> bool) -> Seq<
    Seq<char>,
> {
    files.filter(holds).map_values(|file: FileView| file.path)
}

proof fn one_more_path(files: Seq<FileView>, holds: spec_fn(FileView) -> bool)
    ensures
        files.len() == 0 ==> paths_where(files, holds) == Seq::<Seq<char>>::empty(),
        files.len() > 0 ==> paths_where(files, holds) == (if holds(files.last()) {
            paths_where(files.drop_last(), holds).push(files.last().path)
        } else {
            paths_where(files.drop_last(), holds)
        }),
{
    reveal(Seq::filter);
    let path = |file: FileView| file.path;
    if files.len() > 0 {
        let front = files.drop_last();
        if holds(files.last()) {
            assert(files.filter(holds).map_values(path) =~= front.filter(holds).map_values(
                path,
            ).push(files.last().path));
        }
    } else {
        assert(files.filter(holds).map_values(path) =~= Seq::empty());
    }
}

/// Whether there is nothing in the place of a file.
pub open spec fn is_missing(directory: Map<Seq<char>, Seq<char>>, file: FileView) -> bool {
    !directory.contains_key(place(file.path))
}

/// Whether a file stands as signed.
pub open spec fn is_as_signed(
    plan: PlanView,
    directory: Map<Seq<char>, Seq<char>>,
    file: FileView,
) -> bool {
    directory.contains_key(place(file.path)) && directory[place(file.path)] == signed(
        file.path,
        file.body,
        plan.style,
    )
}

/// Whether something else stands in the place of a file.
pub open spec fn is_changed(
    plan: PlanView,
    directory: Map<Seq<char>, Seq<char>>,
    file: FileView,
) -> bool {
    !is_missing(directory, file) && !is_as_signed(plan, directory, file)
}

/// Whether what stands in the place of a file was edited by hand.
pub open spec fn is_edited(
    plan: PlanView,
    directory: Map<Seq<char>, Seq<char>>,
    file: FileView,
) -> bool {
    is_changed(plan, directory, file) && is_tampered(
        file.path,
        directory[place(file.path)],
        plan.style,
    )
}

proof fn what_a_check_takes_down(plan: PlanView, directory: Map<Seq<char>, Seq<char>>, n: nat)
    requires
        n <= plan.files.len(),
    ensures
        ({
            let report = after_files(plan, true, directory, n).0;
            let files = plan.files.take(n as int);
            &&& report.created == paths_where(files, |file: FileView| is_missing(directory, file))
            &&& report.unchanged == paths_where(
                files,
                |file: FileView| is_as_signed(plan, directory, file),
            )
            &&& report.updated == paths_where(
                files,
                |file: FileView| is_changed(plan, directory, file),
            )
            &&& report.tampered == paths_where(
                files,
                |file: FileView| is_edited(plan, directory, file),
            )
        }),
    decreases n,
{
    let files = plan.files.take(n as int);
    let missing = |file: FileView| is_missing(directory, file);
    let same = |file: FileView| is_as_signed(plan, directory, file);
    let changed = |file: FileView| is_changed(plan, directory, file);
    let edited = |file: FileView| is_edited(plan, directory, file);
    one_more_path(files, missing);
    one_more_path(files, same);
    one_more_path(files, changed);
    one_more_path(files, edited);
    if n > 0 {
        what_a_check_takes_down(plan, directory, (n - 1) as nat);
        a_check_changes_no_file(plan, directory, (n - 1) as nat);
        assert(files.drop_last() =~= plan.files.take(n - 1));
        assert(files.last() == plan.files[n - 1]);
    }
}

/// A check names each file of the plan by what stands in its place, in the order
/// of the plan: the missing as created, those that stand as signed as unchanged,
/// all others as updated, and those of them that were edited by hand besides.
pub proof fn a_check_names_every_file(
    plan: PlanView,
    directory: Map<Seq<char>, Seq<char>>,
    found: Seq<Seq<char>>,
)
    ensures
        ({
            let report = applied(plan, true, directory, found).0;
            &&& report.created == paths_where(
                plan.files,
                |file: FileView| is_missing(directory, file),
            )
            &&& report.unchanged == paths_where(
                plan.files,
                |file: FileView| is_as_signed(plan, directory, file),
            )
            &&& report.updated == paths_where(
                plan.files,
                |file: FileView| is_changed(plan, directory, file),
            )
            &&& report.tampered == paths_where(
                plan.files,
                |file: FileView| is_edited(plan, directory, file),
            )
        }),
{
    what_a_check_takes_down(plan, directory, plan.files.len());
    assert(plan.files.take(plan.files.len() as int) =~= plan.files);
}

/// After a plan is written, each of its files stands in its place with its own
/// path and body, signed; what is no longer produced is gone; and all else is as
/// it was.
pub proof fn generating_writes_each_file_as_signed(
    plan: PlanView,
    directory: Map<Seq<char>, Seq<char>>,
    found: Seq<Seq<char>>,
    path: Seq<char>,
)
    requires
        consistent(plan),
        lasting(plan),
        forall|other: Seq<char>| #[trigger]
            found.contains(other) <==> after_files(
                plan,
                false,
                directory,
                plan.files.len(),
            ).1.contains_key(other),
    ensures
        ({
            let after = applied(plan, false, directory, found).1;
            &&& forall|i: int|
                0 <= i < plan.files.len() && place((#[trigger] plan.files[i]).path) == path
                    ==> after.contains_key(path) && after[path] == signed(
                    plan.files[i].path,
                    plan.files[i].body,
                    plan.style,
                )
            &&& is_no_longer_produced(plan, path) ==> !after.contains_key(path)
            &&& !is_no_longer_produced(plan, path) && (forall|i: int|
                0 <= i < plan.files.len() ==> place((#[trigger] plan.files[i]).path) != path) ==> (
            after.contains_key(path) <==> directory.contains_key(path)) && (
            directory.contains_key(path) ==> after[path] == directory[path])
        }),
{
    stale_means_no_longer_produced(plan, path);
    assert(lists(found, after_files(plan, false, directory, plan.files.len()).1));
    generating_leaves_the_plan(plan, directory, found, path);
    let after = applied(plan, false, directory, found).1;
    assert forall|i: int|
        0 <= i < plan.files.len() && place((#[trigger] plan.files[i]).path) == path implies (
    after.contains_key(path) && after[path] == signed(
        plan.files[i].path,
        plan.files[i].body,
        plan.style,
    )) by {
        assert(!is_stale(plan, place(plan.files[i].path)));
    }
}

proof fn all_pieces_are_kept(pieces: Seq<Seq<char>>)
    requires
        forall|i: int|
            0 <= i < pieces.len() ==> (#[trigger] pieces[i]).len() > 0 && pieces[i] != "."@,
    ensures
        pieces.filter(|part: Seq<char>| part.len() > 0 && part != "."@) == pieces,
    decreases pieces.len(),
{
    reveal(Seq::filter);
    if pieces.len() > 0 {
        let front = pieces.drop_last();
        assert forall|i: int| 0 <= i < front.len() implies (#[trigger] front[i]).len() > 0
            && front[i] != "."@ by {
            assert(front[i] == pieces[i]);
        }
        all_pieces_are_kept(front);
        assert(pieces[pieces.len() - 1].len() > 0);
        assert(front.push(pieces.last()) =~= pieces);
    }
}

/// A path of names alone is its own place, and separators and components that
/// stand for the directory itself do not change the place of a path.
pub proof fn a_path_of_names_is_its_own_place(path: Seq<char>, behind: Seq<char>)
    ensures
        (forall|i: int|
            0 <= i < split(path, '/').len() ==> (#[trigger] split(path, '/')[i]).len() > 0
                && split(path, '/')[i] != "."@) ==> place(path) == path,
        place(path + "/"@ + "."@ + "/"@ + behind) == place(path + "/"@ + behind),
        place(path + "/"@ + "/"@ + behind) == place(path + "/"@ + behind),
        place("."@ + "/"@ + behind) == place(behind),
{
    reveal_strlit("/");
    reveal_strlit(".");
    if forall|i: int|
        0 <= i < split(path, '/').len() ==> (#[trigger] split(path, '/')[i]).len() > 0 && split(
            path,
            '/',
        )[i] != "."@ {
        all_pieces_are_kept(split(path, '/'));
        joined_split_is_the_text(path, '/');
        assert("/"@ =~= seq!['/']);
    }
    crate::layout::components_of_a_path_below(path + "/"@ + "."@, behind);
    crate::layout::components_of_a_path_below(path, "."@);
    crate::layout::components_of_a_path_below(path, behind);
    crate::layout::components_of_a_path_below("."@, behind);
    crate::layout::components_of_a_path_below(path + "/"@, behind);
    crate::layout::components_without_the_end(path + "/"@);
    crate::layout::components_without_the_end(path);
    assert((path + "/"@).drop_last() =~= path);
    assert(!"."@.contains('/'));
    split_leaves_a_plain_text_whole("."@, '/');
    reveal(Seq::filter);
    assert(seq!["."@].drop_last() =~= Seq::<Seq<char>>::empty());
    let kept = |part: Seq<char>| part.len() > 0 && part != "."@;
    assert(Seq::<Seq<char>>::empty().filter(kept) =~= Seq::empty());
    assert(components("."@) =~= Seq::empty());
    assert(components(path) + components("."@) =~= components(path));
    assert(components("."@) + components(behind) =~= components(behind));
    assert(path + "/"@ + "/"@ + behind =~= (path + "/"@) + "/"@ + behind);
}

} // verus!
