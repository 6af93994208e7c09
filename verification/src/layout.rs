//! How the directories of a project's targets lie, and what that means for the
//! plans that are made for them.
use vstd::prelude::*;
#[allow(unused_imports)]
use crate::config::{
    an_inner_target_is_reserved, directories_apart, names_apart, reserved_in, ConfigView,
    TargetView,
};
#[allow(unused_imports)]
use crate::files::FileView;
#[allow(unused_imports)]
use crate::json::JsonView;
#[allow(unused_imports)]
use crate::plan::{lies_in, PlanView};
#[allow(unused_imports)]
use crate::response::{output_directory, plan_made};
#[allow(unused_imports)]
use crate::text::{
    joined, joined_split_is_the_text, split, split_parts_at_a_separator, trimmed, trimmed_end,
    trimmed_start,
};
#[allow(unused_imports)]
use crate::tree::{
    a_place_below_is_under, agree, below, home, kept_apart, place_of, rest, spares, under,
};
#[allow(unused_imports)]
use crate::upkeep::{components, place};

verus! {

/// The components of two paths one below the other.
pub proof fn components_of_a_path_below(a: Seq<char>, b: Seq<char>)
    ensures
        components(a + "/"@ + b) == components(a) + components(b),
{
    reveal_strlit("/");
    let kept = |part: Seq<char>| part.len() > 0 && part != "."@;
    assert(a + "/"@ + b =~= a.push('/') + b);
    split_parts_at_a_separator(a, '/', b);
    Seq::filter_distributes_over_add(split(a, '/'), split(b, '/'), kept);
}

proof fn nothing_has_no_components()
    ensures
        components(Seq::empty()) == Seq::<Seq<char>>::empty(),
{
    let kept = |part: Seq<char>| part.len() > 0 && part != "."@;
    let none = split(Seq::empty(), '/');
    let names = components(Seq::empty());
    if names.len() > 0 {
        none.lemma_filter_pred(kept, 0);
        assert(names.contains(names[0]));
        none.lemma_filter_contains_rev(kept, names[0]);
    }
    assert(names =~= Seq::empty());
}

/// Separators at the end of a path add no component.
pub proof fn components_without_the_end(path: Seq<char>)
    ensures
        components(trimmed_end(path, '/')) == components(path),
    decreases path.len(),
{
    if path.len() > 0 && path.last() == '/' {
        reveal_strlit("/");
        components_without_the_end(path.drop_last());
        components_of_a_path_below(path.drop_last(), Seq::empty());
        nothing_has_no_components();
        assert(path.drop_last() + "/"@ + Seq::<char>::empty() =~= path);
        assert(components(path.drop_last()) + Seq::<Seq<char>>::empty() =~= components(
            path.drop_last(),
        ));
    }
}

proof fn pieces_have_no_separator(text: Seq<char>, sep: char)
    ensures
        forall|i: int|
            0 <= i < split(text, sep).len() ==> !(#[trigger] split(text, sep)[i]).contains(sep),
    decreases text.len(),
{
    if text.len() > 0 {
        pieces_have_no_separator(text.drop_last(), sep);
        joined_split_is_the_text(text.drop_last(), sep);
        let before = split(text.drop_last(), sep);
        let all = split(text, sep);
        assert forall|i: int| 0 <= i < all.len() implies !(#[trigger] all[i]).contains(sep) by {
            if i < before.len() - 1 || (text.last() == sep && i < before.len()) {
                assert(all[i] == before[i]);
            } else if text.last() != sep {
                assert(all[i] == before.last().push(text.last()));
                assert(!before[before.len() - 1].contains(sep));
                if all[i].contains(sep) {
                    let j = choose|j: int| 0 <= j < all[i].len() && all[i][j] == sep;
                    assert(before.last()[j] == sep);
                }
            }
        }
    }
}

/// Each component is a text, and has no separator in it.
proof fn components_are_names(path: Seq<char>)
    ensures
        forall|i: int|
            0 <= i < components(path).len() ==> (#[trigger] components(path)[i]).len() > 0
                && !components(path)[i].contains('/'),
{
    let kept = |part: Seq<char>| part.len() > 0 && part != "."@;
    let pieces = split(path, '/');
    let names = components(path);
    pieces_have_no_separator(path, '/');
    assert forall|i: int| 0 <= i < names.len() implies (#[trigger] names[i]).len() > 0
        && !names[i].contains('/') by {
        pieces.lemma_filter_pred(kept, i);
        assert(names.contains(names[i]));
        pieces.lemma_filter_contains_rev(kept, names[i]);
        let k = choose|k: int| 0 <= k < pieces.len() && pieces[k] == names[i];
        assert(!pieces[k].contains('/'));
    }
}

/// What is joined of names begins with no separator and is not empty.
proof fn joined_names(names: Seq<Seq<char>>)
    requires
        names.len() > 0,
        forall|i: int|
            0 <= i < names.len() ==> (#[trigger] names[i]).len() > 0 && !names[i].contains('/'),
    ensures
        joined(names, "/"@).len() > 0,
        joined(names, "/"@)[0] != '/',
    decreases names.len(),
{
    assert(names[0].len() > 0 && !names[0].contains('/'));
    assert(names[0][0] != '/');
    if names.len() > 1 {
        let front = names.drop_last();
        assert forall|i: int| 0 <= i < front.len() implies (#[trigger] front[i]).len() > 0
            && !front[i].contains('/') by {
            assert(front[i] == names[i]);
        }
        joined_names(front);
        assert(joined(names, "/"@)[0] == joined(front, "/"@)[0]);
    }
}

proof fn joined_of_two(a: Seq<Seq<char>>, b: Seq<Seq<char>>)
    requires
        a.len() > 0,
        b.len() > 0,
    ensures
        joined(a + b, "/"@) == joined(a, "/"@) + "/"@ + joined(b, "/"@),
    decreases b.len(),
{
    let all = a + b;
    if b.len() == 1 {
        assert(all.drop_last() =~= a);
        assert(joined(all, "/"@) =~= joined(a, "/"@) + "/"@ + b[0]);
    } else {
        joined_of_two(a, b.drop_last());
        assert(all.drop_last() =~= a + b.drop_last());
        assert(joined(all, "/"@) =~= joined(a, "/"@) + "/"@ + joined(b, "/"@));
    }
}

/// The place of a path below another, where it has any component.
proof fn place_of_a_path_below(a: Seq<char>, b: Seq<char>)
    ensures
        components(b).len() > 0 ==> place(a + "/"@ + b) == below(place(a), place(b)),
        components(b).len() == 0 ==> place(a + "/"@ + b) == place(a),
        components(a).len() > 0 <==> place(a).len() > 0,
        components(b).len() > 0 <==> place(b).len() > 0,
{
    components_of_a_path_below(a, b);
    components_are_names(a);
    components_are_names(b);
    if components(a).len() > 0 {
        joined_names(components(a));
    }
    if components(b).len() > 0 {
        joined_names(components(b));
        if components(a).len() > 0 {
            joined_of_two(components(a), components(b));
        } else {
            assert(components(a) + components(b) =~= components(b));
        }
    } else {
        assert(components(a) + components(b) =~= components(a));
    }
}

/// What stands behind the directory of one target in that of another.
pub open spec fn inner_of(target: TargetView, other: TargetView) -> Seq<char> {
    other.directory().skip((target.directory() + "/"@).len() as int)
}

/// Whether the directory of a target is written as one within that of another,
/// with nothing behind it but the names of directories.
pub open spec fn nested(target: TargetView, other: TargetView) -> bool {
    &&& (target.directory() + "/"@).is_prefix_of(other.directory())
    &&& place(inner_of(target, other)) == trimmed(inner_of(target, other), '/')
}

/// Whether two targets have their own directories, and the second's is written
/// as one within the first's if it lies there.
pub open spec fn well_laid(root: Seq<char>, target: TargetView, other: TargetView) -> bool {
    let outer = place(output_directory(root, target));
    let inner = place(output_directory(root, other));
    outer != inner && (under(outer, inner) ==> nested(target, other))
}

proof fn trimmed_end_ends_without(text: Seq<char>, c: char)
    ensures
        trimmed_end(text, c).len() > 0 ==> trimmed_end(text, c).last() != c,
    decreases text.len(),
{
    if text.len() > 0 && text.last() == c {
        trimmed_end_ends_without(text.drop_last(), c);
    }
}

proof fn components_of_an_output(root: Seq<char>, target: TargetView)
    ensures
        place(output_directory(root, target)) == place(
            trimmed_end(root, '/') + "/"@ + target.directory(),
        ),
        components(target.output) == components(target.directory()),
{
    let base = trimmed_end(root, '/');
    components_of_a_path_below(base, target.output);
    components_of_a_path_below(base, target.directory());
    components_without_the_end(target.output);
}

proof fn trimmed_start_of_no_run(text: Seq<char>, c: char)
    requires
        text.len() > 0,
        text.last() != c,
    ensures
        trimmed_start(text, c).len() > 0,
        trimmed_start(text, c).last() == text.last(),
    decreases text.len(),
{
    if text[0] == c {
        assert(text.drop_first().len() > 0);
        trimmed_start_of_no_run(text.drop_first(), c);
    }
}

/// Where a nested directory lies: at the place of what stands behind the
/// directory in which it is nested.
proof fn a_nested_place(root: Seq<char>, target: TargetView, other: TargetView)
    requires
        nested(target, other),
    ensures
        place(inner_of(target, other)).len() > 0,
        place(output_directory(root, other)) == below(
            place(output_directory(root, target)),
            place(inner_of(target, other)),
        ),
{
    reveal_strlit("/");
    let base = trimmed_end(root, '/');
    let inner = inner_of(target, other);
    let outer = base + "/"@ + target.directory();
    assert(other.directory() =~= target.directory() + "/"@ + inner);
    trimmed_end_ends_without(other.output, '/');
    if inner.len() == 0 {
        assert(other.directory().last() == '/');
    }
    assert(inner.last() == other.directory().last());
    trimmed_start_of_no_run(inner, '/');
    assert(trimmed(inner, '/').len() > 0);
    components_of_an_output(root, target);
    components_of_an_output(root, other);
    assert(base + "/"@ + other.directory() =~= outer + "/"@ + inner);
    place_of_a_path_below(outer, inner);
}

proof fn below_twice(a: Seq<char>, b: Seq<char>, path: Seq<char>)
    requires
        b.len() > 0,
    ensures
        below(below(a, b), path) == below(a, b + "/"@ + path),
{
    assert(below(below(a, b), path) =~= below(a, b + "/"@ + path));
}

/// All that a nested target writes lies below the directory in which it is
/// nested, in what the target of that directory leaves to others.
pub proof fn what_a_nested_target_writes_is_reserved(
    root: Seq<char>,
    targets: Seq<TargetView>,
    target: TargetView,
    other: TargetView,
    path: Seq<char>,
)
    requires
        targets.contains(other),
        other.name != target.name,
        nested(target, other),
    ensures
        ({
            let outer = place(output_directory(root, target));
            let full = below(place(output_directory(root, other)), path);
            &&& under(outer, full)
            &&& lies_in(rest(outer, full), reserved_in(targets, target))
        }),
{
    let outer = place(output_directory(root, target));
    let inner = inner_of(target, other);
    let reserved = reserved_in(targets, target);
    a_nested_place(root, target, other);
    below_twice(outer, place(inner), path);
    a_place_below_is_under(outer, place(inner) + "/"@ + path);
    let i = choose|i: int| 0 <= i < targets.len() && targets[i] == other;
    an_inner_target_is_reserved(targets, target, i);
    let k = choose|k: int| 0 <= k < reserved.len() && reserved[k] == inner;
    assert((trimmed(reserved[k], '/') + "/"@).is_prefix_of(place(inner) + "/"@ + path));
}

/// What is written below the directory of a nested target from outside lies in
/// what is left to it.
proof fn what_is_written_into_a_nested_target(
    root: Seq<char>,
    targets: Seq<TargetView>,
    target: TargetView,
    other: TargetView,
    path: Seq<char>,
)
    requires
        targets.contains(other),
        other.name != target.name,
        nested(target, other),
        under(
            place(output_directory(root, other)),
            below(place(output_directory(root, target)), path),
        ),
    ensures
        lies_in(path, reserved_in(targets, target)),
{
    reveal_strlit("/");
    let outer = place(output_directory(root, target));
    let inner = inner_of(target, other);
    let reserved = reserved_in(targets, target);
    a_nested_place(root, target, other);
    let directory = below(outer, place(inner));
    let full = below(outer, path);
    assert((directory + "/"@).is_prefix_of(full));
    let skipped: int = if outer.len() == 0 {
        0
    } else {
        outer.len() as int + 1
    };
    assert(full.skip(skipped) =~= path);
    assert((directory + "/"@).skip(skipped) =~= place(inner) + "/"@);
    assert forall|n: int| 0 <= n < (place(inner) + "/"@).len() implies (place(inner) + "/"@)[n]
        == path[n] by {
        assert((directory + "/"@)[n + skipped] == full[n + skipped]);
    }
    assert((place(inner) + "/"@).is_prefix_of(path));
    let i = choose|i: int| 0 <= i < targets.len() && targets[i] == other;
    an_inner_target_is_reserved(targets, target, i);
    let k = choose|k: int| 0 <= k < reserved.len() && reserved[k] == inner;
    assert((trimmed(reserved[k], '/') + "/"@).is_prefix_of(path));
}

/// Nothing below a directory lies below one that is apart from it.
proof fn directories_that_are_apart(a: Seq<char>, b: Seq<char>, path: Seq<char>)
    requires
        a != b,
        !under(a, b),
        !under(b, a),
    ensures
        !under(a, below(b, path)),
{
    reveal_strlit("/");
    if under(a, below(b, path)) {
        let full = b + "/"@ + path;
        assert((a + "/"@).is_prefix_of(full));
        if a.len() < b.len() {
            assert((a + "/"@).is_prefix_of(b)) by {
                assert forall|n: int| 0 <= n < a.len() + 1 implies (a + "/"@)[n] == b[n] by {
                    assert((a + "/"@)[n] == full[n]);
                }
            }
        } else if a.len() > b.len() {
            assert((b + "/"@).is_prefix_of(a)) by {
                assert forall|n: int| 0 <= n < b.len() + 1 implies (b + "/"@)[n] == a[n] by {
                    assert((a + "/"@)[n] == full[n]);
                }
            }
        } else {
            assert(a =~= b) by {
                assert forall|n: int| 0 <= n < a.len() implies a[n] == b[n] by {
                    assert((a + "/"@)[n] == full[n]);
                }
            }
        }
    }
}

/// Whether each plan is the one that is made of a response for its target.
pub open spec fn made_for(
    root: Seq<char>,
    config: ConfigView,
    contributions: Seq<(Seq<char>, Seq<FileView>)>,
    targets: Seq<TargetView>,
    responses: Seq<JsonView>,
    plans: Seq<PlanView>,
) -> bool {
    &&& plans.len() == targets.len()
    &&& plans.len() == responses.len()
    &&& forall|i: int|
        0 <= i < plans.len() ==> plan_made(root, config, contributions, targets[i], responses[i])
            == Ok::<PlanView, Seq<char>>(#[trigger] plans[i])
}

/// Whether a plan writes nothing into what it leaves to others.
pub open spec fn writes_nothing_reserved(plan: PlanView) -> bool {
    forall|k: int|
        0 <= k < plan.files.len() ==> !lies_in(
            place((#[trigger] plan.files[k]).path),
            plan.reserved,
        )
}

/// Whether two targets are well laid, each seen from the other, and their plans
/// write nothing into what they leave to others.
pub open spec fn well_separated(
    root: Seq<char>,
    target: TargetView,
    other: TargetView,
    plan: PlanView,
    other_plan: PlanView,
) -> bool {
    &&& well_laid(root, target, other)
    &&& well_laid(root, other, target)
    &&& writes_nothing_reserved(plan)
    &&& writes_nothing_reserved(other_plan)
}

/// Whether each two targets are well separated, or their plans keep out of each
/// other's way all the same.
pub open spec fn each_two_separated(
    root: Seq<char>,
    targets: Seq<TargetView>,
    plans: Seq<PlanView>,
) -> bool {
    forall|i: int, j: int|
        0 <= i < plans.len() && 0 <= j < plans.len() && i != j ==> well_separated(
            root,
            targets[i],
            targets[j],
            #[trigger] plans[i],
            #[trigger] plans[j],
        ) || (spares(plans[i], plans[j]) && agree(plans[i], plans[j]))
}

/// The plans for two targets that are well separated keep out of each other's
/// way: what one writes below the other's directory is left to it there, and
/// nothing is written by both.
proof fn well_separated_plans(
    root: Seq<char>,
    targets: Seq<TargetView>,
    target: TargetView,
    other: TargetView,
    plan: PlanView,
    other_plan: PlanView,
)
    requires
        targets.contains(target),
        targets.contains(other),
        target.name != other.name,
        plan.directory == output_directory(root, target),
        other_plan.directory == output_directory(root, other),
        plan.reserved == reserved_in(targets, target),
        other_plan.reserved == reserved_in(targets, other),
        well_separated(root, target, other, plan, other_plan),
    ensures
        spares(plan, other_plan),
        agree(plan, other_plan),
{
    assert forall|k: int|
        0 <= k < other_plan.files.len() && under(
            home(plan),
            #[trigger] place_of(other_plan, k),
        ) implies lies_in(rest(home(plan), place_of(other_plan, k)), plan.reserved) by {
        let path = place(other_plan.files[k].path);
        if under(home(plan), home(other_plan)) {
            what_a_nested_target_writes_is_reserved(root, targets, target, other, path);
        } else if under(home(other_plan), home(plan)) {
            what_is_written_into_a_nested_target(root, targets, other, target, path);
            assert(!lies_in(place(other_plan.files[k].path), other_plan.reserved));
        } else {
            directories_that_are_apart(home(plan), home(other_plan), path);
        }
    }
    assert forall|k: int, m: int|
        0 <= k < plan.files.len() && 0 <= m < other_plan.files.len() implies #[trigger] place_of(
        plan,
        k,
    ) != #[trigger] place_of(other_plan, m) by {
        let path = place(plan.files[k].path);
        a_place_below_is_under(home(plan), path);
        assert(!lies_in(place(plan.files[k].path), plan.reserved));
        if place_of(plan, k) == place_of(other_plan, m) {
            assert(under(home(plan), place_of(other_plan, m)));
        }
    }
}

/// The plans that are made for a project's targets keep out of each other's
/// way, nested or not, where each two targets are well separated, or their plans
/// keep out of each other's way all the same.
pub proof fn plans_of_a_project_are_kept_apart(
    root: Seq<char>,
    config: ConfigView,
    contributions: Seq<(Seq<char>, Seq<FileView>)>,
    targets: Seq<TargetView>,
    responses: Seq<JsonView>,
    plans: Seq<PlanView>,
)
    requires
        made_for(root, config, contributions, targets, responses, plans),
        forall|i: int| 0 <= i < targets.len() ==> config.targets.contains(#[trigger] targets[i]),
        names_apart(targets),
        each_two_separated(root, targets, plans),
    ensures
        kept_apart(plans),
{
    assert forall|i: int, j: int|
        0 <= i < plans.len() && 0 <= j < plans.len() && i != j implies spares(
        #[trigger] plans[i],
        #[trigger] plans[j],
    ) && agree(plans[i], plans[j]) by {
        if well_separated(root, targets[i], targets[j], plans[i], plans[j]) {
            assert(targets[i].name != targets[j].name) by {
                if i < j {
                    assert(targets[i].name != targets[j].name);
                } else {
                    assert(targets[j].name != targets[i].name);
                }
            }
            well_separated_plans(
                root,
                config.targets,
                targets[i],
                targets[j],
                plans[i],
                plans[j],
            );
        }
    }
}

/// Whether the output of a target is written with nothing but the names of
/// directories, and with separators at its end at most.
pub open spec fn plain_output(target: TargetView) -> bool {
    target.directory().len() > 0 && place(target.output) == target.directory()
}

proof fn below_tells_apart(base: Seq<char>, a: Seq<char>, b: Seq<char>)
    requires
        a.len() > 0,
        b.len() > 0,
    ensures
        below(base, a) == below(base, b) ==> a == b,
        under(below(base, a), below(base, b)) ==> (a + "/"@).is_prefix_of(b),
{
    reveal_strlit("/");
    let skipped: int = if base.len() == 0 {
        0
    } else {
        base.len() as int + 1
    };
    assert(below(base, a).skip(skipped) =~= a);
    assert(below(base, b).skip(skipped) =~= b);
    if under(below(base, a), below(base, b)) {
        let outer = below(base, a) + "/"@;
        assert forall|n: int| 0 <= n < (a + "/"@).len() implies (a + "/"@)[n] == b[n] by {
            assert(outer[n + skipped] == below(base, b)[n + skipped]);
            assert(outer[n + skipped] == (a + "/"@)[n]);
        }
    }
}

/// Two targets with plain outputs and different directories are well laid.
proof fn plain_outputs_are_well_laid(root: Seq<char>, target: TargetView, other: TargetView)
    requires
        plain_output(target),
        plain_output(other),
        target.directory() != other.directory(),
    ensures
        well_laid(root, target, other),
{
    reveal_strlit("/");
    let base = trimmed_end(root, '/');
    components_of_an_output(root, target);
    components_of_an_output(root, other);
    place_of_a_path_below(base, target.directory());
    place_of_a_path_below(base, other.directory());
    below_tells_apart(place(base), target.directory(), other.directory());
    if (target.directory() + "/"@).is_prefix_of(other.directory()) {
        let inner = inner_of(target, other);
        assert(other.directory() =~= target.directory() + "/"@ + inner);
        place_of_a_path_below(target.directory(), inner);
        assert(below(target.directory(), place(inner)).skip(
            target.directory().len() as int + 1,
        ) =~= place(inner));
        assert(other.directory().skip(target.directory().len() as int + 1) =~= inner);
        assert(place(inner) == inner);
        components_are_names(inner);
        joined_names(components(inner));
        trimmed_end_ends_without(other.output, '/');
        assert(inner.last() == other.directory().last());
        assert(trimmed(inner, '/') == inner);
    }
}

/// Targets with plain outputs, each in a directory of its own, are well
/// separated, where no plan writes into what it leaves to others.
pub proof fn plain_outputs_are_separated(
    root: Seq<char>,
    targets: Seq<TargetView>,
    plans: Seq<PlanView>,
)
    requires
        plans.len() == targets.len(),
        directories_apart(targets),
        forall|i: int| 0 <= i < targets.len() ==> plain_output(#[trigger] targets[i]),
        forall|i: int| 0 <= i < plans.len() ==> writes_nothing_reserved(#[trigger] plans[i]),
    ensures
        each_two_separated(root, targets, plans),
{
    assert forall|i: int, j: int|
        0 <= i < plans.len() && 0 <= j < plans.len() && i != j implies well_separated(
        root,
        targets[i],
        targets[j],
        #[trigger] plans[i],
        #[trigger] plans[j],
    ) by {
        assert(plain_output(targets[i]) && plain_output(targets[j]));
        if i < j {
            assert(targets[i].directory() != targets[j].directory());
        } else {
            assert(targets[j].directory() != targets[i].directory());
        }
        plain_outputs_are_well_laid(root, targets[i], targets[j]);
        plain_outputs_are_well_laid(root, targets[j], targets[i]);
    }
}

} // verus!
