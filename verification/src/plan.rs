//! What is to be written for a target, what is found in its place, and what is
//! to be removed.
use vstd::prelude::*;
use crate::files::File;
#[allow(unused_imports)]
use crate::files::{files_view, FileView};
use crate::signature::{sign, tampered};
#[allow(unused_imports)]
use crate::signature::{is_tampered, signed};
use crate::text::{begins_with, chars_of, piece, same, sort, split_at_each, trim};
#[allow(unused_imports)]
use crate::text::{sorted, split, texts, trimmed};

verus! {

/// All that is to be written for a target: the files, the style of their
/// headers, the extensions of the files that the target owns in its directory,
/// and the directories within it that belong to other targets.
pub struct Plan {
    pub name: String,
    pub directory: String,
    pub files: Vec<File>,
    pub style: String,
    pub extensions: Vec<String>,
    pub reserved: Vec<String>,
}

/// What a [`Plan`] holds.
pub struct PlanView {
    pub name: Seq<char>,
    pub directory: Seq<char>,
    pub files: Seq<FileView>,
    pub style: Seq<char>,
    pub extensions: Seq<Seq<char>>,
    pub reserved: Seq<Seq<char>>,
}

impl View for Plan {
    type V = PlanView;

    open spec fn view(&self) -> PlanView {
        PlanView {
            name: self.name@,
            directory: self.directory@,
            files: files_view(self.files@),
            style: self.style@,
            extensions: texts(self.extensions@),
            reserved: texts(self.reserved@),
        }
    }
}

/// What a list of plans holds.
pub open spec fn plans_view(plans: Seq<Plan>) -> Seq<PlanView> {
    plans.map_values(|plan: Plan| plan@)
}

/// What writing a plan does, or would do, to each path.
pub struct Report {
    pub created: Vec<String>,
    pub updated: Vec<String>,
    pub unchanged: Vec<String>,
    pub deleted: Vec<String>,
    pub tampered: Vec<String>,
}

/// What a [`Report`] holds.
#[verifier::ext_equal]
pub struct ReportView {
    pub created: Seq<Seq<char>>,
    pub updated: Seq<Seq<char>>,
    pub unchanged: Seq<Seq<char>>,
    pub deleted: Seq<Seq<char>>,
    pub tampered: Seq<Seq<char>>,
}

impl View for Report {
    type V = ReportView;

    open spec fn view(&self) -> ReportView {
        ReportView {
            created: texts(self.created@),
            updated: texts(self.updated@),
            unchanged: texts(self.unchanged@),
            deleted: texts(self.deleted@),
            tampered: texts(self.tampered@),
        }
    }
}

/// A report on nothing.
pub open spec fn blank() -> ReportView {
    ReportView {
        created: Seq::empty(),
        updated: Seq::empty(),
        unchanged: Seq::empty(),
        deleted: Seq::empty(),
        tampered: Seq::empty(),
    }
}

impl ReportView {
    /// How many paths are not left as they are.
    pub open spec fn changes(self) -> nat {
        self.created.len() + self.updated.len() + self.deleted.len()
    }
}

/// A text, if there is one.
pub open spec fn optional(text: Option<&str>) -> Option<Seq<char>> {
    match text {
        Some(text) => Some(text@),
        None => None,
    }
}

/// The report with what was found in the place of a file added to it.
pub open spec fn observed(
    report: ReportView,
    file: FileView,
    style: Seq<char>,
    found: Option<Seq<char>>,
) -> ReportView {
    match found {
        None => ReportView { created: report.created.push(file.path), ..report },
        Some(contents) => if contents == signed(file.path, file.body, style) {
            ReportView { unchanged: report.unchanged.push(file.path), ..report }
        } else {
            ReportView {
                updated: report.updated.push(file.path),
                tampered: if is_tampered(file.path, contents, style) {
                    report.tampered.push(file.path)
                } else {
                    report.tampered
                },
                ..report
            }
        },
    }
}

impl Default for Report {
    fn default() -> (report: Self)
        ensures
            report@ == blank(),
    {
        let report = Report {
            created: Vec::new(),
            updated: Vec::new(),
            unchanged: Vec::new(),
            deleted: Vec::new(),
            tampered: Vec::new(),
        };
        assert(report@ =~= blank());
        report
    }
}

impl Report {
    /// How many paths are not left as they are.
    pub fn changes(&self) -> (n: u128)
        ensures
            n == self@.changes(),
    {
        self.created.len() as u128 + self.updated.len() as u128 + self.deleted.len() as u128
    }

    /// Takes down what was found in the place of a file, and says what is to be
    /// written there, if anything is.
    pub fn observe(&mut self, file: &File, style: &str, found: Option<&str>) -> (text: Option<
        String,
    >)
        ensures
            final(self)@ == observed(old(self)@, file@, style@, optional(found)),
            text is None <==> optional(found) == Some(signed(file@.path, file@.body, style@)),
            text is Some ==> text->0@ == signed(file@.path, file@.body, style@),
    {
        let ghost before = self@;
        let text = sign(file.path.as_str(), file.body.as_str(), style);
        match found {
            None => {
                self.created.push(file.path.clone());
                assert(self@ =~= observed(before, file@, style@, optional(found)));
                Some(text)
            },
            Some(contents) => {
                if same(contents, text.as_str()) {
                    self.unchanged.push(file.path.clone());
                    assert(self@ =~= observed(before, file@, style@, optional(found)));
                    None
                } else {
                    self.updated.push(file.path.clone());
                    if tampered(file.path.as_str(), contents, style) {
                        self.tampered.push(file.path.clone());
                    }
                    assert(self@ =~= observed(before, file@, style@, optional(found)));
                    Some(text)
                }
            },
        }
    }
}

/// A path without the separators at its end, and without the components there
/// that stand for the directory itself.
pub open spec fn bare(path: Seq<char>) -> Seq<char>
    decreases path.len(),
{
    if path.len() > 0 && (path.last() == '/' || (path.last() == '.' && (path.len() == 1
        || path[path.len() - 2] == '/'))) {
        bare(path.drop_last())
    } else {
        path
    }
}

/// The last component of a path.
pub open spec fn last_component(path: Seq<char>) -> Seq<char> {
    split(bare(path), '/').last()
}

/// The extension of a path: what follows the last full stop in its last
/// component, where that names a file and something stands before the full
/// stop.
pub open spec fn extension(path: Seq<char>) -> Option<Seq<char>> {
    let name = last_component(path);
    let parts = split(name, '.');
    if name == ".."@ || parts.len() < 2 || (parts.len() == 2 && parts[0].len() == 0) {
        None
    } else {
        Some(parts.last())
    }
}

/// The extension of a path.
pub fn extension_of(path: &str) -> (found: Option<String>)
    ensures
        found is Some == extension(path@) is Some,
        found is Some ==> found->0@ == extension(path@)->0,
{
    let chars = chars_of(path);
    let mut end: usize = chars.len();
    assert(chars@.take(end as int) =~= path@);
    while end > 0 && (chars[end - 1] == '/' || (chars[end - 1] == '.' && (end == 1 || chars[end - 2]
        == '/')))
        invariant
            end <= chars@.len(),
            bare(chars@.take(end as int)) == bare(path@),
        decreases end,
    {
        assert(chars@.take(end as int).drop_last() =~= chars@.take(end - 1));
        end -= 1;
    }
    assert(chars@.subrange(0, end as int) =~= chars@.take(end as int));
    let mut components = split_at_each(piece(&chars, 0, end).as_str(), '/');
    let ghost whole = bare(path@);
    proof {
        crate::text::joined_split_is_the_text(whole, '/');
    }
    let ghost all = texts(components@);
    match components.pop() {
        None => None,
        Some(name) => {
            assert(name@ == all.last());
            let mut parts = split_at_each(name.as_str(), '.');
            let ghost pieces = texts(parts@);
            if same(name.as_str(), "..") || parts.len() < 2 || (parts.len() == 2
                && parts[0].as_str().is_empty()) {
                assert(parts@.len() == 2 ==> pieces[0] == parts@[0]@);
                return None;
            }
            assert(pieces[0] == parts@[0]@);
            let last = parts.pop();
            assert(last is Some && last->0@ == pieces.last());
            last
        },
    }
}

/// Whether a path lies in one of the directories.
pub open spec fn lies_in(path: Seq<char>, directories: Seq<Seq<char>>) -> bool {
    exists|i: int|
        0 <= i < directories.len() && (trimmed(#[trigger] directories[i], '/')
            + "/"@).is_prefix_of(path)
}

/// Whether a file is one of the plan.
pub open spec fn planned(plan: PlanView, path: Seq<char>) -> bool {
    exists|i: int| 0 <= i < plan.files.len() && (#[trigger] plan.files[i]).path == path
}

/// Whether a path has an extension that the plan owns.
pub open spec fn owned(plan: PlanView, path: Seq<char>) -> bool {
    extension(path) is Some && plan.extensions.contains(extension(path)->0)
}

/// Whether a file that was found is to be removed: it is not one of the plan,
/// has an extension that the plan owns, and lies in no other target's directory.
pub open spec fn is_stale(plan: PlanView, path: Seq<char>) -> bool {
    !planned(plan, path) && owned(plan, path) && !lies_in(path, plan.reserved)
}

/// The stale paths among those that were found.
pub open spec fn stale_among(plan: PlanView, found: Seq<Seq<char>>) -> Seq<Seq<char>>
    decreases found.len(),
{
    if found.len() == 0 {
        Seq::empty()
    } else {
        let before = stale_among(plan, found.drop_last());
        if is_stale(plan, found.last()) {
            before.push(found.last())
        } else {
            before
        }
    }
}

impl Plan {
    fn plans(&self, path: &str) -> (yes: bool)
        ensures
            yes == planned(self@, path@),
    {
        let mut i: usize = 0;
        while i < self.files.len()
            invariant
                i <= self.files@.len(),
                forall|j: int| 0 <= j < i ==> (#[trigger] self@.files[j]).path != path@,
            decreases self.files@.len() - i,
        {
            assert(self@.files[i as int] == self.files@[i as int]@);
            if same(self.files[i].path.as_str(), path) {
                return true;
            }
            i += 1;
        }
        false
    }

    fn owns(&self, path: &str) -> (yes: bool)
        ensures
            yes == owned(self@, path@),
    {
        match extension_of(path) {
            None => false,
            Some(found) => {
                let mut i: usize = 0;
                while i < self.extensions.len()
                    invariant
                        i <= self.extensions@.len(),
                        extension(path@) == Some(found@),
                        forall|j: int| 0 <= j < i ==> #[trigger] self@.extensions[j] != found@,
                    decreases self.extensions@.len() - i,
                {
                    assert(self@.extensions[i as int] == self.extensions@[i as int]@);
                    if same(self.extensions[i].as_str(), found.as_str()) {
                        return true;
                    }
                    i += 1;
                }
                false
            },
        }
    }

    fn reserves(&self, path: &str) -> (yes: bool)
        ensures
            yes == lies_in(path@, self@.reserved),
    {
        let mut i: usize = 0;
        while i < self.reserved.len()
            invariant
                i <= self.reserved@.len(),
                forall|j: int|
                    0 <= j < i ==> !(trimmed(#[trigger] self@.reserved[j], '/')
                        + "/"@).is_prefix_of(path@),
            decreases self.reserved@.len() - i,
        {
            assert(self@.reserved[i as int] == self.reserved@[i as int]@);
            let mut directory = trim(self.reserved[i].as_str(), '/');
            directory.append("/");
            if begins_with(path, directory.as_str()) {
                return true;
            }
            i += 1;
        }
        false
    }

    /// The stale paths among those that were found, in order.
    pub fn stale(&self, found: &Vec<String>) -> (paths: Vec<String>)
        ensures
            texts(paths@) == sorted(stale_among(self@, texts(found@))),
    {
        let ghost all = texts(found@);
        let mut paths: Vec<String> = Vec::new();
        let mut i: usize = 0;
        assert(texts(paths@) =~= Seq::empty());
        while i < found.len()
            invariant
                i <= found@.len(),
                all == texts(found@),
                texts(paths@) == stale_among(self@, all.take(i as int)),
            decreases found@.len() - i,
        {
            assert(all.take(i + 1).drop_last() =~= all.take(i as int));
            assert(all.take(i + 1).last() == found@[i as int]@);
            let path = found[i].as_str();
            if !self.plans(path) && self.owns(path) && !self.reserves(path) {
                let ghost before = texts(paths@);
                paths.push(found[i].clone());
                assert(texts(paths@) =~= before.push(path@));
            }
            i += 1;
        }
        assert(all.take(i as int) =~= all);
        sort(paths)
    }
}

} // verus!
