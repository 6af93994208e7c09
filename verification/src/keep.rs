//! The steps of a run that touch the directories.
use vstd::prelude::*;
use crate::plan::{Plan, Report};
use crate::run::{end, fail, precede, quiet};
use crate::session::{Next, Reading, Removing, Step, Upkeep, Writing};
#[allow(unused_imports)]
use crate::session::{
    difference, farewell, finished, found, kept_up, listed, plan_done, regenerated, removed,
    section, summary,
};
use crate::text::{decimal_text, join};
#[allow(unused_imports)]
use crate::text::texts;

verus! {

/// The step that follows when the upkeep has come to where it is.
pub(crate) fn keep_up(upkeep: Upkeep) -> (step: Step)
    requires
        upkeep@.wf(),
    ensures
        step@ == kept_up(upkeep@),
        step@.next.wf(),
{
    if upkeep.plan >= upkeep.plans.len() {
        return bid_farewell(&upkeep);
    }
    assert(upkeep@.current() == upkeep.plans@[upkeep.plan as int]@);
    if upkeep.file < upkeep.plans[upkeep.plan].files.len() {
        quiet(Next::Read(upkeep))
    } else {
        quiet(Next::List(upkeep))
    }
}

/// The last step.
fn bid_farewell(upkeep: &Upkeep) -> (step: Step)
    ensures
        step@ == farewell(upkeep@),
{
    let all = decimal_text(upkeep.plans.len() as u128);
    if !upkeep.check {
        let mut line = all;
        line.append(" target(s) generated.");
        end(line, 0)
    } else if upkeep.dirty == 0 {
        let mut line = "Every target is up to date (".to_owned();
        line.append(all.as_str());
        line.append(" target(s), ");
        line.append(decimal_text(upkeep.unchanged).as_str());
        line.append(" files).");
        end(line, 0)
    } else {
        let mut line = decimal_text(upkeep.dirty as u128);
        line.append(" of ");
        line.append(all.as_str());
        line.append(" target(s) are out of date.\nRun eleph generate and commit the result.");
        end(line, 1)
    }
}

impl Upkeep {
    /// The path of the file to look at, below the directory of its plan.
    pub fn path(&self) -> (path: String)
        requires
            self@.reading(),
        ensures
            path@ == self@.current().files[self@.file as int].path,
    {
        assert(self@.current() == self.plans@[self.plan as int]@);
        self.plans[self.plan].files[self.file].path.clone()
    }

    /// The directory of the plan to keep up.
    pub fn directory(&self) -> (directory: String)
        requires
            self@.listing(),
        ensures
            directory@ == self@.current().directory,
    {
        assert(self@.current() == self.plans@[self.plan as int]@);
        self.plans[self.plan].directory.clone()
    }

    /// The step that follows when the place of a file was read.
    pub fn find(self, reading: Reading) -> (step: Step)
        requires
            self@.reading(),
        ensures
            step@ == found(self@, reading@),
            step@.next.wf(),
    {
        let mut upkeep = self;
        assert(self@.current() == upkeep.plans@[upkeep.plan as int]@);
        let contents = match &reading {
            Reading::Failed { shown, words } => {
                let mut fault = "Cannot read ".to_owned();
                fault.append(shown.as_str());
                fault.append(": ");
                fault.append(words.as_str());
                return fail(fault);
            },
            Reading::Missing => None,
            Reading::Contents(text) => Some(text.as_str()),
        };
        let plan = &upkeep.plans[upkeep.plan];
        let file = &plan.files[upkeep.file];
        assert(self@.current().files[self@.file as int] == file@);
        let path = file.path.clone();
        assert(upkeep.file < plan.files.len());
        let text = upkeep.report.observe(file, plan.style.as_str(), contents);
        upkeep.file = upkeep.file + 1;
        match text {
            Some(contents) => {
                if upkeep.check {
                    keep_up(upkeep)
                } else {
                    quiet(Next::Write(Writing { upkeep, path, contents }))
                }
            },
            None => keep_up(upkeep),
        }
    }

    /// The step that follows when the directory of the plan was listed.
    pub fn list(self, paths: &Vec<String>) -> (step: Step)
        requires
            self@.listing(),
        ensures
            step@ == listed(self@, texts(paths@)),
            step@.next.wf(),
    {
        let mut upkeep = self;
        assert(self@.current() == upkeep.plans@[upkeep.plan as int]@);
        upkeep.report.deleted = upkeep.plans[upkeep.plan].stale(paths);
        if !upkeep.check && upkeep.report.deleted.len() > 0 {
            quiet(Next::Remove(Removing { upkeep, next: 0 }))
        } else {
            finish(upkeep)
        }
    }
}

impl Writing {
    /// The step that follows when the file was written.
    pub fn done(self) -> (step: Step)
        requires
            self.upkeep@.listing(),
        ensures
            step@ == kept_up(self.upkeep@),
            step@.next.wf(),
    {
        keep_up(self.upkeep)
    }
}

impl Removing {
    /// The path of the file to remove, below the directory of its plan.
    pub fn path(&self) -> (path: String)
        requires
            self.next < self.upkeep@.report.deleted.len(),
        ensures
            path@ == self.upkeep@.report.deleted[self.next as int],
    {
        self.upkeep.report.deleted[self.next].clone()
    }

    /// The step that follows when the file was removed.
    pub fn done(self) -> (step: Step)
        requires
            self.upkeep@.listing(),
            self.next < self.upkeep@.report.deleted.len(),
        ensures
            step@ == removed(self.upkeep@, self.next as nat),
            step@.next.wf(),
    {
        assert(self.next < self.upkeep.report.deleted.len());
        if self.next + 1 < self.upkeep.report.deleted.len() {
            quiet(Next::Remove(Removing { upkeep: self.upkeep, next: self.next + 1 }))
        } else {
            finish(self.upkeep)
        }
    }
}

/// The paths below a heading; nothing where there are none.
fn section_text(heading: &str, paths: &Vec<String>) -> (text: String)
    ensures
        text@ == section(heading@, texts(paths@)),
{
    if paths.len() > 0 {
        let mut text = heading.to_owned();
        text.append(":\n  ");
        text.append(join(paths, "\n  ").as_str());
        text.append("\n");
        text
    } else {
        let text = String::new();
        assert(text@ =~= Seq::empty());
        text
    }
}

/// What a check prints about a plan.
fn difference_text(name: &str, report: &Report) -> (text: String)
    ensures
        text@ == difference(name@, report@),
{
    let changes = report.changes();
    if changes > 0 {
        let mut text = name.to_owned();
        text.append(" — ");
        text.append(decimal_text(changes).as_str());
        text.append(" file(s) differ\n");
        text.append(section_text("Hand-edited", &report.tampered).as_str());
        text.append(section_text("Would be created", &report.created).as_str());
        text.append(section_text("Would be updated", &report.updated).as_str());
        text.append(
            section_text("No longer produced by the schema", &report.deleted).as_str(),
        );
        text
    } else {
        let text = String::new();
        assert(text@ =~= Seq::empty());
        text
    }
}

/// What is printed about files that had been edited by hand.
fn regenerated_text(name: &str, paths: &Vec<String>) -> (text: String)
    ensures
        text@ == regenerated(name@, texts(paths@)),
{
    let ghost all = texts(paths@);
    let mut text = String::new();
    let mut i: usize = 0;
    assert(text@ =~= Seq::empty());
    while i < paths.len()
        invariant
            i <= paths@.len(),
            all == texts(paths@),
            text@ == regenerated(name@, all.take(i as int)),
        decreases paths@.len() - i,
    {
        assert(all.take(i + 1).drop_last() =~= all.take(i as int));
        assert(all.take(i + 1).last() == paths@[i as int]@);
        text.append("[");
        text.append(name);
        text.append("] ");
        text.append(paths[i].as_str());
        text.append(" had been edited by hand; it has been regenerated.\n");
        i += 1;
    }
    assert(all.take(i as int) =~= all);
    text
}

/// What is printed about a plan that was written.
fn summary_text(plan: &Plan, report: &Report) -> (text: String)
    ensures
        text@ == summary(plan@, report@),
{
    let mut text = regenerated_text(plan.name.as_str(), &report.tampered);
    text.append(plan.name.as_str());
    text.append(": ");
    text.append(decimal_text(plan.files.len() as u128).as_str());
    text.append(" file(s): ");
    text.append(decimal_text(report.created.len() as u128).as_str());
    text.append(" created, ");
    text.append(decimal_text(report.updated.len() as u128).as_str());
    text.append(" updated, ");
    text.append(decimal_text(report.unchanged.len() as u128).as_str());
    text.append(" unchanged, ");
    text.append(decimal_text(report.deleted.len() as u128).as_str());
    text.append(" removed.\n");
    text
}

/// The step that follows when a plan is done.
fn finish(upkeep: Upkeep) -> (step: Step)
    requires
        upkeep@.listing(),
    ensures
        step@ == finished(upkeep@),
        step@.next.wf(),
{
    let ghost before = upkeep@;
    let mut upkeep = upkeep;
    assert(before.current() == upkeep.plans@[upkeep.plan as int]@);
    let plan = &upkeep.plans[upkeep.plan];
    let print = if upkeep.check {
        difference_text(plan.name.as_str(), &upkeep.report)
    } else {
        summary_text(plan, &upkeep.report)
    };
    assert(upkeep.plan < upkeep.plans.len());
    if upkeep.check && upkeep.report.changes() > 0 {
        upkeep.dirty = upkeep.dirty + 1;
    }
    upkeep.unchanged = upkeep.unchanged + upkeep.report.unchanged.len() as u128;
    upkeep.plan = upkeep.plan + 1;
    upkeep.file = 0;
    upkeep.report = Report::default();
    assert(upkeep@ == plan_done(before));
    precede(print, keep_up(upkeep))
}

} // verus!
