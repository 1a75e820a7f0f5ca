//! What the install wants done once the plan is on disk, in order.

use vstd::prelude::*;
use crate::cmd::{Invocation, InvocationView};
use crate::nvram::BootEntry;

verus! {

/// One thing for whoever carries out the install to do: say something,
/// warn about something, run something and stop the install if it fails,
/// write BIOS stage 1 to a disk the same way, or register a firmware boot
/// entry.
pub enum Step {
    Note(String),
    Warn(String),
    Run(Invocation),
    /// `limine bios-install`, whose failure is reported with
    /// `bios::stage1_failure`.
    Stage1(Invocation),
    Register(BootEntry),
}

pub enum StepView {
    Note(Seq<char>),
    Warn(Seq<char>),
    Run(InvocationView),
    Stage1(InvocationView),
    Register(BootEntry),
}

impl View for Step {
    type V = StepView;

    open spec fn view(&self) -> StepView {
        match self {
            Step::Note(s) => StepView::Note(s@),
            Step::Warn(s) => StepView::Warn(s@),
            Step::Run(i) => StepView::Run(i@),
            Step::Stage1(i) => StepView::Stage1(i@),
            Step::Register(e) => StepView::Register(*e),
        }
    }
}

pub open spec fn step_views(s: Seq<Step>) -> Seq<StepView> {
    s.map_values(|x: Step| x@)
}

pub fn push_step(steps: &mut Vec<Step>, s: Step)
    ensures
        step_views(final(steps)@) == step_views(old(steps)@).push(s@),
{
    let ghost before = steps@;
    steps.push(s);
    assert(step_views(steps@) =~= step_views(before).push(s@));
}

} // verus!
