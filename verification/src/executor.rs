//! The executor's decisions: interpreting the interactive confirm answer,
//! and turning a plan and a mode into the exact ordered list of actions an
//! apply pass must perform. Rendering and the actual writes live with the
//! caller; the first failed action aborts the rest (fail-fast), which the
//! caller honors by stopping at the first error.

use vstd::prelude::*;

use crate::config::Mode;
use crate::plan::{FileEntry, FileEntryView, FileStatus, GroupPlan, Plan};
use crate::text::{scan_trim, trim_spec};

verus! {

/// What one line of interactive input means.
#[derive(Clone, Copy, PartialEq, Eq, Structural, Debug)]
pub enum ConfirmAnswer {
    /// `y`: apply the plan.
    Proceed,
    /// `n` or an empty line: abort.
    Abort,
    /// `d`: render diffs for every changed entry, then ask again.
    ShowDiff,
    /// Anything else: print a usage hint and ask again.
    Invalid,
}

/// The interpretation of one input line: trimmed, case-insensitive,
/// single-character commands.
pub open spec fn answer_of(input: Seq<char>) -> ConfirmAnswer {
    let t = trim_spec(input);
    if t.len() == 0 {
        ConfirmAnswer::Abort
    } else if t.len() == 1 && (t[0] == 'y' || t[0] == 'Y') {
        ConfirmAnswer::Proceed
    } else if t.len() == 1 && (t[0] == 'n' || t[0] == 'N') {
        ConfirmAnswer::Abort
    } else if t.len() == 1 && (t[0] == 'd' || t[0] == 'D') {
        ConfirmAnswer::ShowDiff
    } else {
        ConfirmAnswer::Invalid
    }
}

/// Interprets one line read from the interactive confirm prompt.
pub fn interpret_answer(input: &str) -> (r: ConfirmAnswer)
    ensures
        r == answer_of(input@),
{
    let n = input.unicode_len();
    proof {
        assert(input@.subrange(0, n as int) =~= input@);
    }
    let (lo, hi) = scan_trim(input, 0, n);
    proof {
        assert(trim_spec(input@) == input@.subrange(lo as int, hi as int));
    }
    if lo == hi {
        return ConfirmAnswer::Abort;
    }
    if hi - lo == 1 {
        let c = input.get_char(lo);
        if c == 'y' || c == 'Y' {
            return ConfirmAnswer::Proceed;
        }
        if c == 'n' || c == 'N' {
            return ConfirmAnswer::Abort;
        }
        if c == 'd' || c == 'D' {
            return ConfirmAnswer::ShowDiff;
        }
    }
    ConfirmAnswer::Invalid
}

/// How an entry is materialized.
#[derive(Clone, Copy, PartialEq, Eq, Structural, Debug)]
pub enum ActionKind {
    /// Write the source's content to the destination.
    CopyContent,
    /// Replace whatever is at the destination with a symlink to the source.
    MakeLink,
}

/// One step of an apply pass.
#[derive(Debug)]
pub struct ApplyAction {
    pub group_name: String,
    pub entry: FileEntry,
    pub kind: ActionKind,
}

/// The mathematical image of an action.
pub ghost struct ApplyActionView {
    pub group_name: Seq<char>,
    pub entry: FileEntryView,
    pub kind: ActionKind,
}

impl View for ApplyAction {
    type V = ApplyActionView;

    open spec fn view(&self) -> ApplyActionView {
        ApplyActionView { group_name: self.group_name@, entry: self.entry@, kind: self.kind }
    }
}

/// The action kind a mode calls for: copy mode writes content, link mode
/// materializes a symlink and never calls a content write.
pub open spec fn kind_for(mode: Mode) -> ActionKind {
    if mode == Mode::File {
        ActionKind::CopyContent
    } else {
        ActionKind::MakeLink
    }
}

/// The actions of one group: every entry that is not `Same`, in entry
/// order.
pub open spec fn group_action_views(name: Seq<char>, entries: Seq<FileEntry>, mode: Mode) -> Seq<
    ApplyActionView,
>
    decreases entries.len(),
{
    if entries.len() == 0 {
        Seq::empty()
    } else {
        let rest = group_action_views(name, entries.drop_last(), mode);
        let e = entries.last();
        if e.status != FileStatus::Same {
            rest.push(ApplyActionView { group_name: name, entry: e@, kind: kind_for(mode) })
        } else {
            rest
        }
    }
}

/// The actions of a whole plan: group order, then entry order.
pub open spec fn plan_action_views(groups: Seq<GroupPlan>, mode: Mode) -> Seq<ApplyActionView>
    decreases groups.len(),
{
    if groups.len() == 0 {
        Seq::empty()
    } else {
        plan_action_views(groups.drop_last(), mode) + group_action_views(
            groups.last().group_name@,
            groups.last().entries@,
            mode,
        )
    }
}

/// The ordered actions an apply pass performs for this plan: exactly the
/// non-`Same` entries, in group order then entry order, each materialized
/// as the mode directs.
pub fn plan_actions(plan: &Plan, mode: Mode) -> (r: Vec<ApplyAction>)
    ensures
        Seq::new(r@.len(), |i: int| r@[i]@) == plan_action_views(plan.groups@, mode),
{
    let mut actions: Vec<ApplyAction> = Vec::new();
    let kind = if matches!(mode, Mode::File) {
        ActionKind::CopyContent
    } else {
        ActionKind::MakeLink
    };
    let mut g: usize = 0;
    proof {
        assert(Seq::new(actions@.len(), |i: int| actions@[i]@) =~= plan_action_views(
            plan.groups@.take(0),
            mode,
        ));
    }
    while g < plan.groups.len()
        invariant
            g <= plan.groups@.len(),
            kind == kind_for(mode),
            Seq::new(actions@.len(), |i: int| actions@[i]@) =~= plan_action_views(
                plan.groups@.take(g as int),
                mode,
            ),
        decreases plan.groups@.len() - g,
    {
        let ghost outer_before = Seq::new(actions@.len(), |i: int| actions@[i]@);
        proof {
            assert(plan.groups@.take(g as int + 1).drop_last() =~= plan.groups@.take(g as int));
            assert(plan.groups@.take(g as int + 1).last() == plan.groups@[g as int]);
        }
        let group = &plan.groups[g];
        let mut e: usize = 0;
        proof {
            assert(group.entries@.take(0) =~= Seq::<FileEntry>::empty());
            assert(outer_before + group_action_views(group.group_name@, group.entries@.take(0), mode)
                =~= outer_before);
        }
        while e < group.entries.len()
            invariant
                e <= group.entries@.len(),
                kind == kind_for(mode),
                Seq::new(actions@.len(), |i: int| actions@[i]@) =~= outer_before
                    + group_action_views(group.group_name@, group.entries@.take(e as int), mode),
            decreases group.entries@.len() - e,
        {
            let ghost before = Seq::new(actions@.len(), |i: int| actions@[i]@);
            proof {
                assert(group.entries@.take(e as int + 1).drop_last() =~= group.entries@.take(
                    e as int,
                ));
                assert(group.entries@.take(e as int + 1).last() == group.entries@[e as int]);
            }
            if !(group.entries[e].status == FileStatus::Same) {
                actions.push(
                    ApplyAction {
                        group_name: group.group_name.clone(),
                        entry: group.entries[e].clone(),
                        kind,
                    },
                );
                proof {
                    assert(Seq::new(actions@.len(), |i: int| actions@[i]@) =~= before.push(
                        actions@.last()@,
                    ));
                }
            }
            e = e + 1;
        }
        proof {
            assert(group.entries@.take(group.entries@.len() as int) =~= group.entries@);
        }
        g = g + 1;
    }
    proof {
        assert(plan.groups@.take(plan.groups@.len() as int) =~= plan.groups@);
    }
    actions
}

/// The change classes a rendered diff line can carry.
#[derive(Clone, Copy, PartialEq, Eq, Structural, Debug)]
pub enum DiffLineKind {
    /// A line present only in the destination (old) text.
    Removed,
    /// A line present only in the source (new) text.
    Added,
    /// A line shared by both texts, shown for context.
    Context,
}

/// The line number a rendered diff line is labelled with: a removed line
/// carries its position in the destination text, any other line its
/// position in the source text.
pub fn diff_line_index(kind: DiffLineKind, old_index: Option<usize>, new_index: Option<usize>) -> (r:
    Option<usize>)
    ensures
        r == (match kind {
            DiffLineKind::Removed => old_index,
            DiffLineKind::Added => new_index,
            DiffLineKind::Context => new_index,
        }),
{
    match kind {
        DiffLineKind::Removed => old_index,
        DiffLineKind::Added => new_index,
        DiffLineKind::Context => new_index,
    }
}

/// The sign column of a rendered diff line.
pub fn diff_sign(kind: DiffLineKind) -> (r: &'static str)
    ensures
        kind == DiffLineKind::Removed ==> r@ == "-"@,
        kind == DiffLineKind::Added ==> r@ == "+"@,
        kind == DiffLineKind::Context ==> r@ == " "@,
{
    match kind {
        DiffLineKind::Removed => "-",
        DiffLineKind::Added => "+",
        DiffLineKind::Context => " ",
    }
}

/// The label an apply pass reports for an entry it processed.
pub fn status_label(status: FileStatus) -> (r: &'static str)
    ensures
        status == FileStatus::Create ==> r@ == "Created"@,
        status == FileStatus::Overwrite ==> r@ == "Updated"@,
        status == FileStatus::Same ==> r@ == "Skipped"@,
{
    match status {
        FileStatus::Create => "Created",
        FileStatus::Overwrite => "Updated",
        FileStatus::Same => "Skipped",
    }
}

} // verus!
