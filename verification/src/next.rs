//! The decisions of the command that moves the working copy to the next
//! child revision.
//!
//! The command looks up commits and writes a transaction; that work is done
//! by its caller. What is decided here is where the search for the target
//! starts, what the search has to leave out, which target it settles on, and
//! what is then done with it.

use crate::object_id::CommitId;
use crate::text::{decimal, push_decimal};
use vstd::prelude::*;
use vstd::string::StringExecFns;

verus! {

/// Why the command cannot go on.
#[derive(Clone, Copy, Debug, PartialEq, Eq, Structural)]
pub enum NextError {
    /// There is no working copy to move.
    NoWorkingCopy,
    /// The working-copy commit does not have exactly one parent.
    MergeCommit,
    /// No commit lies `amount` steps ahead; `plural` says whether the amount
    /// is more than one.
    NoDescendant { amount: u64, plural: bool },
    /// More than one commit lies that far ahead.
    AmbiguousTarget,
}

impl NextError {
    /// The error as it is shown to the user.
    pub open spec fn message_text(&self) -> Seq<char> {
        match self {
            NextError::NoWorkingCopy => "This command requires a working copy"@,
            NextError::MergeCommit => "Cannot run `jj next` on a merge commit"@,
            NextError::NoDescendant { amount, plural } => {
                "No descendant found "@ + decimal(*amount as nat) + " commit"@ + (if *plural {
                    "s"@
                } else {
                    ""@
                }) + " forward"@
            },
            NextError::AmbiguousTarget => "Ambiguous target commit"@,
        }
    }

    /// The error as it is shown to the user.
    pub fn message(&self) -> (text: String)
        ensures
            text@ == self.message_text(),
    {
        let mut text = String::new();
        match self {
            NextError::NoWorkingCopy => {
                text.append("This command requires a working copy");
            },
            NextError::MergeCommit => {
                text.append("Cannot run `jj next` on a merge commit");
            },
            NextError::NoDescendant { amount, plural } => {
                text.append("No descendant found ");
                push_decimal(&mut text, *amount);
                text.append(" commit");
                text.append(if *plural { "s" } else { "" });
                text.append(" forward");
            },
            NextError::AmbiguousTarget => {
                text.append("Ambiguous target commit");
            },
        }
        assert(text@ =~= self.message_text());
        text
    }
}

/// Where the search for the target starts.
#[derive(Clone, Copy, Debug, PartialEq, Eq, Structural)]
pub enum SearchStart {
    /// At the working-copy commit itself.
    WorkingCopy,
    /// At the one parent of the working-copy commit.
    Parent,
}

/// What is done with the target.
#[derive(Clone, Copy, Debug, PartialEq, Eq, Structural)]
pub enum NextStep {
    /// The target becomes the working-copy commit.
    Edit,
    /// A new working-copy commit is made on top of the target.
    CheckOut,
}

/// What the search has to do.
#[derive(Clone, Copy, Debug, PartialEq, Eq, Structural)]
pub struct SearchPlan {
    pub start: SearchStart,
    /// How many steps ahead of the start the target lies.
    pub amount: u64,
    /// Whether the descendants of the working-copy commit are left out.
    pub skip_working_copy_descendants: bool,
}

/// The working-copy commit, or the error if there is none.
pub fn require_working_copy(working_copy: Option<&CommitId>) -> (r: Result<&CommitId, NextError>)
    ensures
        working_copy matches Some(id) ==> r is Ok && r->Ok_0 == id,
        working_copy is None ==> r is Err && r->Err_0 == NextError::NoWorkingCopy,
{
    match working_copy {
        Some(id) => Ok(id),
        None => Err(NextError::NoWorkingCopy),
    }
}

/// Plans the search for the target.
///
/// When the target is to be edited, the search starts at the working-copy
/// commit and leaves nothing out. Otherwise it starts at the parent of the
/// working-copy commit, which has to be the only one, and leaves out what
/// descends from the working-copy commit.
pub fn plan_search(edit: bool, amount: u64, parents: usize) -> (r: Result<SearchPlan, NextError>)
    ensures
        r is Ok <==> edit || parents == 1,
        r matches Ok(plan) ==> plan.amount == amount,
        r matches Ok(plan) ==> (edit <==> plan.start == SearchStart::WorkingCopy),
        r matches Ok(plan) ==> (!edit <==> plan.start == SearchStart::Parent),
        r matches Ok(plan) ==> plan.skip_working_copy_descendants == !edit,
        r matches Err(e) ==> e == NextError::MergeCommit,
{
    if edit {
        Ok(
            SearchPlan {
                start: SearchStart::WorkingCopy,
                amount,
                skip_working_copy_descendants: false,
            },
        )
    } else if parents == 1 {
        Ok(SearchPlan { start: SearchStart::Parent, amount, skip_working_copy_descendants: true })
    } else {
        Err(NextError::MergeCommit)
    }
}

/// Settles on the target, given how many candidates the search found; it
/// need not count beyond two.
///
/// One candidate is the target, and the step to take with it depends on
/// `edit` alone. None and several are errors.
pub fn choose_step(edit: bool, amount: u64, candidates: usize) -> (r: Result<NextStep, NextError>)
    ensures
        r is Ok <==> candidates == 1,
        r matches Ok(step) ==> (edit <==> step == NextStep::Edit),
        r matches Ok(step) ==> (!edit <==> step == NextStep::CheckOut),
        candidates == 0 ==> r is Err && r->Err_0 is NoDescendant,
        candidates == 0 ==> r->Err_0->amount == amount && r->Err_0->plural == (amount > 1),
        candidates > 1 ==> r is Err && r->Err_0 == NextError::AmbiguousTarget,
{
    if candidates == 1 {
        if edit {
            Ok(NextStep::Edit)
        } else {
            Ok(NextStep::CheckOut)
        }
    } else if candidates == 0 {
        Err(NextError::NoDescendant { amount, plural: amount > 1 })
    } else {
        Err(NextError::AmbiguousTarget)
    }
}

} // verus!
