//! Keeping the repository in line with the files: what is staged and
//! committed after a note was edited or removed.

use crate::action::{actions_view, Action, ActionView};
use crate::note::{Note, NoteError};
use crate::text::copy_of;
use vstd::prelude::*;
use vstd::string::*;

verus! {

/// What happened to a note.
#[derive(Debug, Clone, Copy, PartialEq, Eq, Structural)]
pub enum Change {
    Created,
    Edited,
    Removed,
}

/// The word that stands for the change in a commit message.
pub open spec fn change_word(change: Change) -> Seq<char> {
    match change {
        Change::Created => "created"@,
        Change::Edited => "edited"@,
        Change::Removed => "removed"@,
    }
}

/// The message of the commit that records `change` of the note `name`.
pub open spec fn commit_message_of(change: Change, name: Seq<char>) -> Seq<char> {
    change_word(change) + "] "@ + name
}

/// The message of the commit that records `change` of the note `name`.
pub fn commit_message(change: Change, name: &str) -> (r: String)
    ensures
        r@ == commit_message_of(change, name@),
{
    let word = match change {
        Change::Created => "created",
        Change::Edited => "edited",
        Change::Removed => "removed",
    };
    copy_of(word).concat("] ").concat(name)
}

/// What follows the editor's exit. Where the note's file exists, it is
/// staged and committed, as created where it did not exist before and as
/// edited where it did. Where it does not exist, nothing follows.
pub open spec fn edit_actions(note: crate::note::NoteView, existed: bool, exists: bool) -> Seq<
    ActionView,
> {
    if exists {
        seq![
            ActionView::GitStage(note.path),
            ActionView::GitCommit(
                commit_message_of(
                    if existed {
                        Change::Edited
                    } else {
                        Change::Created
                    },
                    note.name,
                ),
            ),
        ]
    } else {
        Seq::empty()
    }
}

/// What to do once the editor has exited: `existed` says whether the
/// note's file was there before the editor ran, `exists` whether it is
/// there now.
pub fn after_edit(note: &Note, existed: bool, exists: bool) -> (plan: Vec<Action>)
    ensures
        actions_view(plan@) == edit_actions(note@, existed, exists),
        !exists ==> plan@.len() == 0,
{
    if exists {
        let change = if existed {
            Change::Edited
        } else {
            Change::Created
        };
        let plan = vec![
            Action::GitStage(copy_of(note.path())),
            Action::GitCommit(commit_message(change, note.name())),
        ];
        assert(actions_view(plan@) =~= edit_actions(note@, existed, exists));
        plan
    } else {
        let plan: Vec<Action> = Vec::new();
        assert(actions_view(plan@) =~= edit_actions(note@, existed, exists));
        plan
    }
}

/// What removes a note: its file is removed and the removal committed.
pub open spec fn removal_actions(note: crate::note::NoteView) -> Seq<ActionView> {
    seq![
        ActionView::GitRemove(note.path),
        ActionView::GitCommit(commit_message_of(Change::Removed, note.name)),
    ]
}

/// What to do to remove `note`, `exists` saying whether its file is there.
/// A note without a file is not found, and nothing is done.
pub fn remove(note: &Note, exists: bool) -> (r: Result<Vec<Action>, NoteError>)
    ensures
        r is Ok <==> exists,
        r is Ok ==> actions_view(r->Ok_0@) == removal_actions(note@),
        r is Err ==> r->Err_0 == NoteError::NoteNotFound,
{
    if !exists {
        return Err(NoteError::NoteNotFound);
    }
    let plan = vec![
        Action::GitRemove(copy_of(note.path())),
        Action::GitCommit(commit_message(Change::Removed, note.name())),
    ];
    assert(actions_view(plan@) =~= removal_actions(note@));
    Ok(plan)
}

/// The path of `note` for a caller who asked where it lies, `exists`
/// saying whether its file is there. A note without a file is not found.
pub fn locate(note: &Note, exists: bool) -> (r: Result<String, NoteError>)
    ensures
        r is Ok <==> exists,
        r is Ok ==> r->Ok_0@ == note@.path,
        r is Err ==> r->Err_0 == NoteError::NoteNotFound,
{
    if exists {
        Ok(copy_of(note.path()))
    } else {
        Err(NoteError::NoteNotFound)
    }
}

} // verus!
