//! The effects that the library asks its caller to carry out.

use crate::text::{copy_of, texts};
use vstd::prelude::*;
use vstd::string::*;

verus! {

/// One effect on the file system or the version-control repository.
#[derive(Debug, PartialEq, Eq)]
pub enum Action {
    /// Create the directory, and those above it that are missing.
    CreateDir(String),
    /// Make the directory the working directory.
    EnterDir(String),
    /// Write the file of this name with this content.
    WriteFile(String, String),
    /// Write the repository's manifest to the file of this name.
    WriteManifest(String),
    /// Initialise a repository in the working directory.
    GitInit,
    /// Stage all that the working directory holds.
    GitStageAll,
    /// Stage the file at this path.
    GitStage(String),
    /// Remove the file at this path, and stage the removal.
    GitRemove(String),
    /// Commit what is staged, with this message.
    GitCommit(String),
}

pub enum ActionView {
    CreateDir(Seq<char>),
    EnterDir(Seq<char>),
    WriteFile(Seq<char>, Seq<char>),
    WriteManifest(Seq<char>),
    GitInit,
    GitStageAll,
    GitStage(Seq<char>),
    GitRemove(Seq<char>),
    GitCommit(Seq<char>),
}

impl View for Action {
    type V = ActionView;

    open spec fn view(&self) -> ActionView {
        match self {
            Action::CreateDir(p) => ActionView::CreateDir(p@),
            Action::EnterDir(p) => ActionView::EnterDir(p@),
            Action::WriteFile(p, c) => ActionView::WriteFile(p@, c@),
            Action::WriteManifest(p) => ActionView::WriteManifest(p@),
            Action::GitInit => ActionView::GitInit,
            Action::GitStageAll => ActionView::GitStageAll,
            Action::GitStage(p) => ActionView::GitStage(p@),
            Action::GitRemove(p) => ActionView::GitRemove(p@),
            Action::GitCommit(m) => ActionView::GitCommit(m@),
        }
    }
}

pub open spec fn actions_view(actions: Seq<Action>) -> Seq<ActionView> {
    actions.map_values(|a: Action| a@)
}

/// The arguments with which the version-control program carries out
/// `action`, where the action is one of its own.
pub open spec fn git_arguments_of(action: ActionView) -> Option<Seq<Seq<char>>> {
    match action {
        ActionView::GitInit => Some(seq!["init"@]),
        ActionView::GitStageAll => Some(seq!["add"@, "."@]),
        ActionView::GitStage(p) => Some(seq!["add"@, p]),
        ActionView::GitRemove(p) => Some(seq!["rm"@, p]),
        ActionView::GitCommit(m) => Some(seq!["commit"@, "-m"@, m]),
        _ => None,
    }
}

/// The arguments with which the version-control program carries out
/// `action`, where the action is one of its own.
pub fn git_arguments(action: &Action) -> (r: Option<Vec<String>>)
    ensures
        r is Some == git_arguments_of(action@) is Some,
        r is Some ==> texts(r->Some_0@) == git_arguments_of(action@)->Some_0,
{
    match action {
        Action::GitInit => {
            let v = vec![copy_of("init")];
            assert(texts(v@) =~= seq!["init"@]);
            Some(v)
        },
        Action::GitStageAll => {
            let v = vec![copy_of("add"), copy_of(".")];
            assert(texts(v@) =~= seq!["add"@, "."@]);
            Some(v)
        },
        Action::GitStage(p) => {
            let v = vec![copy_of("add"), copy_of(p.as_str())];
            assert(texts(v@) =~= seq!["add"@, p@]);
            Some(v)
        },
        Action::GitRemove(p) => {
            let v = vec![copy_of("rm"), copy_of(p.as_str())];
            assert(texts(v@) =~= seq!["rm"@, p@]);
            Some(v)
        },
        Action::GitCommit(m) => {
            let v = vec![copy_of("commit"), copy_of("-m"), copy_of(m.as_str())];
            assert(texts(v@) =~= seq!["commit"@, "-m"@, m@]);
            Some(v)
        },
        _ => None,
    }
}

/// Whether `action` is done on a best effort: staging, removing and
/// committing record what the files already show, so a failure of one of
/// them is to be discarded, not handed on.
pub fn is_best_effort(action: &Action) -> (b: bool)
    ensures
        b == (action@ is GitStage || action@ is GitRemove || action@ is GitCommit),
{
    match action {
        Action::GitStage(_) | Action::GitRemove(_) | Action::GitCommit(_) => true,
        _ => false,
    }
}

} // verus!
