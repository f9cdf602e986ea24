//! Setting up the repository: what has to be done before the notes
//! directory can be used.

use crate::action::{actions_view, Action, ActionView};
use crate::note::separator;
use crate::text::copy_of;
use vstd::prelude::*;
use vstd::string::*;

verus! {

/// The path of the entry `name` of the directory `dir`.
pub open spec fn child_of(dir: Seq<char>, name: Seq<char>) -> Seq<char> {
    dir + seq![separator()] + name
}

/// The path of the entry `name` of the directory `dir`.
pub fn child(dir: &str, name: &str) -> (r: String)
    ensures
        r@ == child_of(dir@, name@),
{
    proof {
        reveal_strlit("/");
        assert("/"@ =~= seq![separator()]);
    }
    copy_of(dir).concat("/").concat(name)
}

/// The directory of the notes, inside the repository at `root`.
pub fn notes_dir(root: &str) -> (r: String)
    ensures
        r@ == child_of(root@, "notes"@),
{
    child(root, "notes")
}

/// Where a repository at `root` keeps its version-control metadata. The
/// repository is set up if and only if this directory exists.
pub fn metadata_dir(root: &str) -> (r: String)
    ensures
        r@ == child_of(root@, ".git"@),
{
    child(root, ".git")
}

/// The ignore rules of the repository: everything is left out but the
/// notes directory, Markdown files and the rules themselves.
pub open spec fn ignore_rules_of() -> Seq<char> {
    "*\n!notes\n!*.md\n!.gitignore\n"@
}

/// What sets up a repository at `root`: the directory is made and
/// entered, a repository initialised in it, the ignore rules and the
/// manifest written, and all of it committed once.
pub open spec fn init_actions(root: Seq<char>) -> Seq<ActionView> {
    seq![
        ActionView::CreateDir(root),
        ActionView::EnterDir(root),
        ActionView::GitInit,
        ActionView::WriteFile(".gitignore"@, ignore_rules_of()),
        ActionView::WriteManifest("manifest.toml"@),
        ActionView::GitStageAll,
        ActionView::GitCommit("Initial commit"@),
    ]
}

/// What sets up a repository at `root`.
pub fn init_notes_repo(root: &str) -> (plan: Vec<Action>)
    ensures
        actions_view(plan@) == init_actions(root@),
{
    let plan = vec![
        Action::CreateDir(copy_of(root)),
        Action::EnterDir(copy_of(root)),
        Action::GitInit,
        Action::WriteFile(copy_of(".gitignore"), copy_of("*\n!notes\n!*.md\n!.gitignore\n")),
        Action::WriteManifest(copy_of("manifest.toml")),
        Action::GitStageAll,
        Action::GitCommit(copy_of("Initial commit")),
    ];
    assert(actions_view(plan@) =~= init_actions(root@));
    plan
}

/// What makes the notes directory ready: the repository is set up where
/// it is not yet, then the notes directory is made and entered.
pub open spec fn bootstrap_actions(root: Seq<char>, initialized: bool) -> Seq<ActionView> {
    let enter = seq![
        ActionView::CreateDir(child_of(root, "notes"@)),
        ActionView::EnterDir(child_of(root, "notes"@)),
    ];
    if initialized {
        enter
    } else {
        init_actions(root) + enter
    }
}

/// What makes the notes directory of the repository at `root` ready,
/// `initialized` saying whether the repository's metadata directory
/// exists. On a repository that is set up nothing is committed.
pub fn bootstrap(root: &str, initialized: bool) -> (plan: Vec<Action>)
    ensures
        actions_view(plan@) == bootstrap_actions(root@, initialized),
{
    let mut plan: Vec<Action> = if initialized {
        Vec::new()
    } else {
        init_notes_repo(root)
    };
    let ghost before = actions_view(plan@);
    plan.push(Action::CreateDir(notes_dir(root)));
    plan.push(Action::EnterDir(notes_dir(root)));
    assert(actions_view(plan@) =~= before + seq![
        ActionView::CreateDir(child_of(root@, "notes"@)),
        ActionView::EnterDir(child_of(root@, "notes"@)),
    ]);
    assert(initialized ==> before =~= Seq::<ActionView>::empty());
    assert(actions_view(plan@) =~= bootstrap_actions(root@, initialized));
    plan
}

} // verus!
