use notes::action::{git_arguments, is_best_effort, Action};
use notes::bootstrap::{bootstrap, init_notes_repo, metadata_dir, notes_dir};
use notes::manifest::Manifest;
use notes::note::{Note, NoteError};
use notes::persist::{after_edit, commit_message, locate, remove, Change};

fn s(text: &str) -> String {
    text.to_string()
}

#[test]
fn fresh_root_is_set_up_with_one_initial_commit() {
    let plan = bootstrap("/home/u/repo", false);
    assert_eq!(
        plan,
        vec![
            Action::CreateDir(s("/home/u/repo")),
            Action::EnterDir(s("/home/u/repo")),
            Action::GitInit,
            Action::WriteFile(s(".gitignore"), s("*\n!notes\n!*.md\n!.gitignore\n")),
            Action::WriteManifest(s("manifest.toml")),
            Action::GitStageAll,
            Action::GitCommit(s("Initial commit")),
            Action::CreateDir(s("/home/u/repo/notes")),
            Action::EnterDir(s("/home/u/repo/notes")),
        ]
    );
    let commits = plan.iter().filter(|a| matches!(a, Action::GitCommit(_))).count();
    assert_eq!(commits, 1);
    assert_eq!(init_notes_repo("/home/u/repo")[..], plan[..7]);
}

#[test]
fn set_up_repository_is_only_entered() {
    let plan = bootstrap("/home/u/repo", true);
    assert_eq!(
        plan,
        vec![
            Action::CreateDir(s("/home/u/repo/notes")),
            Action::EnterDir(s("/home/u/repo/notes")),
        ]
    );
    assert_eq!(notes_dir("/home/u/repo"), "/home/u/repo/notes");
    assert_eq!(metadata_dir("/home/u/repo"), "/home/u/repo/.git");
}

#[test]
fn new_note_is_committed_as_created() {
    let note = Note::new("/r/notes", "fresh");
    let plan = after_edit(&note, false, true);
    assert_eq!(
        plan,
        vec![
            Action::GitStage(s("/r/notes/fresh.md")),
            Action::GitCommit(s("created] fresh")),
        ]
    );
}

#[test]
fn old_note_is_committed_as_edited() {
    let note = Note::new("/r/notes", "old");
    assert_eq!(
        after_edit(&note, true, true),
        vec![Action::GitStage(s("/r/notes/old.md")), Action::GitCommit(s("edited] old"))]
    );
}

#[test]
fn aborted_edit_commits_nothing() {
    let note = Note::new("/r/notes", "fresh");
    assert_eq!(after_edit(&note, false, false), Vec::new());
    assert_eq!(after_edit(&note, true, false), Vec::new());
}

#[test]
fn removing_a_missing_note_is_not_found() {
    let note = Note::new("/r/notes", "ghost");
    assert_eq!(remove(&note, false), Err(NoteError::NoteNotFound));
}

#[test]
fn removing_a_note_commits_the_removal() {
    let note = Note::new("/r/notes", "old");
    assert_eq!(
        remove(&note, true),
        Ok(vec![Action::GitRemove(s("/r/notes/old.md")), Action::GitCommit(s("removed] old"))])
    );
}

#[test]
fn commit_messages_name_the_change() {
    assert_eq!(commit_message(Change::Created, "a b"), "created] a b");
    assert_eq!(commit_message(Change::Edited, "x"), "edited] x");
    assert_eq!(commit_message(Change::Removed, ""), "removed] ");
}

#[test]
fn actions_become_git_arguments() {
    assert_eq!(git_arguments(&Action::GitInit), Some(vec![s("init")]));
    assert_eq!(git_arguments(&Action::GitStageAll), Some(vec![s("add"), s(".")]));
    assert_eq!(git_arguments(&Action::GitStage(s("p.md"))), Some(vec![s("add"), s("p.md")]));
    assert_eq!(git_arguments(&Action::GitRemove(s("p.md"))), Some(vec![s("rm"), s("p.md")]));
    assert_eq!(
        git_arguments(&Action::GitCommit(s("edited] p"))),
        Some(vec![s("commit"), s("-m"), s("edited] p")])
    );
    assert_eq!(git_arguments(&Action::CreateDir(s("d"))), None);
    assert_eq!(git_arguments(&Action::EnterDir(s("d"))), None);
    assert_eq!(git_arguments(&Action::WriteFile(s("f"), s("c"))), None);
    assert_eq!(git_arguments(&Action::WriteManifest(s("f"))), None);
}

#[test]
fn path_of_a_missing_note_is_not_found() {
    let note = Note::new("/r/notes", "a");
    assert_eq!(locate(&note, true), Ok(s("/r/notes/a.md")));
    assert_eq!(locate(&note, false), Err(NoteError::NoteNotFound));
}

#[test]
fn errors_are_told_in_words() {
    assert_eq!(NoteError::NoteNotFound.message("a"), "No such note: a");
    assert_eq!(NoteError::InvalidNoteFile.message("x.txt"), "Not a note file: x.txt");
    assert_eq!(NoteError::MalformedPattern.message("("), "Malformed regular expression: (");
}

#[test]
fn manifest_is_stamped_with_a_semantic_version() {
    let manifest = Manifest::new("0.1.0").unwrap();
    assert_eq!(manifest.version(), "0.1.0");
    assert_eq!(Manifest::new("1.2.3-alpha.1+build.5").unwrap().version(), "1.2.3-alpha.1+build.5");
    assert_eq!(Manifest::new("1.0"), Err(NoteError::InvalidVersion));
    assert_eq!(Manifest::new("1.0.01"), Err(NoteError::InvalidVersion));
    assert_eq!(Manifest::new("1.0.unknown"), Err(NoteError::InvalidVersion));
    assert_eq!(Manifest::new("1.0.0-"), Err(NoteError::InvalidVersion));
    assert_eq!(Manifest::new("23456789999999999999.0.0"), Err(NoteError::InvalidVersion));
    assert_eq!(Manifest::new(""), Err(NoteError::InvalidVersion));
    assert_eq!(NoteError::InvalidVersion.message("1.0"), "Not a version: 1.0");
}

#[test]
fn staging_and_committing_are_best_effort() {
    assert!(is_best_effort(&Action::GitStage(s("p"))));
    assert!(is_best_effort(&Action::GitRemove(s("p"))));
    assert!(is_best_effort(&Action::GitCommit(s("m"))));
    assert!(!is_best_effort(&Action::GitInit));
    assert!(!is_best_effort(&Action::GitStageAll));
    assert!(!is_best_effort(&Action::CreateDir(s("d"))));
    assert!(!is_best_effort(&Action::EnterDir(s("d"))));
    assert!(!is_best_effort(&Action::WriteFile(s("f"), s("c"))));
    assert!(!is_best_effort(&Action::WriteManifest(s("f"))));
    let note = Note::new("/r/notes", "a");
    assert!(after_edit(&note, true, true).iter().all(is_best_effort));
    assert!(remove(&note, true).unwrap().iter().all(is_best_effort));
}
