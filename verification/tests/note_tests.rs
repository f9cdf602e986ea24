use notes::note::{Note, NoteError};
use std::path::Path;

#[test]
fn new_note_lies_in_notes_dir() {
    let note = Note::new("/repo/notes", "alpha");
    assert_eq!(note.name(), "alpha");
    assert_eq!(note.path(), "/repo/notes/alpha.md");
    assert_eq!(note.file_name(), "alpha.md");
}

#[test]
fn name_survives_the_round_trip() {
    for name in ["alpha", "with space", "dots.in.name", "", "ünï", ".."] {
        let made = Note::new("/repo/notes", name);
        let back = Note::from_path(made.path()).unwrap();
        assert_eq!(back.name(), name);
        assert_eq!(back.path(), made.path());
        assert_eq!(back, made);
    }
}

#[test]
fn from_path_takes_the_base_name() {
    let note = Note::from_path("/repo/notes/sub/deep/todo.md").unwrap();
    assert_eq!(note.name(), "todo");
    assert_eq!(note.path(), "/repo/notes/sub/deep/todo.md");
    let bare = Note::from_path("plain.md").unwrap();
    assert_eq!(bare.name(), "plain");
}

#[test]
fn from_path_refuses_other_files() {
    assert_eq!(Note::from_path("/repo/notes/a.txt"), Err(NoteError::InvalidNoteFile));
    assert_eq!(Note::from_path("/repo/notes/a"), Err(NoteError::InvalidNoteFile));
    assert_eq!(Note::from_path(""), Err(NoteError::InvalidNoteFile));
    assert_eq!(Note::from_path("/repo/x.md/.."), Err(NoteError::InvalidNoteFile));
    assert_eq!(Note::from_path("/repo/x.md/../"), Err(NoteError::InvalidNoteFile));
    assert_eq!(Note::from_path(".."), Err(NoteError::InvalidNoteFile));
    assert_eq!(Note::from_path("."), Err(NoteError::InvalidNoteFile));
    assert_eq!(Note::from_path("/"), Err(NoteError::InvalidNoteFile));
    assert_eq!(Note::from_path("//"), Err(NoteError::InvalidNoteFile));
    assert_eq!(Note::from_path("/."), Err(NoteError::InvalidNoteFile));
    assert_eq!(Note::from_path("/repo/a.md/md"), Err(NoteError::InvalidNoteFile));
    assert_eq!(Note::from_path("a.MD"), Err(NoteError::InvalidNoteFile));
}

#[test]
fn from_path_accepts_a_bare_extension() {
    let note = Note::from_path("/repo/notes/.md").unwrap();
    assert_eq!(note.name(), "");
}

#[test]
fn separators_at_the_end_do_not_count() {
    for path in ["/r/notes/a.md/", "/r/notes/a.md//", "/r/notes/a.md/.", "/r/notes/a.md/.//", "a.md/"] {
        let note = Note::from_path(path).unwrap();
        assert_eq!(note.name(), "a");
        assert_eq!(note.path(), path);
    }
}

#[test]
fn base_name_is_the_file_name_of_the_path() {
    let paths = [
        "", "/", "//", ".", "..", "./", "/.", "./.", "a.md", "a.md/", "a.md//", "a.md/.",
        "a.md/..", "a.md/../", "a.md/./", "a.md/.//", "/x/a.md", "/x/a.md/", "x/.md", "x/..md",
        "x/...md", "./a.md", "../a.md", "a.md/b", "a.md/b.md/", "a.txt/", "x//a.md", "x/./a.md",
        ".md", ".md/", "/.md/.", "a.md.", "a.md/.hidden", "a.md/...", "a.md/. ", "md", "/md",
    ];
    for path in paths {
        let expected = Path::new(path)
            .file_name()
            .and_then(|n| n.to_str())
            .and_then(|n| n.strip_suffix(".md"))
            .map(|n| n.to_string());
        let got = Note::from_path(path).ok().map(|n| n.name().to_string());
        assert_eq!(got, expected, "{path:?}");
    }
}
