use notes::catalog::{
    is_hidden_name, is_note, is_readable, is_shown_path, list_notes, name_le, FoundFile, Listed,
};
use notes::note::NoteError;
use notes::cli::SortBy;

fn found(path: &str, accessed: Option<i64>) -> FoundFile {
    FoundFile { path: path.to_string(), valid_text: true, is_dir: false, accessed }
}

fn names(listing: &[Listed]) -> Vec<String> {
    listing.iter().map(|l| l.note.name().to_string()).collect()
}

fn sample() -> Vec<FoundFile> {
    vec![
        found("/r/notes", Some(1)),
        found("/r/notes/zeta.md", Some(30)),
        found("/r/notes/alpha.md", Some(20)),
        found("/r/notes/sub", Some(2)),
        found("/r/notes/sub/mid.md", None),
        found("/r/notes/readme.txt", Some(5)),
        found("/r/notes/.hidden.md", Some(6)),
        found("/r/notes/.git/x.md", Some(7)),
        found("/r/notes/a/.b/c/deep.md", Some(8)),
        found("/elsewhere/beta.md", Some(9)),
        found("/r/notes/Beta.md", Some(10)),
    ]
}

#[test]
fn unsorted_listing_keeps_the_order_found() {
    let listing = list_notes("/r/notes", &sample(), SortBy::Unsorted).unwrap();
    assert_eq!(names(&listing), vec!["zeta", "alpha", "mid", "Beta"]);
    assert_eq!(listing[2].note.path(), "/r/notes/sub/mid.md");
    assert_eq!(listing[2].accessed, None);
}

#[test]
fn hidden_entries_are_left_out_at_any_depth() {
    let files = vec![
        found("/r/notes/.a.md", Some(1)),
        found("/r/notes/.d/a.md", Some(1)),
        found("/r/notes/x/.d/a.md", Some(1)),
        found("/r/notes/x/y/z/.d/w/a.md", Some(1)),
        found("/r/notes/x/y/.a.md", Some(1)),
        found("/r/notes/x/y/a.b.md", Some(1)),
    ];
    for policy in [SortBy::Unsorted, SortBy::Alphabetical, SortBy::AccessTime] {
        let listing = list_notes("/r/notes", &files, policy).unwrap();
        assert_eq!(names(&listing), vec!["a.b"]);
    }
}

#[test]
fn hidden_directories_above_the_notes_do_not_count() {
    let files = vec![found("/home/u/.local/share/notes/a.md", Some(1))];
    let listing = list_notes("/home/u/.local/share/notes", &files, SortBy::Unsorted).unwrap();
    assert_eq!(names(&listing), vec!["a"]);
}

#[test]
fn alphabetical_listing_is_in_dictionary_order() {
    let listing = list_notes("/r/notes", &sample(), SortBy::Alphabetical).unwrap();
    assert_eq!(names(&listing), vec!["Beta", "alpha", "mid", "zeta"]);
    let mut reversed = sample();
    reversed.reverse();
    let again = list_notes("/r/notes", &reversed, SortBy::Alphabetical).unwrap();
    assert_eq!(names(&again), vec!["Beta", "alpha", "mid", "zeta"]);
}

#[test]
fn access_time_listing_is_oldest_first() {
    let listing = list_notes("/r/notes", &sample(), SortBy::AccessTime).unwrap();
    assert_eq!(names(&listing), vec!["mid", "Beta", "alpha", "zeta"]);
    let times: Vec<Option<i64>> = listing.iter().map(|l| l.accessed).collect();
    assert_eq!(times, vec![None, Some(10), Some(20), Some(30)]);
}

#[test]
fn unknown_access_time_sorts_before_the_smallest_known() {
    let files = vec![
        found("/r/notes/a.md", Some(i64::MIN)),
        found("/r/notes/b.md", Some(-5)),
        found("/r/notes/c.md", None),
        found("/r/notes/d.md", Some(0)),
    ];
    let listing = list_notes("/r/notes", &files, SortBy::AccessTime).unwrap();
    assert_eq!(names(&listing), vec!["c", "a", "b", "d"]);
}

#[test]
fn empty_scan_gives_an_empty_catalog() {
    let listing = list_notes("/r/notes", &Vec::new(), SortBy::Alphabetical).unwrap();
    assert!(listing.is_empty());
}

#[test]
fn duplicates_are_kept() {
    let files = vec![found("/r/notes/a.md", Some(2)), found("/r/notes/a.md", Some(1))];
    let listing = list_notes("/r/notes", &files, SortBy::AccessTime).unwrap();
    assert_eq!(listing.len(), 2);
    assert_eq!(listing[0].accessed, Some(1));
}

#[test]
fn note_files_are_told_apart() {
    assert!(is_note("/r/notes", "/r/notes/a.md"));
    assert!(is_note("/r/notes", "/r/notes/sub/a.md"));
    assert!(!is_note("/r/notes", "/r/notes/a.txt"));
    assert!(!is_note("/r/notes", "/r/notes/.a.md"));
    assert!(!is_note("/r/notes", "/r/notesx/a.md"));
    assert!(!is_note("/r/notes", "/r/notes"));
    assert!(!is_note("/r/notes", "/r/note"));
    assert!(is_hidden_name(".git"));
    assert!(!is_hidden_name("git."));
    assert!(!is_hidden_name(""));
}

#[test]
fn names_compare_as_strings_do() {
    let samples = ["", "a", "ab", "b", "B", "é", "z", "日本", "a b", "alpha", "alphabet"];
    for a in samples {
        for b in samples {
            assert_eq!(name_le(a, b), a <= b, "{a:?} {b:?}");
        }
    }
}

#[test]
fn notes_of_equal_rank_keep_the_order_found() {
    let files = vec![
        found("/r/notes/b/x.md", Some(5)),
        found("/r/notes/a/x.md", Some(5)),
        found("/r/notes/c/x.md", Some(5)),
        found("/r/notes/w.md", Some(5)),
    ];
    let by_time = list_notes("/r/notes", &files, SortBy::AccessTime).unwrap();
    let paths: Vec<&str> = by_time.iter().map(|l| l.note.path()).collect();
    assert_eq!(
        paths,
        vec!["/r/notes/b/x.md", "/r/notes/a/x.md", "/r/notes/c/x.md", "/r/notes/w.md"]
    );
    let by_name = list_notes("/r/notes", &files, SortBy::Alphabetical).unwrap();
    let paths: Vec<&str> = by_name.iter().map(|l| l.note.path()).collect();
    assert_eq!(
        paths,
        vec!["/r/notes/w.md", "/r/notes/b/x.md", "/r/notes/a/x.md", "/r/notes/c/x.md"]
    );
}

#[test]
fn directories_are_no_notes() {
    let files = vec![
        FoundFile { path: "/r/notes/folder.md".to_string(), valid_text: true, is_dir: true, accessed: Some(1) },
        found("/r/notes/folder.md/inner.md", Some(2)),
        FoundFile { path: "/r/notes".to_string(), valid_text: true, is_dir: true, accessed: Some(3) },
    ];
    let listing = list_notes("/r/notes", &files, SortBy::Alphabetical).unwrap();
    assert_eq!(names(&listing), vec!["inner"]);
}

fn unreadable(path: &str) -> FoundFile {
    FoundFile { path: path.to_string(), valid_text: false, is_dir: false, accessed: None }
}

#[test]
fn a_name_that_is_no_text_stops_the_scan() {
    let files = vec![found("/r/notes/a.md", Some(1)), unreadable("/r/notes/b\u{fffd}.md")];
    for policy in [SortBy::Unsorted, SortBy::Alphabetical, SortBy::AccessTime] {
        assert_eq!(list_notes("/r/notes", &files, policy), Err(NoteError::InvalidNoteFile));
    }
    assert!(!is_readable("/r/notes", &files));
    let nested = vec![unreadable("/r/notes/sub/\u{fffd}")];
    assert_eq!(
        list_notes("/r/notes", &nested, SortBy::Alphabetical),
        Err(NoteError::InvalidNoteFile)
    );
}

#[test]
fn a_hidden_name_that_is_no_text_is_passed_over() {
    let files = vec![
        found("/r/notes/a.md", Some(1)),
        unreadable("/r/notes/.b\u{fffd}.md"),
        unreadable("/r/notes/.git/\u{fffd}.md"),
        unreadable("/elsewhere/\u{fffd}.md"),
    ];
    assert!(is_readable("/r/notes", &files));
    let listing = list_notes("/r/notes", &files, SortBy::Alphabetical).unwrap();
    assert_eq!(names(&listing), vec!["a"]);
}

#[test]
fn entries_below_the_directory_are_shown_unless_hidden() {
    assert!(is_shown_path("/r/notes", "/r/notes/a.txt"));
    assert!(is_shown_path("/r/notes", "/r/notes/sub/a"));
    assert!(!is_shown_path("/r/notes", "/r/notes/.a"));
    assert!(!is_shown_path("/r/notes", "/r/notes/sub/.a/b"));
    assert!(!is_shown_path("/r/notes", "/r/notes"));
    assert!(!is_shown_path("/r/notes", "/r/other/a"));
}
