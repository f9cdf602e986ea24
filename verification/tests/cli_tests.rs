use notes::catalog::{list_notes, FoundFile, Listed};
use notes::cli::{
    exec_invocation, expand_args, file_names, inherit_status, request_of, Cli, Request, SortBy,
};
use notes::config::{default_config_path, default_repo_path, Config};
use notes::editor::{editor_arguments, editor_setting, parse_editor, EditorCommand};
use notes::text::{split_words, trim};

fn s(text: &str) -> String {
    text.to_string()
}

fn strings(texts: &[&str]) -> Vec<String> {
    texts.iter().map(|t| t.to_string()).collect()
}

fn blank() -> Cli {
    Cli {
        git: None,
        search: None,
        command: None,
        path: None,
        list: false,
        sort_by: None,
        remove: None,
        note: None,
    }
}

fn catalog(names: &[&str]) -> Vec<Listed> {
    let files: Vec<FoundFile> = names
        .iter()
        .map(|n| FoundFile { path: format!("/r/notes/{n}.md"), valid_text: true, is_dir: false, accessed: None })
        .collect();
    list_notes("/r/notes", &files, SortBy::Unsorted).unwrap()
}

#[test]
fn options_decide_the_request() {
    assert_eq!(request_of(blank()), Request::Select(SortBy::AccessTime));
    assert_eq!(
        request_of(Cli { sort_by: Some(SortBy::Alphabetical), ..blank() }),
        Request::Select(SortBy::Alphabetical)
    );
    assert_eq!(request_of(Cli { note: Some(s("a")), ..blank() }), Request::Edit(s("a")));
    assert_eq!(
        request_of(Cli { git: Some(strings(&["log", "-1"])), ..blank() }),
        Request::Git(strings(&["log", "-1"]))
    );
    assert_eq!(
        request_of(Cli { search: Some(strings(&["todo"])), ..blank() }),
        Request::Search(strings(&["todo"]))
    );
    assert_eq!(
        request_of(Cli { command: Some(strings(&["wc", "{}"])), ..blank() }),
        Request::Exec(strings(&["wc", "{}"]), SortBy::Unsorted)
    );
    assert_eq!(
        request_of(Cli {
            command: Some(strings(&["wc"])),
            sort_by: Some(SortBy::AccessTime),
            ..blank()
        }),
        Request::Exec(strings(&["wc"]), SortBy::AccessTime)
    );
    assert_eq!(request_of(Cli { path: Some(None), ..blank() }), Request::NotesDir);
    assert_eq!(
        request_of(Cli { path: Some(Some(s("a"))), ..blank() }),
        Request::NotePath(s("a"))
    );
    assert_eq!(request_of(Cli { list: true, ..blank() }), Request::List(SortBy::Alphabetical));
    assert_eq!(
        request_of(Cli { list: true, sort_by: Some(SortBy::Unsorted), ..blank() }),
        Request::List(SortBy::Unsorted)
    );
    assert_eq!(request_of(Cli { remove: Some(s("a")), ..blank() }), Request::Remove(s("a")));
}

#[test]
fn a_note_to_edit_comes_before_the_actions() {
    let cli = Cli { note: Some(s("a")), list: true, remove: Some(s("b")), ..blank() };
    assert_eq!(request_of(cli), Request::Edit(s("a")));
    let cli = Cli { git: Some(strings(&["st"])), list: true, ..blank() };
    assert_eq!(request_of(cli), Request::Git(strings(&["st"])));
}

#[test]
fn placeholder_expands_to_all_files() {
    let names = strings(&["a.md", "b.md"]);
    assert_eq!(
        expand_args(&strings(&["-l", "{}", "--", "{}", "x{}"]), &names),
        strings(&["-l", "a.md", "b.md", "--", "a.md", "b.md", "x{}"])
    );
    assert_eq!(expand_args(&strings(&["{}"]), &Vec::new()), Vec::<String>::new());
    assert_eq!(expand_args(&Vec::new(), &names), Vec::<String>::new());
    assert_eq!(expand_args(&strings(&["{ }", ""]), &names), strings(&["{ }", ""]));
}

#[test]
fn command_runs_on_the_files_of_the_notes() {
    let notes = catalog(&["one", "two"]);
    assert_eq!(file_names(&notes), strings(&["one.md", "two.md"]));
    assert_eq!(
        exec_invocation(&strings(&["wc", "-l", "{}"]), &notes),
        Some((s("wc"), strings(&["-l", "one.md", "two.md"])))
    );
    assert_eq!(
        exec_invocation(&strings(&["{}", "{}"]), &notes),
        Some((s("{}"), strings(&["one.md", "two.md"])))
    );
    assert_eq!(exec_invocation(&Vec::new(), &notes), None);
}

#[test]
fn editor_falls_back_in_order() {
    assert_eq!(editor_setting(Some(s("nano")), Some(s("code"))), "nano");
    assert_eq!(editor_setting(None, Some(s("code -w"))), "code -w");
    assert_eq!(editor_setting(None, None), "vi");
    assert_eq!(editor_setting(Some(s("")), Some(s("code"))), "");
}

#[test]
fn editor_line_splits_at_white_space() {
    assert_eq!(
        parse_editor("code  --wait\t-n "),
        Some(EditorCommand { program: s("code"), args: strings(&["--wait", "-n"]) })
    );
    assert_eq!(parse_editor("vi"), Some(EditorCommand { program: s("vi"), args: Vec::new() }));
    assert_eq!(parse_editor(""), None);
    assert_eq!(parse_editor(" \t "), None);
}

#[test]
fn editor_gets_the_path_last() {
    let command = parse_editor("emacs -nw").unwrap();
    assert_eq!(
        editor_arguments(&command, "/r/notes/a b.md"),
        strings(&["-nw", "/r/notes/a b.md"])
    );
    let plain = parse_editor("vi").unwrap();
    assert_eq!(editor_arguments(&plain, "x.md"), strings(&["x.md"]));
}

#[test]
fn words_and_trimming_agree_with_std() {
    for text in ["", " ", "a", " a", "a ", " a b ", "\u{3000}x\u{2009}y\n", "a\u{200b}b", "\r\n\t"] {
        let expected: Vec<String> = text.split_whitespace().map(String::from).collect();
        assert_eq!(split_words(text), expected, "{text:?}");
        assert_eq!(trim(text), text.trim(), "{text:?}");
    }
}

#[test]
fn default_paths_lie_below_home() {
    assert_eq!(default_config_path("/home/u"), "/home/u/.config/dev.dagans.notes/config.json");
    assert_eq!(default_repo_path("/home/u"), "/home/u/.local/share/dev.dagans.notes");
    assert_eq!(
        Config::default_for("/home/u"),
        Config { repo_path: s("/home/u/.local/share/dev.dagans.notes") }
    );
}

#[test]
fn exit_status_is_taken_over() {
    assert_eq!(inherit_status(Some(0)), 0);
    assert_eq!(inherit_status(Some(1)), 1);
    assert_eq!(inherit_status(Some(2)), 2);
    assert_eq!(inherit_status(Some(255)), 255);
    assert_eq!(inherit_status(Some(256)), 1);
    assert_eq!(inherit_status(Some(-1)), 1);
    assert_eq!(inherit_status(None), 1);
}
