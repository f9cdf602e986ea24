//! The options that a command line hands to the note repository.

use crate::catalog::{listing_view, Listed, ListedView};
use crate::note::extension;
use crate::text::{copy_of, same_text, texts};
use vstd::prelude::*;
use vstd::string::*;

verus! {

/// The sorting method used when retrieving a list of notes.
#[derive(Debug, Clone, Copy, PartialEq, Eq, Structural)]
pub enum SortBy {
    /// Sort by access time, oldest access first.
    AccessTime,
    /// Sort alphabetically, from 'A' to 'Z'.
    Alphabetical,
    /// Do not sort.
    Unsorted,
}

/// The options of one invocation. At most one of the actions is given:
/// `git`, `search`, `command`, `path`, `list`, `remove` and `note`.
#[derive(Debug, PartialEq, Eq)]
pub struct Cli {
    /// Execute git command
    pub git: Option<Vec<String>>,
    /// Search notes
    pub search: Option<Vec<String>>,
    /// Execute a command in the notes directory. `{}` will be expanded to
    /// all note files, each as a separate argument
    pub command: Option<Vec<String>>,
    /// Get path of note, or path of notes directory if blank
    pub path: Option<Option<String>>,
    /// List notes
    pub list: bool,
    /// Set sorting method
    pub sort_by: Option<SortBy>,
    /// Remove note
    pub remove: Option<String>,
    /// A note to view or edit
    pub note: Option<String>,
}

/// What an invocation asks for.
#[derive(Debug, PartialEq, Eq)]
pub enum Request {
    /// Open the note of this name in the editor.
    Edit(String),
    /// Run the version-control program with these arguments.
    Git(Vec<String>),
    /// Run the search program with these arguments.
    Search(Vec<String>),
    /// Run this command, on the notes in this order.
    Exec(Vec<String>, SortBy),
    /// Print the path of the note of this name.
    NotePath(String),
    /// Print the path of the notes directory.
    NotesDir,
    /// Print the names of the notes in this order.
    List(SortBy),
    /// Remove the note of this name.
    Remove(String),
    /// Let the user pick a note from the catalog in this order.
    Select(SortBy),
}

/// The order that `chosen` asks for, or `otherwise` where none is asked for.
pub open spec fn order_or(chosen: Option<SortBy>, otherwise: SortBy) -> SortBy {
    match chosen {
        Some(s) => s,
        None => otherwise,
    }
}

/// What the options ask for. A note to edit comes first, then the
/// actions in a fixed order; with none of them the user picks a note.
/// Unless an order is asked for, a command gets the notes unsorted, a
/// list is alphabetical, and the selection is by access time.
pub open spec fn request_for(cli: Cli) -> Request {
    if cli.note is Some {
        Request::Edit(cli.note->Some_0)
    } else if cli.git is Some {
        Request::Git(cli.git->Some_0)
    } else if cli.search is Some {
        Request::Search(cli.search->Some_0)
    } else if cli.command is Some {
        Request::Exec(cli.command->Some_0, order_or(cli.sort_by, SortBy::Unsorted))
    } else if cli.path is Some {
        if cli.path->Some_0 is Some {
            Request::NotePath(cli.path->Some_0->Some_0)
        } else {
            Request::NotesDir
        }
    } else if cli.list {
        Request::List(order_or(cli.sort_by, SortBy::Alphabetical))
    } else if cli.remove is Some {
        Request::Remove(cli.remove->Some_0)
    } else {
        Request::Select(order_or(cli.sort_by, SortBy::AccessTime))
    }
}

fn order_from(chosen: Option<SortBy>, otherwise: SortBy) -> (r: SortBy)
    ensures
        r == order_or(chosen, otherwise),
{
    match chosen {
        Some(s) => s,
        None => otherwise,
    }
}

/// Decides what the options ask for.
pub fn request_of(cli: Cli) -> (r: Request)
    ensures
        r == request_for(cli),
{
    let Cli { git, search, command, path, list, sort_by, remove, note } = cli;
    if let Some(name) = note {
        Request::Edit(name)
    } else if let Some(args) = git {
        Request::Git(args)
    } else if let Some(args) = search {
        Request::Search(args)
    } else if let Some(args) = command {
        Request::Exec(args, order_from(sort_by, SortBy::Unsorted))
    } else if let Some(target) = path {
        match target {
            Some(name) => Request::NotePath(name),
            None => Request::NotesDir,
        }
    } else if list {
        Request::List(order_from(sort_by, SortBy::Alphabetical))
    } else if let Some(name) = remove {
        Request::Remove(name)
    } else {
        Request::Select(order_from(sort_by, SortBy::AccessTime))
    }
}

/// The names of the notes' files, in the order of the catalog.
pub open spec fn file_names_of(notes: Seq<ListedView>) -> Seq<Seq<char>> {
    Seq::new(notes.len(), |i: int| notes[i].note.name + extension())
}

/// The names of the notes' files, in the order of the catalog.
pub fn file_names(notes: &Vec<Listed>) -> (r: Vec<String>)
    ensures
        texts(r@) == file_names_of(listing_view(notes@)),
{
    let n: usize = notes.len();
    let mut out: Vec<String> = Vec::new();
    let mut i: usize = 0;
    while i < n
        invariant
            n == notes@.len(),
            i <= n,
            out@.len() == i,
            forall|j: int| 0 <= j < i ==> out@[j]@ == notes@[j]@.note.name + extension(),
        decreases n - i,
    {
        out.push(notes[i].note.file_name());
        i = i + 1;
    }
    assert(texts(out@) =~= file_names_of(listing_view(notes@)));
    out
}

/// The token that stands for the notes' files in a command.
pub open spec fn placeholder() -> Seq<char> {
    "{}"@
}

/// `args` with each placeholder replaced by all of `names`, and every
/// other argument kept.
pub open spec fn expanded(args: Seq<Seq<char>>, names: Seq<Seq<char>>) -> Seq<Seq<char>>
    decreases args.len(),
{
    if args.len() == 0 {
        Seq::empty()
    } else {
        let before = expanded(args.drop_last(), names);
        if args.last() == placeholder() {
            before + names
        } else {
            before.push(args.last())
        }
    }
}

/// The arguments of a command with each placeholder replaced by the names
/// of the notes' files.
pub fn expand_args(args: &Vec<String>, names: &Vec<String>) -> (r: Vec<String>)
    ensures
        texts(r@) == expanded(texts(args@), texts(names@)),
{
    let n: usize = args.len();
    let mut out: Vec<String> = Vec::new();
    let mut i: usize = 0;
    assert(texts(args@).subrange(0, 0) =~= Seq::empty());
    assert(texts(out@) =~= Seq::empty());
    while i < n
        invariant
            n == args@.len(),
            i <= n,
            texts(out@) == expanded(texts(args@).subrange(0, i as int), texts(names@)),
        decreases n - i,
    {
        let ghost before = texts(args@).subrange(0, i as int);
        let ghost upto = texts(args@).subrange(0, i as int + 1);
        assert(upto.drop_last() =~= before);
        assert(upto.last() == args@[i as int]@);
        if same_text(args[i].as_str(), "{}") {
            let m: usize = names.len();
            let mut k: usize = 0;
            let ghost start = texts(out@);
            assert(start + texts(names@).subrange(0, 0) =~= start);
            while k < m
                invariant
                    m == names@.len(),
                    k <= m,
                    texts(out@) == start + texts(names@).subrange(0, k as int),
                decreases m - k,
            {
                let ghost was = texts(out@);
                out.push(copy_of(names[k].as_str()));
                assert(texts(out@) =~= was.push(names@[k as int]@));
                k = k + 1;
                assert(texts(out@) =~= start + texts(names@).subrange(0, k as int));
            }
            assert(texts(names@).subrange(0, m as int) =~= texts(names@));
        } else {
            let ghost was = texts(out@);
            out.push(copy_of(args[i].as_str()));
            assert(texts(out@) =~= was.push(args@[i as int]@));
        }
        i = i + 1;
    }
    assert(texts(args@).subrange(0, n as int) =~= texts(args@));
    out
}

/// The program and the arguments of a command run on the notes: the first
/// of `args` is the program, and in the others each placeholder stands for
/// the files of all `notes`. Without a first argument there is no command.
pub fn exec_invocation(args: &Vec<String>, notes: &Vec<Listed>) -> (r: Option<(String, Vec<String>)>)
    ensures
        r is Some <==> args@.len() > 0,
        r is Some ==> r->Some_0.0@ == args@[0]@,
        r is Some ==> texts(r->Some_0.1@) == expanded(
            texts(args@).subrange(1, args@.len() as int),
            file_names_of(listing_view(notes@)),
        ),
{
    if args.len() == 0 {
        return None;
    }
    let names = file_names(notes);
    let n: usize = args.len();
    let mut rest: Vec<String> = Vec::new();
    let mut i: usize = 1;
    assert(texts(rest@) =~= texts(args@).subrange(1, 1));
    while i < n
        invariant
            n == args@.len(),
            1 <= i <= n,
            texts(rest@) == texts(args@).subrange(1, i as int),
        decreases n - i,
    {
        let ghost was = texts(rest@);
        rest.push(copy_of(args[i].as_str()));
        assert(texts(rest@) =~= was.push(args@[i as int]@));
        i = i + 1;
        assert(texts(rest@) =~= texts(args@).subrange(1, i as int));
    }
    let expanded_args = expand_args(&rest, &names);
    Some((copy_of(args[0].as_str()), expanded_args))
}

/// The exit status that the tool takes over from a program that it ran
/// for the user: the program's own where it ended with one from 0 to 255,
/// and 1 where it ended otherwise.
pub open spec fn inherited_status(code: Option<i32>) -> u8 {
    match code {
        Some(c) => if 0 <= c <= 255 {
            c as u8
        } else {
            1
        },
        None => 1,
    }
}

/// The exit status that the tool takes over from a program that it ran
/// for the user, `code` being the status with which the program ended, if
/// it ended with one.
pub fn inherit_status(code: Option<i32>) -> (r: u8)
    ensures
        r == inherited_status(code),
{
    match code {
        Some(c) => if 0 <= c && c <= 255 {
            c as u8
        } else {
            1
        },
        None => 1,
    }
}

} // verus!
