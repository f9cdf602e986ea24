//! The external editor: which program it is and how it is called.

use crate::text::{copy_of, split_words, texts, words};
use vstd::prelude::*;
use vstd::string::*;

verus! {

/// The editor's program and the arguments that it is always given.
#[derive(Debug, PartialEq, Eq)]
pub struct EditorCommand {
    pub program: String,
    pub args: Vec<String>,
}

/// The command line of the editor: the first setting if there is one, else
/// the second if there is one, else `vi`.
pub open spec fn editor_setting_of(first: Option<Seq<char>>, second: Option<Seq<char>>) -> Seq<
    char,
> {
    match first {
        Some(e) => e,
        None => match second {
            Some(v) => v,
            None => "vi"@,
        },
    }
}

pub open spec fn setting_view(setting: Option<String>) -> Option<Seq<char>> {
    match setting {
        Some(s) => Some(s@),
        None => None,
    }
}

/// The command line of the editor, from the two settings that may name it.
pub fn editor_setting(first: Option<String>, second: Option<String>) -> (r: String)
    ensures
        r@ == editor_setting_of(setting_view(first), setting_view(second)),
{
    match first {
        Some(e) => e,
        None => match second {
            Some(v) => v,
            None => copy_of("vi"),
        },
    }
}

/// Splits the editor's command line at white space: the first word is the
/// program, the others are its arguments. A blank line names no editor.
pub fn parse_editor(setting: &str) -> (r: Option<EditorCommand>)
    ensures
        r is Some <==> words(setting@).len() > 0,
        r is Some ==> r->Some_0.program@ == words(setting@)[0],
        r is Some ==> texts(r->Some_0.args@) == words(setting@).subrange(
            1,
            words(setting@).len() as int,
        ),
{
    let mut all = split_words(setting);
    if all.len() == 0 {
        return None;
    }
    let ghost before = texts(all@);
    let program = all.remove(0);
    assert(program@ == before[0]);
    assert(texts(all@) =~= before.subrange(1, before.len() as int));
    Some(EditorCommand { program, args: all })
}

/// The arguments with which the editor opens the file at `path`: its own,
/// then the path.
pub fn editor_arguments(command: &EditorCommand, path: &str) -> (r: Vec<String>)
    ensures
        texts(r@) == texts(command.args@).push(path@),
{
    let n: usize = command.args.len();
    let mut out: Vec<String> = Vec::new();
    let mut i: usize = 0;
    assert(texts(out@) =~= texts(command.args@).subrange(0, 0));
    while i < n
        invariant
            n == command.args@.len(),
            i <= n,
            texts(out@) == texts(command.args@).subrange(0, i as int),
        decreases n - i,
    {
        let ghost before = texts(out@);
        out.push(copy_of(command.args[i].as_str()));
        assert(texts(out@) =~= before.push(command.args@[i as int]@));
        i = i + 1;
        assert(texts(out@) =~= texts(command.args@).subrange(0, i as int));
    }
    let ghost before = texts(out@);
    out.push(copy_of(path));
    assert(texts(out@) =~= before.push(path@));
    assert(before =~= texts(command.args@));
    out
}

} // verus!
