//! The interactive selection protocol: what a line typed at the prompt
//! asks for, and what the selector does next.

use crate::catalog::{listing_view, Listed, ListedView};
use crate::note::NoteError;
use crate::pattern::{pattern_compiles, pattern_matches, Pattern};
use crate::text::{
    chars_of, decimal, decimal_of, first_non_space, index_of, is_digit, is_space, last_non_space,
    lemma_decimal_reads_back, lower, lower_is, lowered, lowered_is, parse_index, slice_of, trim,
    trimmed,
};
use vstd::prelude::*;
use vstd::string::*;

verus! {

/// What a line typed at the prompt asks for.
#[derive(Debug, PartialEq, Eq)]
pub enum Command {
    /// Leave without opening a note.
    Quit,
    /// Open the last note of the catalog.
    Last,
    /// Open the note at this index.
    Index(usize),
    /// Open the one note whose name this regular expression matches.
    Search(String),
    /// Nothing that the selector knows.
    Unrecognized,
}

pub enum CommandView {
    Quit,
    Last,
    Index(usize),
    Search(Seq<char>),
    Unrecognized,
}

impl View for Command {
    type V = CommandView;

    open spec fn view(&self) -> CommandView {
        match self {
            Command::Quit => CommandView::Quit,
            Command::Last => CommandView::Last,
            Command::Index(n) => CommandView::Index(*n),
            Command::Search(p) => CommandView::Search(p@),
            Command::Unrecognized => CommandView::Unrecognized,
        }
    }
}

/// What the line asks for. White space at its ends does not count, nor
/// does the case of `q`, `quit`, `l` and `last`. A line that starts with a
/// slash is a search for what follows the slash; a number is an index.
pub open spec fn command_of(line: Seq<char>) -> CommandView {
    let t = trimmed(line);
    if lowered(t) == "q"@ || lowered(t) == "quit"@ {
        CommandView::Quit
    } else if lowered(t) == "l"@ || lowered(t) == "last"@ {
        CommandView::Last
    } else if t.len() > 0 && t[0] == '/' {
        CommandView::Search(t.subrange(1, t.len() as int))
    } else {
        match index_of(t) {
            Some(n) => CommandView::Index(n),
            None => CommandView::Unrecognized,
        }
    }
}

/// Decodes one line of input.
pub fn parse_command(line: &str) -> (c: Command)
    ensures
        c@ == command_of(line@),
{
    let t = trim(line);
    let tc = chars_of(t.as_str());
    if lowered_is(&tc, "q") || lowered_is(&tc, "quit") {
        Command::Quit
    } else if lowered_is(&tc, "l") || lowered_is(&tc, "last") {
        Command::Last
    } else if tc.len() > 0 && tc[0] == '/' {
        Command::Search(slice_of(t.as_str(), 1, tc.len()))
    } else {
        match parse_index(&tc) {
            Some(n) => Command::Index(n),
            None => Command::Unrecognized,
        }
    }
}

/// The answer that a line gives to a yes-or-no question: yes where its
/// first character, white space aside, is `y` or `Y`, no where that is `n`
/// or `N`, and none otherwise.
pub open spec fn confirmation_of(line: Seq<char>) -> Option<bool> {
    let t = trimmed(line);
    if t.len() > 0 && lower(t[0]) == 'y' {
        Some(true)
    } else if t.len() > 0 && lower(t[0]) == 'n' {
        Some(false)
    } else {
        None
    }
}

/// Decodes the answer to a yes-or-no question.
pub fn parse_confirmation(line: &str) -> (r: Option<bool>)
    ensures
        r == confirmation_of(line@),
{
    let t = trim(line);
    let tc = chars_of(t.as_str());
    if tc.len() > 0 && lower_is(tc[0], 'y') {
        Some(true)
    } else if tc.len() > 0 && lower_is(tc[0], 'n') {
        Some(false)
    } else {
        None
    }
}

/// What a search found.
#[derive(Debug, Clone, Copy, PartialEq, Eq, Structural)]
pub enum Found {
    /// No note matches.
    Nothing,
    /// The note at this index matches, and no other.
    One(usize),
    /// Two notes or more match.
    Several,
}

/// Whether no flag is set.
pub open spec fn none_set(flags: Seq<bool>) -> bool {
    forall|i: int| 0 <= i < flags.len() ==> !flags[i]
}

/// Whether the flag at `k` is set, and no other.
pub open spec fn only_set(flags: Seq<bool>, k: int) -> bool {
    0 <= k < flags.len() && forall|i: int| 0 <= i < flags.len() ==> (flags[i] <==> i == k)
}

/// Whether two flags or more are set.
pub open spec fn several_set(flags: Seq<bool>) -> bool {
    exists|i: int, j: int| 0 <= i < j < flags.len() && flags[i] && flags[j]
}

/// Whether `found` is what flags of matching notes amount to. Of any
/// flags this holds of exactly one value.
pub open spec fn found_among(flags: Seq<bool>, found: Found) -> bool {
    match found {
        Found::Nothing => none_set(flags),
        Found::One(k) => only_set(flags, k as int),
        Found::Several => several_set(flags),
    }
}

/// What the flags amount to, `flags[i]` saying whether note `i` matches.
pub fn resolve_matches(flags: &Vec<bool>) -> (found: Found)
    ensures
        found_among(flags@, found),
{
    let n: usize = flags.len();
    let mut found = Found::Nothing;
    let mut i: usize = 0;
    while i < n
        invariant
            n == flags@.len(),
            i <= n,
            found_among(flags@.subrange(0, i as int), found),
            !(found is Several),
        decreases n - i,
    {
        let ghost before = flags@.subrange(0, i as int);
        let ghost upto = flags@.subrange(0, i as int + 1);
        assert(forall|j: int| 0 <= j < i ==> before[j] == upto[j]);
        if flags[i] {
            match found {
                Found::Nothing => {
                    found = Found::One(i);
                },
                Found::One(k) => {
                    assert(upto[k as int] && upto[i as int]);
                    assert(several_set(upto));
                    assert(upto =~= flags@.subrange(0, i as int + 1));
                    proof {
                        lemma_several_extends(flags@, i as int + 1);
                    }
                    return Found::Several;
                },
                Found::Several => {},
            }
        }
        i = i + 1;
    }
    assert(flags@.subrange(0, n as int) =~= flags@);
    found
}

proof fn lemma_several_extends(flags: Seq<bool>, k: int)
    requires
        0 <= k <= flags.len(),
        several_set(flags.subrange(0, k)),
    ensures
        several_set(flags),
{
    let part = flags.subrange(0, k);
    let (i, j) = choose|i: int, j: int| 0 <= i < j < part.len() && part[i] && part[j];
    assert(flags[i] && flags[j]);
}

/// No flags amount to two different findings.
pub proof fn lemma_found_unique(flags: Seq<bool>, a: Found, b: Found)
    requires
        found_among(flags, a),
        found_among(flags, b),
    ensures
        a == b,
{
    if a is Several || b is Several {
        let (i, j) = choose|i: int, j: int| 0 <= i < j < flags.len() && flags[i] && flags[j];
        assert(flags[i] && flags[j]);
    }
    if a is One {
        assert(flags[a->One_0 as int]);
    }
    if b is One {
        assert(flags[b->One_0 as int]);
    }
}

/// For each note, whether the regular expression `pattern` matches its name.
pub open spec fn name_flags(pattern: Seq<char>, notes: Seq<ListedView>) -> Seq<bool> {
    Seq::new(notes.len(), |i: int| pattern_matches(pattern, notes[i].note.name))
}

/// For each note, whether `pattern` matches its name.
pub(crate) fn match_names(pattern: &Pattern, notes: &Vec<Listed>) -> (flags: Vec<bool>)
    ensures
        flags@ == name_flags(pattern.source(), listing_view(notes@)),
{
    let n: usize = notes.len();
    let mut flags: Vec<bool> = Vec::new();
    let mut i: usize = 0;
    while i < n
        invariant
            n == notes@.len(),
            i <= n,
            flags@.len() == i,
            forall|j: int|
                0 <= j < i ==> flags@[j] == pattern_matches(
                    pattern.source(),
                    listing_view(notes@)[j].note.name,
                ),
        decreases n - i,
    {
        let b = pattern.is_match(notes[i].note.name());
        flags.push(b);
        i = i + 1;
    }
    assert(flags@ =~= name_flags(pattern.source(), listing_view(notes@)));
    flags
}

/// Searches the names of `notes` for the regular expression `source`.
///
/// Fails if and only if `source` does not compile. Where it compiles, the
/// result is what the matching names amount to.
pub fn search(source: &str, notes: &Vec<Listed>) -> (r: Result<Found, NoteError>)
    ensures
        r is Ok <==> pattern_compiles(source@),
        r is Err ==> r->Err_0 == NoteError::MalformedPattern,
        r is Ok ==> found_among(name_flags(source@, listing_view(notes@)), r->Ok_0),
{
    match Pattern::compile(source) {
        Ok(pattern) => {
            let flags = match_names(&pattern, notes);
            Ok(resolve_matches(&flags))
        },
        Err(_) => Err(NoteError::MalformedPattern),
    }
}

/// What the selector does after a line of input.
#[derive(Debug, Clone, Copy, PartialEq, Eq, Structural)]
pub enum Step {
    /// End the selection without opening a note.
    Exit,
    /// Open the note at this index of the catalog, then end the selection.
    Open(usize),
    /// Say that no note matches, and prompt again.
    NoMatch,
    /// Say that more than one note matches, and prompt again.
    MultipleMatches,
    /// Prompt again, saying nothing.
    Ignore,
    /// End the selection at once, as failed: the input was interrupted.
    Abort,
}

/// What reaches the selector at its prompt.
#[derive(Debug, PartialEq, Eq)]
pub enum Input {
    /// A line that the user typed.
    Line(String),
    /// The interrupt signal.
    Interrupted,
}

/// Where the selector stands.
#[derive(Debug, Clone, Copy, PartialEq, Eq, Structural)]
pub enum Phase {
    /// The catalog is about to be shown.
    Listing,
    /// The selector waits for a line of input.
    Prompting,
    /// The selection is over.
    Terminated,
}

/// Where the selector stands after `step`: the selection is over once a
/// note is opened or the user leaves, and else the prompt returns.
pub open spec fn phase_after(step: Step) -> Phase {
    match step {
        Step::Exit | Step::Open(_) | Step::Abort => Phase::Terminated,
        Step::NoMatch | Step::MultipleMatches | Step::Ignore => Phase::Prompting,
    }
}

impl Step {
    /// Where the selector stands after this step.
    pub fn next_phase(&self) -> (p: Phase)
        ensures
            p == phase_after(*self),
    {
        match self {
            Step::Exit | Step::Open(_) | Step::Abort => Phase::Terminated,
            Step::NoMatch | Step::MultipleMatches | Step::Ignore => Phase::Prompting,
        }
    }

    /// Whether the tool ends in failure after this step.
    pub fn fails(&self) -> (b: bool)
        ensures
            b == (*self is Abort),
    {
        match self {
            Step::Abort => true,
            _ => false,
        }
    }
}

/// Where the selector starts on a catalog of `count` notes: with nothing
/// to choose from the selection is over before it began.
pub fn first_phase(count: usize) -> (p: Phase)
    ensures
        p == if count == 0 {
            Phase::Terminated
        } else {
            Phase::Listing
        },
{
    if count == 0 {
        Phase::Terminated
    } else {
        Phase::Listing
    }
}

/// The step that follows `command` on a catalog of `count` notes, `found`
/// being what the search found where the command is a search.
pub open spec fn step_of(command: CommandView, count: nat, found: Found) -> Step {
    match command {
        CommandView::Quit => Step::Exit,
        CommandView::Last => if count > 0 {
            Step::Open((count - 1) as usize)
        } else {
            Step::Ignore
        },
        CommandView::Index(n) => if n < count {
            Step::Open(n)
        } else {
            Step::Ignore
        },
        CommandView::Search(_) => match found {
            Found::Nothing => Step::NoMatch,
            Found::One(k) => Step::Open(k),
            Found::Several => Step::MultipleMatches,
        },
        CommandView::Unrecognized => Step::Ignore,
    }
}

/// The step that follows `command` on a catalog of `count` notes, `found`
/// being what the search found where the command is a search.
pub fn step_after(command: &Command, count: usize, found: Found) -> (step: Step)
    ensures
        step == step_of(command@, count as nat, found),
{
    match command {
        Command::Quit => Step::Exit,
        Command::Last => if count > 0 {
            Step::Open(count - 1)
        } else {
            Step::Ignore
        },
        Command::Index(n) => if *n < count {
            Step::Open(*n)
        } else {
            Step::Ignore
        },
        Command::Search(_) => match found {
            Found::Nothing => Step::NoMatch,
            Found::One(k) => Step::Open(k),
            Found::Several => Step::MultipleMatches,
        },
        Command::Unrecognized => Step::Ignore,
    }
}

/// The step that follows `command` on the catalog `notes`.
///
/// A search fails if and only if its expression does not compile, and
/// otherwise goes by what the matching names amount to; every other
/// command succeeds. A step that opens a note names an index of the
/// catalog.
pub fn next_step(command: &Command, notes: &Vec<Listed>) -> (r: Result<Step, NoteError>)
    ensures
        !(command@ is Search) ==> r == Ok::<Step, NoteError>(
            step_of(command@, notes@.len(), Found::Nothing),
        ),
        command@ is Search ==> (r is Ok <==> pattern_compiles(command@->Search_0)),
        command@ is Search ==> (r is Err ==> r->Err_0 == NoteError::MalformedPattern),
        command@ is Search ==> (r is Ok ==> exists|found: Found|
            found_among(name_flags(command@->Search_0, listing_view(notes@)), found) && r->Ok_0
                == #[trigger] step_of(command@, notes@.len(), found)),
        r is Ok ==> (r->Ok_0 is Open ==> r->Ok_0->Open_0 < notes@.len()),
{
    match command {
        Command::Search(source) => match search(source.as_str(), notes) {
            Ok(found) => Ok(step_after(command, notes.len(), found)),
            Err(e) => Err(e),
        },
        _ => Ok(step_after(command, notes.len(), Found::Nothing)),
    }
}

/// What a line of input leads to on the catalog `notes`.
pub fn select(line: &str, notes: &Vec<Listed>) -> (r: Result<Step, NoteError>)
    ensures
        !(command_of(line@) is Search) ==> r == Ok::<Step, NoteError>(
            step_of(command_of(line@), notes@.len(), Found::Nothing),
        ),
        command_of(line@) is Search ==> (r is Ok <==> pattern_compiles(
            command_of(line@)->Search_0,
        )),
        command_of(line@) is Search ==> (r is Err ==> r->Err_0 == NoteError::MalformedPattern),
        command_of(line@) is Search ==> (r is Ok ==> exists|found: Found|
            found_among(name_flags(command_of(line@)->Search_0, listing_view(notes@)), found)
                && r->Ok_0 == #[trigger] step_of(command_of(line@), notes@.len(), found)),
        r is Ok ==> (r->Ok_0 is Open ==> r->Ok_0->Open_0 < notes@.len()),
{
    let command = parse_command(line);
    next_step(&command, notes)
}

/// What the selector does with what reached its prompt: an interrupt
/// ends the selection as failed, a line is followed as `select` says.
pub fn react(input: &Input, notes: &Vec<Listed>) -> (r: Result<Step, NoteError>)
    ensures
        input is Interrupted ==> r == Ok::<Step, NoteError>(Step::Abort),
        input is Line && !(command_of(input->Line_0@) is Search) ==> r == Ok::<Step, NoteError>(
            step_of(command_of(input->Line_0@), notes@.len(), Found::Nothing),
        ),
        input is Line && command_of(input->Line_0@) is Search ==> (r is Ok <==> pattern_compiles(
            command_of(input->Line_0@)->Search_0,
        )),
        input is Line && command_of(input->Line_0@) is Search ==> (r is Err ==> r->Err_0
            == NoteError::MalformedPattern),
        input is Line && command_of(input->Line_0@) is Search ==> (r is Ok ==> exists|found: Found|
            found_among(
                name_flags(command_of(input->Line_0@)->Search_0, listing_view(notes@)),
                found,
            ) && r->Ok_0 == #[trigger] step_of(command_of(input->Line_0@), notes@.len(), found)),
        r is Ok ==> (r->Ok_0 is Open ==> r->Ok_0->Open_0 < notes@.len()),
{
    match input {
        Input::Interrupted => Ok(Step::Abort),
        Input::Line(line) => select(line.as_str(), notes),
    }
}

/// A step that follows a line of input never ends the tool in failure.
pub proof fn lemma_lines_do_not_abort(command: CommandView, count: nat, found: Found)
    ensures
        !(step_of(command, count, found) is Abort),
{
}

/// The line that shows the note `name` at `index` of the catalog.
pub open spec fn listing_line_of(index: nat, name: Seq<char>) -> Seq<char> {
    decimal_of(index) + ". "@ + name
}

/// The lines that show the catalog: each note's index and name.
pub fn listing_lines(notes: &Vec<Listed>) -> (lines: Vec<String>)
    ensures
        lines@.len() == notes@.len(),
        forall|i: int|
            0 <= i < notes@.len() ==> (#[trigger] lines@[i])@ == listing_line_of(
                i as nat,
                notes@[i]@.note.name,
            ),
{
    let n: usize = notes.len();
    let mut lines: Vec<String> = Vec::new();
    let mut i: usize = 0;
    while i < n
        invariant
            n == notes@.len(),
            i <= n,
            lines@.len() == i,
            forall|j: int|
                0 <= j < i ==> (#[trigger] lines@[j])@ == listing_line_of(
                    j as nat,
                    notes@[j]@.note.name,
                ),
        decreases n - i,
    {
        let line = decimal(i).concat(". ").concat(notes[i].note.name());
        lines.push(line);
        i = i + 1;
    }
    lines
}

/// The index that the catalog shows for a note, typed at the prompt, opens
/// that note.
pub proof fn lemma_shown_index_opens(index: usize, count: nat, found: Found)
    requires
        index < count,
    ensures
        command_of(decimal_of(index as nat)) == CommandView::Index(index),
        step_of(command_of(decimal_of(index as nat)), count, found) == Step::Open(index),
{
    let d = decimal_of(index as nat);
    lemma_decimal_reads_back(index as nat);
    assert(is_digit(d[0]) && is_digit(d[d.len() - 1]));
    assert(!is_space(d[0]) && !is_space(d[d.len() - 1]));
    assert(first_non_space(d, 0) == 0);
    assert(last_non_space(d, 0, d.len() as int) == d.len());
    assert(trimmed(d) =~= d);
    reveal_strlit("q");
    reveal_strlit("quit");
    reveal_strlit("l");
    reveal_strlit("last");
    assert(lowered(d)[0] == lower(d[0]));
    assert(lower(d[0]) == d[0]);
    assert(lowered(d) != "q"@) by {
        if lowered(d) == "q"@ {
            assert("q"@[0] == 'q');
        }
    }
    assert(lowered(d) != "quit"@) by {
        if lowered(d) == "quit"@ {
            assert("quit"@[0] == 'q');
        }
    }
    assert(lowered(d) != "l"@) by {
        if lowered(d) == "l"@ {
            assert("l"@[0] == 'l');
        }
    }
    assert(lowered(d) != "last"@) by {
        if lowered(d) == "last"@ {
            assert("last"@[0] == 'l');
        }
    }
    assert(index_of(d) == Some(index));
}

} // verus!
