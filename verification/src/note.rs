//! A note: a logical name and the Markdown file that backs it.

use crate::text::{chars_of, slice_of};
use vstd::prelude::*;
use vstd::string::*;

verus! {

/// What can go wrong.
#[derive(Debug, Clone, Copy, PartialEq, Eq, Structural)]
pub enum NoteError {
    /// The path does not name a Markdown file.
    InvalidNoteFile,
    /// No file backs the note.
    NoteNotFound,
    /// The search pattern is no regular expression.
    MalformedPattern,
    /// The text is no semantic version.
    InvalidVersion,
}

/// What the user is told of `error`, met on the note, pattern or version
/// `subject`.
pub open spec fn message_of(error: NoteError, subject: Seq<char>) -> Seq<char> {
    match error {
        NoteError::InvalidNoteFile => "Not a note file: "@ + subject,
        NoteError::NoteNotFound => "No such note: "@ + subject,
        NoteError::MalformedPattern => "Malformed regular expression: "@ + subject,
        NoteError::InvalidVersion => "Not a version: "@ + subject,
    }
}

impl NoteError {
    /// What the user is told of the error, met on the note, pattern or
    /// version `subject`.
    pub fn message(&self, subject: &str) -> (r: String)
        ensures
            r@ == message_of(*self, subject@),
    {
        let head = match self {
            NoteError::InvalidNoteFile => "Not a note file: ",
            NoteError::NoteNotFound => "No such note: ",
            NoteError::MalformedPattern => "Malformed regular expression: ",
            NoteError::InvalidVersion => "Not a version: ",
        };
        String::from_str(head).concat(subject)
    }
}

/// The separator between the components of a path.
pub open spec fn separator() -> char {
    '/'
}

/// The extension of a note file, with its dot.
pub open spec fn extension() -> Seq<char> {
    seq!['.', 'm', 'd']
}

/// Where the last component of `s[..end]` starts: just behind the last
/// separator, or at 0 where there is none.
pub open spec fn base_start(s: Seq<char>, end: int) -> int
    decreases end,
{
    if 0 < end <= s.len() && s[end - 1] != separator() {
        base_start(s, end - 1)
    } else {
        end
    }
}

/// Where the last component of `s[..end]` ends: before the separators at
/// the end, and before each component behind a separator that is a single
/// dot, which names the directory itself.
pub open spec fn path_end(s: Seq<char>, end: int) -> int
    decreases end,
{
    if 0 < end <= s.len() && (s[end - 1] == separator() || (1 < end && s[end - 1] == '.' && s[end
        - 2] == separator())) {
        path_end(s, end - 1)
    } else {
        end
    }
}

/// The last component of a path: the text between its last separator and
/// its end, separators and single dots at the end left aside. A path that
/// ends in the parent directory `..` has that as its last component, which
/// names no file.
pub open spec fn base_name(path: Seq<char>) -> Seq<char> {
    let end = path_end(path, path.len() as int);
    path.subrange(base_start(path, end), end)
}

/// Whether `s` ends in the Markdown extension.
pub open spec fn has_extension(s: Seq<char>) -> bool {
    s.len() >= 3 && s.subrange(s.len() - 3, s.len() as int) == extension()
}

/// `s` without its last three characters.
pub open spec fn stem(s: Seq<char>) -> Seq<char>
    recommends
        s.len() >= 3,
{
    s.subrange(0, s.len() - 3)
}

/// The file of the note called `name` in the directory `dir`.
pub open spec fn note_path(dir: Seq<char>, name: Seq<char>) -> Seq<char> {
    dir + seq![separator()] + name + extension()
}

/// A name that can be found again from its path: it holds no separator.
pub open spec fn valid_name(name: Seq<char>) -> bool {
    forall|i: int| 0 <= i < name.len() ==> name[i] != separator()
}

/// The mathematical value of a note.
pub struct NoteView {
    pub name: Seq<char>,
    pub path: Seq<char>,
}

impl NoteView {
    /// Whether name and path belong together: the path's base name is the
    /// name with the Markdown extension.
    pub open spec fn consistent(self) -> bool {
        base_name(self.path) == self.name + extension()
    }
}

#[derive(Debug, PartialEq, Eq)]
pub struct Note {
    name: String,
    path: String,
}

impl View for Note {
    type V = NoteView;

    closed spec fn view(&self) -> NoteView {
        NoteView { name: self.name@, path: self.path@ }
    }
}

/// Whether a file name ends in the Markdown extension.
pub fn ends_with_extension(cs: &Vec<char>) -> (b: bool)
    ensures
        b == has_extension(cs@),
{
    let n: usize = cs.len();
    if n < 3 {
        return false;
    }
    let b = cs[n - 3] == '.' && cs[n - 2] == 'm' && cs[n - 1] == 'd';
    proof {
        let tail = cs@.subrange(n - 3, n as int);
        assert(tail[0] == cs@[n - 3] && tail[1] == cs@[n - 2] && tail[2] == cs@[n - 1]);
        if b {
            assert(tail =~= extension());
        }
    }
    b
}

impl Note {
    /// The note called `name` in the directory `notes_dir`. No file is touched.
    pub fn new(notes_dir: &str, name: &str) -> (note: Note)
        ensures
            note@ == (NoteView { name: name@, path: note_path(notes_dir@, name@) }),
            valid_name(name@) ==> note@.consistent(),
    {
        proof {
            if valid_name(name@) {
                lemma_name_path_round_trip(notes_dir@, name@);
            }
            reveal_strlit("/");
            reveal_strlit(".md");
            assert("/"@ =~= seq![separator()]);
            assert(".md"@ =~= extension());
        }
        let path = String::from_str(notes_dir).concat("/").concat(name).concat(".md");
        Note { name: String::from_str(name), path }
    }

    /// The note that the file at `path` backs: its name is the file's base
    /// name without the Markdown extension. Separators at the end of the
    /// path do not count.
    pub fn from_path(path: &str) -> (r: Result<Note, NoteError>)
        ensures
            r is Ok <==> has_extension(base_name(path@)),
            r is Ok ==> r->Ok_0@ == (NoteView {
                name: stem(base_name(path@)),
                path: path@,
            }),
            r is Ok ==> r->Ok_0@.consistent(),
            r is Err ==> r->Err_0 == NoteError::InvalidNoteFile,
    {
        let cs = chars_of(path);
        let n: usize = cs.len();
        let mut e: usize = n;
        while e > 0 && (cs[e - 1] == '/' || (e > 1 && cs[e - 1] == '.' && cs[e - 2] == '/'))
            invariant
                n == cs@.len(),
                e <= n,
                path_end(cs@, n as int) == path_end(cs@, e as int),
            decreases e,
        {
            e = e - 1;
        }
        let mut k: usize = e;
        while k > 0 && cs[k - 1] != '/'
            invariant
                n == cs@.len(),
                k <= e <= n,
                base_start(cs@, e as int) == base_start(cs@, k as int),
            decreases k,
        {
            k = k - 1;
        }
        let base = slice_of(path, k, e);
        let bs = chars_of(base.as_str());
        if !ends_with_extension(&bs) {
            return Err(NoteError::InvalidNoteFile);
        }
        let name = slice_of(path, k, e - 3);
        assert(name@ =~= stem(base_name(path@)));
        assert(base_name(path@) =~= name@ + extension());
        Ok(Note { name, path: String::from_str(path) })
    }

    /// The note's name.
    pub fn name(&self) -> (r: &str)
        ensures
            r@ == self@.name,
    {
        self.name.as_str()
    }

    /// The path of the note's file.
    pub fn path(&self) -> (r: &str)
        ensures
            r@ == self@.path,
    {
        self.path.as_str()
    }

    /// The name of the note's file: its name with the Markdown extension.
    pub fn file_name(&self) -> (r: String)
        ensures
            r@ == self@.name + extension(),
    {
        proof {
            reveal_strlit(".md");
            assert(".md"@ =~= extension());
        }
        String::from_str(self.name.as_str()).concat(".md")
    }
}

proof fn lemma_base_start(p: Seq<char>, lo: int, end: int)
    requires
        0 <= lo <= end <= p.len(),
        lo > 0 ==> p[lo - 1] == separator(),
        forall|i: int| lo <= i < end ==> p[i] != separator(),
    ensures
        base_start(p, end) == lo,
    decreases end - lo,
{
    if end > lo {
        lemma_base_start(p, lo, end - 1);
    }
}

/// A path that ends in the extension ends with its last component.
pub proof fn lemma_path_ends_with_extension(p: Seq<char>)
    requires
        has_extension(p),
    ensures
        path_end(p, p.len() as int) == p.len(),
{
    let n = p.len() as int;
    assert(p[n - 1] == p.subrange(n - 3, n)[2]);
}

/// A note made from a valid name lies at `dir/name.md`, and that path gives
/// the name back: its base name carries the extension, and what stands
/// before it is `name`.
pub proof fn lemma_name_path_round_trip(dir: Seq<char>, name: Seq<char>)
    requires
        valid_name(name),
    ensures
        has_extension(base_name(note_path(dir, name))),
        stem(base_name(note_path(dir, name))) == name,
        base_name(note_path(dir, name)) == name + extension(),
{
    let p = note_path(dir, name);
    let lo = dir.len() as int + 1;
    assert(p[lo - 1] == separator());
    assert forall|i: int| lo <= i < p.len() implies p[i] != separator() by {
        if i < lo + name.len() {
            assert(p[i] == name[i - lo]);
        } else {
            assert(p[i] == extension()[i - lo - name.len()]);
        }
    }
    lemma_base_start(p, lo, p.len() as int);
    assert(p.subrange(p.len() - 3, p.len() as int) =~= extension());
    lemma_path_ends_with_extension(p);
    let base = base_name(p);
    assert(base =~= name + extension());
    assert(base.subrange(base.len() - 3, base.len() as int) =~= extension());
    assert(stem(base) =~= name);
}

} // verus!
