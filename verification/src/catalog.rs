//! The catalog: which of the files found under the notes directory are
//! notes, and in what order they are listed.

use crate::cli::SortBy;
use crate::note::{
    base_name, base_start, ends_with_extension, extension, has_extension,
    lemma_path_ends_with_extension, separator, stem, Note, NoteError, NoteView,
};
use crate::text::{chars_of, slice_of};
use vstd::multiset::Multiset;
use vstd::prelude::*;
use vstd::seq_lib::*;
use vstd::string::*;

verus! {

/// An entry that a walk of the notes directory came upon: its path, which
/// starts with the directory's, whether that path is valid text, whether
/// the entry is a directory, and when it was last read, where the file
/// system could tell. Of a path that is no valid text `path` holds what can
/// be read of it: its separators and dots stand where they stood.
#[derive(Debug, PartialEq, Eq)]
pub struct FoundFile {
    pub path: String,
    pub valid_text: bool,
    pub is_dir: bool,
    pub accessed: Option<i64>,
}

pub struct FoundFileView {
    pub path: Seq<char>,
    pub valid_text: bool,
    pub is_dir: bool,
    pub accessed: Option<i64>,
}

impl View for FoundFile {
    type V = FoundFileView;

    open spec fn view(&self) -> FoundFileView {
        FoundFileView {
            path: self.path@,
            valid_text: self.valid_text,
            is_dir: self.is_dir,
            accessed: self.accessed,
        }
    }
}

/// A note in the catalog, with the time by which it is ordered.
#[derive(Debug, PartialEq, Eq)]
pub struct Listed {
    pub note: Note,
    pub accessed: Option<i64>,
}

pub struct ListedView {
    pub note: NoteView,
    pub accessed: Option<i64>,
}

impl View for Listed {
    type V = ListedView;

    open spec fn view(&self) -> ListedView {
        ListedView { note: self.note@, accessed: self.accessed }
    }
}

pub open spec fn files_view(files: Seq<FoundFile>) -> Seq<FoundFileView> {
    files.map_values(|f: FoundFile| f@)
}

pub open spec fn listing_view(items: Seq<Listed>) -> Seq<ListedView> {
    items.map_values(|l: Listed| l@)
}

/// Whether a component of `s` starts at `i` and starts with a dot.
pub open spec fn hidden_at(s: Seq<char>, i: int) -> bool {
    0 <= i < s.len() && s[i] == '.' && (i == 0 || s[i - 1] == separator())
}

/// Whether some component of the relative path `s` is hidden: the file
/// itself, or a directory above it at any depth.
pub open spec fn has_hidden_component(s: Seq<char>) -> bool {
    exists|i: int| hidden_at(s, i)
}

/// Whether `path` lies below the directory `dir`.
pub open spec fn under_dir(dir: Seq<char>, path: Seq<char>) -> bool {
    path.len() > dir.len() && path.subrange(0, dir.len() as int) == dir && path[dir.len() as int]
        == separator()
}

/// What `path` is called from `dir`: the text behind `dir` and a separator.
pub open spec fn relative_to(dir: Seq<char>, path: Seq<char>) -> Seq<char>
    recommends
        under_dir(dir, path),
{
    path.subrange(dir.len() as int + 1, path.len() as int)
}

/// Whether the walk shows the entry at `path`: it lies below `dir`, and
/// neither it nor a directory on the way down to it is hidden.
pub open spec fn is_shown(dir: Seq<char>, path: Seq<char>) -> bool {
    under_dir(dir, path) && !has_hidden_component(relative_to(dir, path))
}

/// Whether the entry `f` stops the scan: the walk shows it, and its name
/// is no valid text.
pub open spec fn is_unreadable(dir: Seq<char>, f: FoundFileView) -> bool {
    !f.valid_text && is_shown(dir, f.path)
}

/// Whether no entry of the scan stops it.
pub open spec fn scan_is_readable(dir: Seq<char>, files: Seq<FoundFileView>) -> bool {
    forall|i: int| 0 <= i < files.len() ==> !is_unreadable(dir, #[trigger] files[i])
}

/// Whether the file at `path` is a note of the directory `dir`: it lies
/// below `dir`, no component on the way down to it is hidden, and it ends in
/// the Markdown extension.
pub open spec fn is_note_file(dir: Seq<char>, path: Seq<char>) -> bool {
    under_dir(dir, path) && !has_hidden_component(relative_to(dir, path)) && has_extension(path)
}

/// Whether the entry `f` is listed in the catalog of the directory `dir`:
/// it is no directory, and its path is that of a note file.
pub open spec fn is_listed(dir: Seq<char>, f: FoundFileView) -> bool {
    !f.is_dir && is_note_file(dir, f.path)
}

/// The catalog entry of a found note file.
pub open spec fn listed_of(f: FoundFileView) -> ListedView {
    ListedView {
        note: NoteView { name: stem(base_name(f.path)), path: f.path },
        accessed: f.accessed,
    }
}

/// The notes among `files`, in the order in which they were found.
pub open spec fn notes_among(dir: Seq<char>, files: Seq<FoundFileView>) -> Seq<ListedView>
    decreases files.len(),
{
    if files.len() == 0 {
        Seq::empty()
    } else {
        let before = notes_among(dir, files.drop_last());
        if is_listed(dir, files.last()) {
            before.push(listed_of(files.last()))
        } else {
            before
        }
    }
}

/// Whether a file or directory of this name is left out of the catalog,
/// with all that lies below it.
pub fn is_hidden_name(name: &str) -> (b: bool)
    ensures
        b == (name@.len() > 0 && name@[0] == '.'),
{
    name.unicode_len() > 0 && name.get_char(0) == '.'
}

/// Whether some component of the relative path `cs` is hidden.
pub fn has_hidden(cs: &Vec<char>) -> (b: bool)
    ensures
        b == has_hidden_component(cs@),
{
    let n: usize = cs.len();
    let mut i: usize = 0;
    while i < n
        invariant
            n == cs@.len(),
            i <= n,
            forall|j: int| 0 <= j < i ==> !hidden_at(cs@, j),
        decreases n - i,
    {
        if cs[i] == '.' && (i == 0 || cs[i - 1] == '/') {
            assert(hidden_at(cs@, i as int));
            return true;
        }
        i = i + 1;
    }
    false
}

/// Whether `path` lies below the directory `dir`.
pub fn is_under(dir: &Vec<char>, path: &Vec<char>) -> (b: bool)
    ensures
        b == under_dir(dir@, path@),
{
    let d: usize = dir.len();
    if path.len() <= d {
        return false;
    }
    let mut i: usize = 0;
    while i < d
        invariant
            d == dir@.len(),
            d < path@.len(),
            i <= d,
            forall|j: int| 0 <= j < i ==> path@[j] == dir@[j],
        decreases d - i,
    {
        if path[i] != dir[i] {
            assert(path@.subrange(0, d as int)[i as int] != dir@[i as int]);
            return false;
        }
        i = i + 1;
    }
    assert(path@.subrange(0, d as int) =~= dir@);
    path[d] == '/'
}

/// Whether the walk shows the entry at `path` of the directory
/// `notes_dir`.
pub fn is_shown_path(notes_dir: &str, path: &str) -> (b: bool)
    ensures
        b == is_shown(notes_dir@, path@),
{
    let dc = chars_of(notes_dir);
    let pc = chars_of(path);
    if !is_under(&dc, &pc) {
        return false;
    }
    let dn: usize = dc.len();
    let pn: usize = pc.len();
    let rel = slice_of(path, dn + 1, pn);
    let rc = chars_of(rel.as_str());
    !has_hidden(&rc)
}

/// Whether the file at `path` is a note of the directory `notes_dir`.
pub fn is_note(notes_dir: &str, path: &str) -> (b: bool)
    ensures
        b == is_note_file(notes_dir@, path@),
{
    let pc = chars_of(path);
    is_shown_path(notes_dir, path) && ends_with_extension(&pc)
}

/// Whether no entry of the scan stops it: every entry that the walk shows
/// has a name that is valid text.
pub fn is_readable(notes_dir: &str, files: &Vec<FoundFile>) -> (b: bool)
    ensures
        b == scan_is_readable(notes_dir@, files_view(files@)),
{
    let n: usize = files.len();
    let mut i: usize = 0;
    while i < n
        invariant
            n == files@.len(),
            i <= n,
            forall|j: int| 0 <= j < i ==> !is_unreadable(notes_dir@, #[trigger] files_view(files@)[j]),
        decreases n - i,
    {
        let f = &files[i];
        assert(files_view(files@)[i as int] == f@);
        if !f.valid_text && is_shown_path(notes_dir, f.path.as_str()) {
            return false;
        }
        i = i + 1;
    }
    true
}

proof fn lemma_base_start_bound(p: Seq<char>, lo: int, end: int)
    requires
        0 <= lo <= end <= p.len(),
        forall|i: int| lo <= i < end ==> p[i] != separator(),
    ensures
        base_start(p, end) <= lo,
    decreases end - lo,
{
    if end > lo {
        lemma_base_start_bound(p, lo, end - 1);
    } else {
        lemma_base_start_shrinks(p, end);
    }
}

proof fn lemma_base_start_shrinks(p: Seq<char>, end: int)
    requires
        0 <= end <= p.len(),
    ensures
        0 <= base_start(p, end) <= end,
    decreases end,
{
    if 0 < end && p[end - 1] != separator() {
        lemma_base_start_shrinks(p, end - 1);
    }
}

/// A path that ends in the extension has a base name that ends in it.
pub proof fn lemma_extension_of_base_name(p: Seq<char>)
    requires
        has_extension(p),
    ensures
        has_extension(base_name(p)),
{
    let n = p.len() as int;
    let tail = p.subrange(n - 3, n);
    assert forall|i: int| n - 3 <= i < n implies p[i] != separator() by {
        assert(p[i] == tail[i - (n - 3)]);
    }
    lemma_path_ends_with_extension(p);
    lemma_base_start_bound(p, n - 3, n);
    lemma_base_start_shrinks(p, n);
    let b = base_name(p);
    assert(b.subrange(b.len() - 3, b.len() as int) =~= tail);
}

/// The notes among `files`, in the order in which they were found.
pub fn select_notes(notes_dir: &str, files: &Vec<FoundFile>) -> (out: Vec<Listed>)
    ensures
        listing_view(out@) == notes_among(notes_dir@, files_view(files@)),
{
    let mut out: Vec<Listed> = Vec::new();
    let n: usize = files.len();
    let mut i: usize = 0;
    assert(files_view(files@).subrange(0, 0) =~= Seq::empty());
    assert(listing_view(out@) =~= Seq::empty());
    while i < n
        invariant
            n == files@.len(),
            i <= n,
            listing_view(out@) == notes_among(notes_dir@, files_view(files@).subrange(0, i as int)),
        decreases n - i,
    {
        let f = &files[i];
        let ghost before = files_view(files@).subrange(0, i as int);
        let ghost upto = files_view(files@).subrange(0, i as int + 1);
        assert(upto.drop_last() =~= before);
        assert(upto.last() == f@);
        if !f.is_dir && is_note(notes_dir, f.path.as_str()) {
            proof {
                lemma_extension_of_base_name(f.path@);
            }
            match Note::from_path(f.path.as_str()) {
                Ok(note) => {
                    let ghost old_out = listing_view(out@);
                    let item = Listed { note, accessed: f.accessed };
                    assert(item@ == listed_of(f@));
                    out.push(item);
                    assert(listing_view(out@) =~= old_out.push(listed_of(f@)));
                },
                Err(_) => {},
            }
        }
        i = i + 1;
    }
    assert(files_view(files@).subrange(0, n as int) =~= files_view(files@));
    out
}

/// Whether `a` stands at or before `b` in the dictionary, read from the
/// index `i` on: the first character in which they differ decides, and a
/// text stands before each of its extensions.
pub open spec fn lex_le_from(a: Seq<char>, b: Seq<char>, i: int) -> bool
    decreases a.len() - i,
{
    if i < 0 || i >= a.len() {
        true
    } else if i >= b.len() {
        false
    } else if a[i] != b[i] {
        a[i] < b[i]
    } else {
        lex_le_from(a, b, i + 1)
    }
}

/// Whether `a` stands at or before `b` in lexicographic order.
pub open spec fn lex_le(a: Seq<char>, b: Seq<char>) -> bool {
    lex_le_from(a, b, 0)
}

/// Whether the time `a` is at or before `b`, an unknown time being before
/// every known one.
pub open spec fn time_le(a: Option<i64>, b: Option<i64>) -> bool {
    match (a, b) {
        (None, _) => true,
        (Some(_), None) => false,
        (Some(x), Some(y)) => x <= y,
    }
}

/// Whether `a` may stand before `b` in a catalog ordered by `policy`.
pub open spec fn precedes(policy: SortBy, a: ListedView, b: ListedView) -> bool {
    match policy {
        SortBy::AccessTime => time_le(a.accessed, b.accessed),
        SortBy::Alphabetical => lex_le(a.note.name, b.note.name),
        SortBy::Unsorted => true,
    }
}

/// Whether each entry of `s` may stand before all that follow it.
pub open spec fn ordered(policy: SortBy, s: Seq<ListedView>) -> bool {
    forall|i: int, j: int| 0 <= i < j < s.len() ==> precedes(policy, s[i], s[j])
}

/// Of two texts one stands at or before the other.
pub proof fn lemma_lex_total(a: Seq<char>, b: Seq<char>, i: int)
    requires
        0 <= i,
    ensures
        lex_le_from(a, b, i) || lex_le_from(b, a, i),
    decreases a.len() - i,
{
    if i < a.len() && i < b.len() && a[i] == b[i] {
        lemma_lex_total(a, b, i + 1);
    }
}

/// What stands at or before a text stands at or before all that the text
/// stands at or before.
pub proof fn lemma_lex_transitive(a: Seq<char>, b: Seq<char>, c: Seq<char>, i: int)
    requires
        0 <= i,
        lex_le_from(a, b, i),
        lex_le_from(b, c, i),
    ensures
        lex_le_from(a, c, i),
    decreases a.len() - i,
{
    if i < a.len() && a[i] == b[i] && b[i] == c[i] {
        lemma_lex_transitive(a, b, c, i + 1);
    }
}

/// Of two entries one may stand before the other, under every policy.
pub proof fn lemma_precedes_total(policy: SortBy, a: ListedView, b: ListedView)
    ensures
        precedes(policy, a, b) || precedes(policy, b, a),
{
    lemma_lex_total(a.note.name, b.note.name, 0);
}

/// What may stand before an entry may stand before all that the entry may
/// stand before.
pub proof fn lemma_precedes_transitive(policy: SortBy, a: ListedView, b: ListedView, c: ListedView)
    requires
        precedes(policy, a, b),
        precedes(policy, b, c),
    ensures
        precedes(policy, a, c),
{
    if policy == SortBy::Alphabetical {
        lemma_lex_transitive(a.note.name, b.note.name, c.note.name, 0);
    }
}

/// Whether `a` stands at or before `b` in lexicographic order.
pub fn name_le(a: &str, b: &str) -> (r: bool)
    ensures
        r == lex_le(a@, b@),
{
    let ac = chars_of(a);
    let bc = chars_of(b);
    let mut i: usize = 0;
    while i < ac.len()
        invariant
            ac@ == a@,
            bc@ == b@,
            i <= ac@.len(),
            lex_le(a@, b@) == lex_le_from(a@, b@, i as int),
        decreases ac@.len() - i,
    {
        if i >= bc.len() {
            return false;
        }
        if ac[i] != bc[i] {
            return ac[i] < bc[i];
        }
        i = i + 1;
    }
    true
}

/// Whether `a` may stand before `b` in a catalog ordered by `policy`.
pub fn may_precede(policy: SortBy, a: &Listed, b: &Listed) -> (r: bool)
    ensures
        r == precedes(policy, a@, b@),
{
    match policy {
        SortBy::AccessTime => match (a.accessed, b.accessed) {
            (None, _) => true,
            (Some(_), None) => false,
            (Some(x), Some(y)) => x <= y,
        },
        SortBy::Alphabetical => name_le(a.note.name(), b.note.name()),
        SortBy::Unsorted => true,
    }
}

proof fn lemma_empty_listing(items: Seq<Listed>)
    requires
        items.len() == 0,
    ensures
        listing_view(items).to_multiset() == Multiset::<ListedView>::empty(),
{
    let m = listing_view(items).to_multiset();
    to_multiset_len(listing_view(items));
    vstd::multiset::lemma_multiset_empty_len(m);
}

/// The entries of `items` in the order of `policy`: the same entries, each
/// as often as before, and each at or before all that follow it.
pub fn sort_listing(items: Vec<Listed>, policy: SortBy) -> (out: Vec<Listed>)
    ensures
        listing_view(out@).to_multiset() == listing_view(items@).to_multiset(),
        ordered(policy, listing_view(out@)),
        policy == SortBy::Unsorted ==> listing_view(out@) == listing_view(items@),
{
    if policy == SortBy::Unsorted {
        return items;
    }
    let ghost all = listing_view(items@);
    let mut rest = items;
    let mut out: Vec<Listed> = Vec::new();
    proof {
        lemma_empty_listing(out@);
    }
    assert(listing_view(out@).to_multiset().add(listing_view(rest@).to_multiset()) =~= all.to_multiset());
    while rest.len() > 0
        invariant
            listing_view(out@).to_multiset().add(listing_view(rest@).to_multiset())
                == all.to_multiset(),
            ordered(policy, listing_view(out@)),
        decreases rest.len(),
    {
        let ghost rest_before = listing_view(rest@);
        let ghost out_before = listing_view(out@);
        let x = rest.pop().unwrap();
        assert(rest_before =~= listing_view(rest@).push(x@));
        let mut p: usize = 0;
        while p < out.len() && !may_precede(policy, &x, &out[p])
            invariant
                p <= out.len(),
                out_before == listing_view(out@),
                forall|j: int| 0 <= j < p ==> !precedes(policy, x@, out_before[j]),
            decreases out.len() - p,
        {
            p = p + 1;
        }
        out.insert(p, x);
        proof {
            let now = listing_view(out@);
            assert(now =~= out_before.insert(p as int, x@));
            to_multiset_insert(out_before, p as int, x@);
            to_multiset_build(listing_view(rest@), x@);
            assert(now.to_multiset().add(listing_view(rest@).to_multiset()) =~= all.to_multiset());
            assert forall|i: int, j: int| 0 <= i < j < now.len() implies precedes(
                policy,
                now[i],
                now[j],
            ) by {
                if j == p {
                    lemma_precedes_total(policy, x@, out_before[i]);
                } else if i == p {
                    if j - 1 > p {
                        lemma_precedes_transitive(
                            policy,
                            x@,
                            out_before[p as int],
                            out_before[j - 1],
                        );
                    }
                }
            }
        }
    }
    proof {
        lemma_empty_listing(rest@);
    }
    assert(listing_view(out@).to_multiset() =~= all.to_multiset());
    out
}

/// The catalog of the notes directory: the notes among the entries found
/// in it, ordered by `sort_by`.
///
/// An entry is a note where it is no directory, lies below `notes_dir`,
/// ends in the Markdown extension, and neither it nor a directory on the
/// way to it is hidden. The scan fails, with no catalog, if and only if
/// it holds an entry that the walk shows and whose name is no valid text.
/// `notes_dir` is written without a separator at its end.
pub fn list_notes(notes_dir: &str, files: &Vec<FoundFile>, sort_by: SortBy) -> (r: Result<
    Vec<Listed>,
    NoteError,
>)
    ensures
        r is Ok <==> scan_is_readable(notes_dir@, files_view(files@)),
        r is Err ==> r->Err_0 == NoteError::InvalidNoteFile,
        r is Ok ==> listing_view(r->Ok_0@).to_multiset() == notes_among(
            notes_dir@,
            files_view(files@),
        ).to_multiset(),
        r is Ok && sort_by == SortBy::Unsorted ==> listing_view(r->Ok_0@) == notes_among(
            notes_dir@,
            files_view(files@),
        ),
        r is Ok ==> ordered(sort_by, listing_view(r->Ok_0@)),
        r is Ok ==> forall|i: int|
            0 <= i < r->Ok_0@.len() ==> is_note_file(
                notes_dir@,
                (#[trigger] r->Ok_0@[i])@.note.path,
            ),
        r is Ok ==> forall|i: int|
            0 <= i < r->Ok_0@.len() ==> (#[trigger] r->Ok_0@[i])@.note.consistent(),
{
    if !is_readable(notes_dir, files) {
        return Err(NoteError::InvalidNoteFile);
    }
    let found = select_notes(notes_dir, files);
    let out = sort_listing(found, sort_by);
    proof {
        lemma_entries_are_notes(notes_dir@, files_view(files@), listing_view(out@));
        assert forall|i: int| 0 <= i < out@.len() implies is_note_file(
            notes_dir@,
            (#[trigger] out@[i])@.note.path,
        ) && out@[i]@.note.consistent() by {
            assert(listing_view(out@)[i] == out@[i]@);
        }
    }
    Ok(out)
}

/// A catalog that holds the notes among the entries of a scan holds note
/// files of the directory only, each named after its file.
pub proof fn lemma_entries_are_notes(
    dir: Seq<char>,
    files: Seq<FoundFileView>,
    catalog: Seq<ListedView>,
)
    requires
        catalog.to_multiset() == notes_among(dir, files).to_multiset(),
    ensures
        forall|i: int|
            0 <= i < catalog.len() ==> is_note_file(dir, (#[trigger] catalog[i]).note.path)
                && catalog[i].note.consistent(),
{
    let chosen = notes_among(dir, files);
    lemma_select_only_notes(dir, files);
    assert forall|i: int| 0 <= i < catalog.len() implies is_note_file(
        dir,
        (#[trigger] catalog[i]).note.path,
    ) && catalog[i].note.consistent() by {
        let e = catalog[i];
        to_multiset_contains(catalog, e);
        to_multiset_contains(chosen, e);
        assert(catalog.contains(e));
        assert(chosen.contains(e));
        lemma_extension_of_base_name(e.note.path);
        let base = base_name(e.note.path);
        assert(base =~= stem(base) + extension());
    }
}

/// Every entry that `notes_among` keeps is a note file of the directory, named
/// after its file.
pub proof fn lemma_select_only_notes(dir: Seq<char>, files: Seq<FoundFileView>)
    ensures
        forall|e: ListedView| #[trigger]
            notes_among(dir, files).contains(e) ==> is_note_file(dir, e.note.path) && e.note.name
                == stem(base_name(e.note.path)),
    decreases files.len(),
{
    if files.len() > 0 {
        lemma_select_only_notes(dir, files.drop_last());
        let before = notes_among(dir, files.drop_last());
        assert forall|e: ListedView| #[trigger]
            notes_among(dir, files).contains(e) implies is_note_file(dir, e.note.path) && e.note.name
            == stem(base_name(e.note.path)) by {
            let k = choose|k: int| 0 <= k < notes_among(dir, files).len() && notes_among(dir, files)[k] == e;
            if k < before.len() {
                assert(before[k] == e);
                assert(before.contains(e));
            }
        }
    }
}

/// In a catalog ordered by access time, a note whose time is unknown
/// stands before every note whose time is known, and known times do not
/// decrease.
pub proof fn lemma_unknown_times_first(s: Seq<ListedView>, i: int, j: int)
    requires
        ordered(SortBy::AccessTime, s),
        0 <= i < j < s.len(),
    ensures
        s[j].accessed is None ==> s[i].accessed is None,
        s[i].accessed is Some && s[j].accessed is Some ==> s[i].accessed->Some_0
            <= s[j].accessed->Some_0,
{
    assert(precedes(SortBy::AccessTime, s[i], s[j]));
}

/// In a catalog in alphabetical order, each name stands at or before all
/// that follow it.
pub proof fn lemma_names_in_order(s: Seq<ListedView>, i: int, j: int)
    requires
        ordered(SortBy::Alphabetical, s),
        0 <= i < j < s.len(),
    ensures
        lex_le(s[i].note.name, s[j].note.name),
{
    assert(precedes(SortBy::Alphabetical, s[i], s[j]));
}

} // verus!
