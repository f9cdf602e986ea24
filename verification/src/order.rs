//! Why the alphabetical catalog does not depend on the order in which the
//! files were found.

use crate::catalog::{
    is_listed, lex_le, lex_le_from, listed_of, ordered, notes_among, FoundFileView, ListedView,
    lemma_lex_total, lemma_lex_transitive,
};
use crate::cli::SortBy;
use vstd::prelude::*;
use vstd::relations::{sorted_by, total_ordering};
use vstd::seq_lib::*;

verus! {

/// The names of the notes of a catalog, in its order.
pub open spec fn names_of(s: Seq<ListedView>) -> Seq<Seq<char>> {
    s.map_values(|l: ListedView| l.note.name)
}

proof fn lemma_lex_reflexive(a: Seq<char>, i: int)
    requires
        0 <= i,
    ensures
        lex_le_from(a, a, i),
    decreases a.len() - i,
{
    if i < a.len() {
        lemma_lex_reflexive(a, i + 1);
    }
}

proof fn lemma_lex_antisymmetric(a: Seq<char>, b: Seq<char>, i: int)
    requires
        0 <= i <= a.len(),
        i <= b.len(),
        a.subrange(0, i) == b.subrange(0, i),
        lex_le_from(a, b, i),
        lex_le_from(b, a, i),
    ensures
        a == b,
    decreases a.len() - i,
{
    if i >= a.len() {
        assert(i >= b.len());
        assert(a =~= a.subrange(0, i));
        assert(b =~= b.subrange(0, i));
    } else {
        assert(i < b.len());
        assert(a[i] == b[i]);
        assert(a.subrange(0, i + 1) =~= a.subrange(0, i).push(a[i]));
        assert(b.subrange(0, i + 1) =~= b.subrange(0, i).push(b[i]));
        lemma_lex_antisymmetric(a, b, i + 1);
    }
}

/// The lexicographic order is a total order of texts.
pub proof fn lemma_lex_is_total_order()
    ensures
        total_ordering(|a: Seq<char>, b: Seq<char>| lex_le(a, b)),
{
    let leq = |a: Seq<char>, b: Seq<char>| lex_le(a, b);
    assert forall|a: Seq<char>| #[trigger] leq(a, a) by {
        lemma_lex_reflexive(a, 0);
    }
    assert forall|a: Seq<char>, b: Seq<char>| #[trigger] leq(a, b) && #[trigger] leq(b, a) implies a
        == b by {
        assert(a.subrange(0, 0) =~= b.subrange(0, 0));
        lemma_lex_antisymmetric(a, b, 0);
    }
    assert forall|a: Seq<char>, b: Seq<char>, c: Seq<char>| #[trigger]
        leq(a, b) && #[trigger] leq(b, c) implies leq(a, c) by {
        lemma_lex_transitive(a, b, c, 0);
    }
    assert forall|a: Seq<char>, b: Seq<char>| #[trigger] leq(a, b) || #[trigger] leq(b, a) by {
        lemma_lex_total(a, b, 0);
    }
}

/// The notes among the files of two scans, one after the other, are the
/// notes of the first and then those of the second.
proof fn lemma_select_concat(dir: Seq<char>, a: Seq<FoundFileView>, b: Seq<FoundFileView>)
    ensures
        notes_among(dir, a + b) == notes_among(dir, a) + notes_among(dir, b),
    decreases b.len(),
{
    if b.len() == 0 {
        assert(a + b =~= a);
        assert(notes_among(dir, a) + notes_among(dir, b) =~= notes_among(dir, a));
    } else {
        assert((a + b).drop_last() =~= a + b.drop_last());
        assert((a + b).last() == b.last());
        lemma_select_concat(dir, a, b.drop_last());
        let sa = notes_among(dir, a);
        let sb = notes_among(dir, b.drop_last());
        if is_listed(dir, b.last()) {
            assert((sa + sb).push(listed_of(b.last())) =~= sa + sb.push(listed_of(b.last())));
        }
    }
}

/// Two scans that hold the same files hold the same notes.
pub proof fn lemma_select_same_files(dir: Seq<char>, x: Seq<FoundFileView>, y: Seq<FoundFileView>)
    requires
        x.to_multiset() == y.to_multiset(),
    ensures
        notes_among(dir, x).to_multiset() == notes_among(dir, y).to_multiset(),
    decreases x.len(),
{
    to_multiset_len(x);
    to_multiset_len(y);
    if x.len() == 0 {
        assert(x =~= y);
    } else {
        let e = x.last();
        let shorter = x.drop_last();
        assert(x[x.len() - 1] == e);
        assert(x.contains(e));
        to_multiset_contains(x, e);
        to_multiset_contains(y, e);
        let k = choose|k: int| 0 <= k < y.len() && y[k] == e;
        let rest = y.remove(k);
        assert(x.remove(x.len() - 1) =~= shorter);
        to_multiset_remove(x, x.len() - 1);
        to_multiset_remove(y, k);
        lemma_select_same_files(dir, shorter, rest);
        let front = y.subrange(0, k);
        let back = y.subrange(k + 1, y.len() as int);
        assert(y =~= (front + seq![e]) + back);
        assert(rest =~= front + back);
        lemma_select_concat(dir, front + seq![e], back);
        lemma_select_concat(dir, front, seq![e]);
        lemma_select_concat(dir, front, back);
        let one = seq![e];
        assert(one.drop_last() =~= Seq::<FoundFileView>::empty());
        assert(notes_among(dir, one.drop_last()) =~= Seq::<ListedView>::empty());
        let sf = notes_among(dir, front);
        let sb = notes_among(dir, back);
        if is_listed(dir, e) {
            let le = listed_of(e);
            assert(notes_among(dir, one) =~= seq![le]);
            assert(notes_among(dir, y) =~= (sf + sb).insert(sf.len() as int, le));
            to_multiset_insert(sf + sb, sf.len() as int, le);
            to_multiset_build(notes_among(dir, shorter), le);
        } else {
            assert(notes_among(dir, one) =~= Seq::<ListedView>::empty());
            assert(notes_among(dir, y) =~= sf + sb);
        }
    }
}

/// Two catalogs that hold the same entries hold the same names.
proof fn lemma_names_same_entries(x: Seq<ListedView>, y: Seq<ListedView>)
    requires
        x.to_multiset() == y.to_multiset(),
    ensures
        names_of(x).to_multiset() == names_of(y).to_multiset(),
    decreases x.len(),
{
    to_multiset_len(x);
    to_multiset_len(y);
    if x.len() == 0 {
        assert(x =~= y);
    } else {
        let e = x.last();
        let shorter = x.drop_last();
        assert(x[x.len() - 1] == e);
        assert(x.contains(e));
        to_multiset_contains(x, e);
        to_multiset_contains(y, e);
        let k = choose|k: int| 0 <= k < y.len() && y[k] == e;
        let rest = y.remove(k);
        assert(x.remove(x.len() - 1) =~= shorter);
        to_multiset_remove(x, x.len() - 1);
        to_multiset_remove(y, k);
        lemma_names_same_entries(shorter, rest);
        assert(names_of(x) =~= names_of(shorter).push(e.note.name));
        assert(names_of(y) =~= names_of(rest).insert(k, e.note.name));
        to_multiset_build(names_of(shorter), e.note.name);
        to_multiset_insert(names_of(rest), k, e.note.name);
    }
}

/// Two catalogs in alphabetical order that hold the same entries show
/// the same names in the same order.
pub proof fn lemma_alphabetical_names_agree(x: Seq<ListedView>, y: Seq<ListedView>)
    requires
        x.to_multiset() == y.to_multiset(),
        ordered(SortBy::Alphabetical, x),
        ordered(SortBy::Alphabetical, y),
    ensures
        names_of(x) == names_of(y),
{
    let leq = |a: Seq<char>, b: Seq<char>| lex_le(a, b);
    lemma_lex_is_total_order();
    lemma_names_same_entries(x, y);
    assert forall|i: int, j: int| 0 <= i < j < names_of(x).len() implies #[trigger] leq(
        names_of(x)[i],
        names_of(x)[j],
    ) by {
        assert(crate::catalog::precedes(SortBy::Alphabetical, x[i], x[j]));
    }
    assert forall|i: int, j: int| 0 <= i < j < names_of(y).len() implies #[trigger] leq(
        names_of(y)[i],
        names_of(y)[j],
    ) by {
        assert(crate::catalog::precedes(SortBy::Alphabetical, y[i], y[j]));
    }
    assert(sorted_by(names_of(x), leq));
    assert(sorted_by(names_of(y), leq));
    lemma_sorted_unique(names_of(x), names_of(y), leq);
}

/// The alphabetical catalog does not depend on the order in which the
/// files were found: of two scans that hold the same files, the catalogs
/// in alphabetical order show the same names in the same order.
pub proof fn lemma_alphabetical_catalog_is_canonical(
    dir: Seq<char>,
    first_scan: Seq<FoundFileView>,
    second_scan: Seq<FoundFileView>,
    first: Seq<ListedView>,
    second: Seq<ListedView>,
)
    requires
        first_scan.to_multiset() == second_scan.to_multiset(),
        first.to_multiset() == notes_among(dir, first_scan).to_multiset(),
        second.to_multiset() == notes_among(dir, second_scan).to_multiset(),
        ordered(SortBy::Alphabetical, first),
        ordered(SortBy::Alphabetical, second),
    ensures
        names_of(first) == names_of(second),
{
    lemma_select_same_files(dir, first_scan, second_scan);
    lemma_alphabetical_names_agree(first, second);
}

} // verus!
