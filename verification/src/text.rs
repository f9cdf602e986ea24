//! Character-level helpers on strings, each with its mathematical model.

use vstd::prelude::*;
use vstd::string::*;

verus! {

/// Whether `c` has the Unicode property `White_Space`.
pub open spec fn is_space(c: char) -> bool {
    let n = c as u32;
    (0x09 <= n <= 0x0D) || n == 0x20 || n == 0x85 || n == 0xA0 || n == 0x1680 || (0x2000 <= n
        <= 0x200A) || n == 0x2028 || n == 0x2029 || n == 0x202F || n == 0x205F || n == 0x3000
}

/// Whether `c` is white space.
pub fn char_is_space(c: char) -> (b: bool)
    ensures
        b == is_space(c),
{
    let n: u32 = c as u32;
    (0x09 <= n && n <= 0x0D) || n == 0x20 || n == 0x85 || n == 0xA0 || n == 0x1680 || (0x2000 <= n
        && n <= 0x200A) || n == 0x2028 || n == 0x2029 || n == 0x202F || n == 0x205F || n == 0x3000
}

/// The characters of `s`, for indexing in constant time.
pub fn chars_of(s: &str) -> (v: Vec<char>)
    ensures
        v@ == s@,
{
    let n: usize = s.unicode_len();
    let mut v: Vec<char> = Vec::new();
    let mut i: usize = 0;
    while i < n
        invariant
            n == s@.len(),
            i <= n,
            v@ == s@.subrange(0, i as int),
        decreases n - i,
    {
        let c = s.get_char(i);
        v.push(c);
        i = i + 1;
        assert(v@ =~= s@.subrange(0, i as int));
    }
    assert(v@ =~= s@);
    v
}

/// The owned copy of the characters of `s` from `from` up to `to`.
pub fn slice_of(s: &str, from: usize, to: usize) -> (r: String)
    requires
        from <= to <= s@.len(),
    ensures
        r@ == s@.subrange(from as int, to as int),
{
    String::from_str(s.substring_char(from, to))
}

/// The index of the first character at or after `from` that is no white space,
/// or the length of `s` if there is none.
pub open spec fn first_non_space(s: Seq<char>, from: int) -> int
    decreases s.len() - from,
{
    if 0 <= from < s.len() && is_space(s[from]) {
        first_non_space(s, from + 1)
    } else {
        from
    }
}

/// The end of `s[start..to]` once the white space at its end is dropped.
pub open spec fn last_non_space(s: Seq<char>, start: int, to: int) -> int
    decreases to,
{
    if start < to <= s.len() && 0 < to && is_space(s[to - 1]) {
        last_non_space(s, start, to - 1)
    } else {
        to
    }
}

/// `s` without the white space at its two ends.
pub open spec fn trimmed(s: Seq<char>) -> Seq<char> {
    let a = first_non_space(s, 0);
    let b = last_non_space(s, a, s.len() as int);
    s.subrange(a, b)
}

/// The bounds of `trimmed`: where the kept text starts and ends.
pub fn trim_bounds(cs: &Vec<char>) -> (r: (usize, usize))
    ensures
        r.0 == first_non_space(cs@, 0),
        r.1 == last_non_space(cs@, r.0 as int, cs@.len() as int),
        r.0 <= r.1 <= cs@.len(),
{
    let n: usize = cs.len();
    let mut a: usize = 0;
    while a < n && char_is_space(cs[a])
        invariant
            n == cs@.len(),
            a <= n,
            first_non_space(cs@, 0) == first_non_space(cs@, a as int),
        decreases n - a,
    {
        a = a + 1;
    }
    let mut b: usize = n;
    while a < b && char_is_space(cs[b - 1])
        invariant
            n == cs@.len(),
            a <= b <= n,
            last_non_space(cs@, a as int, n as int) == last_non_space(cs@, a as int, b as int),
        decreases b,
    {
        b = b - 1;
    }
    (a, b)
}

/// `s` without the white space at its two ends.
pub fn trim(s: &str) -> (r: String)
    ensures
        r@ == trimmed(s@),
{
    let cs = chars_of(s);
    let (a, b) = trim_bounds(&cs);
    slice_of(s, a, b)
}

/// The lower-case form of an ASCII capital; any other character is kept.
pub open spec fn lower(c: char) -> char {
    if 0x41 <= c as u32 <= 0x5A {
        ((c as u32) + 32) as char
    } else {
        c
    }
}

/// `s` with each ASCII capital in lower case.
pub open spec fn lowered(s: Seq<char>) -> Seq<char> {
    Seq::new(s.len(), |i: int| lower(s[i]))
}

/// Whether the lower-case form of `c` is `w`.
pub fn lower_is(c: char, w: char) -> (b: bool)
    ensures
        b == (lower(c) == w),
{
    let n: u32 = c as u32;
    if 0x41 <= n && n <= 0x5A {
        n + 32 == w as u32
    } else {
        c == w
    }
}

/// Whether `cs`, read without regard to the case of ASCII letters, is `word`.
pub fn lowered_is(cs: &Vec<char>, word: &str) -> (b: bool)
    ensures
        b == (lowered(cs@) == word@),
{
    let w = chars_of(word);
    if cs.len() != w.len() {
        return false;
    }
    let n: usize = cs.len();
    let mut i: usize = 0;
    while i < n
        invariant
            n == cs@.len(),
            n == w@.len(),
            w@ == word@,
            i <= n,
            forall|j: int| 0 <= j < i ==> lower(cs@[j]) == w@[j],
        decreases n - i,
    {
        if !lower_is(cs[i], w[i]) {
            assert(lowered(cs@)[i as int] != word@[i as int]);
            return false;
        }
        i = i + 1;
    }
    assert(lowered(cs@) =~= word@);
    true
}

/// Whether `c` is one of the ten ASCII digits.
pub open spec fn is_digit(c: char) -> bool {
    '0' <= c <= '9'
}

/// Whether `s` holds digits only.
pub open spec fn all_digits(s: Seq<char>) -> bool {
    forall|i: int| 0 <= i < s.len() ==> is_digit(s[i])
}

/// The number that the digits of `s` spell in base ten.
pub open spec fn digits_value(s: Seq<char>) -> nat
    decreases s.len(),
{
    if s.len() == 0 {
        0
    } else {
        digits_value(s.drop_last()) * 10 + ((s.last() as u32 - 0x30) as nat)
    }
}

/// `s` without one leading plus sign.
pub open spec fn unsigned_digits(s: Seq<char>) -> Seq<char> {
    if s.len() > 0 && s[0] == '+' {
        s.subrange(1, s.len() as int)
    } else {
        s
    }
}

/// The number that `s` spells: digits, at least one, behind at most one
/// plus sign.
pub open spec fn unsigned_of(s: Seq<char>) -> Option<nat> {
    let d = unsigned_digits(s);
    if d.len() > 0 && all_digits(d) {
        Some(digits_value(d))
    } else {
        None
    }
}

/// The number that `s` spells, where it spells one that a `usize` holds.
pub open spec fn index_of(s: Seq<char>) -> Option<usize> {
    match unsigned_of(s) {
        Some(n) => if n <= usize::MAX {
            Some(n as usize)
        } else {
            None
        },
        None => None,
    }
}

proof fn lemma_digits_value_grows(s: Seq<char>, k: int)
    requires
        0 <= k <= s.len(),
        all_digits(s),
    ensures
        digits_value(s.subrange(0, k)) <= digits_value(s),
    decreases s.len() - k,
{
    if k == s.len() {
        assert(s.subrange(0, k) =~= s);
    } else {
        let shorter = s.drop_last();
        assert(shorter.subrange(0, k) =~= s.subrange(0, k));
        assert(is_digit(s.last()));
        lemma_digits_value_grows(shorter, k);
    }
}

/// The number that the characters spell, where they spell one that a
/// `usize` holds.
pub fn parse_index(cs: &Vec<char>) -> (r: Option<usize>)
    ensures
        r == index_of(cs@),
{
    let n: usize = cs.len();
    let start: usize = if n > 0 && cs[0] == '+' {
        1
    } else {
        0
    };
    let ghost d = unsigned_digits(cs@);
    assert(d =~= cs@.subrange(start as int, n as int));
    if start == n {
        return None;
    }
    let mut acc: usize = 0;
    let mut i: usize = start;
    assert(d.subrange(0, 0) =~= Seq::empty());
    while i < n
        invariant
            n == cs@.len(),
            start <= i <= n,
            start < n,
            d == cs@.subrange(start as int, n as int),
            d == unsigned_digits(cs@),
            all_digits(d.subrange(0, i - start)),
            acc == digits_value(d.subrange(0, i - start)),
        decreases n - i,
    {
        let c: char = cs[i];
        let ghost before = d.subrange(0, i - start);
        let ghost upto = d.subrange(0, i - start + 1);
        assert(upto.drop_last() =~= before);
        assert(upto.last() == c);
        if !('0' <= c && c <= '9') {
            assert(!is_digit(d[i - start]));
            return None;
        }
        let v: usize = (c as u32 - 0x30) as usize;
        assert(all_digits(upto)) by {
            assert forall|j: int| 0 <= j < upto.len() implies is_digit(upto[j]) by {
                if j < before.len() {
                    assert(upto[j] == before[j]);
                }
            }
        }
        if acc > (usize::MAX - v) / 10 {
            proof {
                if all_digits(d) {
                    lemma_digits_value_grows(d, i - start + 1);
                }
            }
            return None;
        }
        acc = acc * 10 + v;
        i = i + 1;
    }
    assert(d.subrange(0, n - start) =~= d);
    Some(acc)
}

/// The texts that the strings of `v` hold.
pub open spec fn texts(v: Seq<String>) -> Seq<Seq<char>> {
    v.map_values(|s: String| s@)
}

/// An owned copy of `s`.
pub fn copy_of(s: &str) -> (r: String)
    ensures
        r@ == s@,
{
    String::from_str(s)
}

/// Whether `a` and `b` hold the same text.
pub fn same_text(a: &str, b: &str) -> (r: bool)
    ensures
        r == (a@ == b@),
{
    let ac = chars_of(a);
    let bc = chars_of(b);
    if ac.len() != bc.len() {
        return false;
    }
    let n: usize = ac.len();
    let mut i: usize = 0;
    while i < n
        invariant
            ac@ == a@,
            bc@ == b@,
            n == ac@.len(),
            n == bc@.len(),
            i <= n,
            forall|j: int| 0 <= j < i ==> ac@[j] == bc@[j],
        decreases n - i,
    {
        if ac[i] != bc[i] {
            return false;
        }
        i = i + 1;
    }
    assert(a@ =~= b@);
    true
}

/// Where the run of characters that are no white space, which holds the
/// index `from`, ends.
pub open spec fn word_end(s: Seq<char>, from: int) -> int
    decreases s.len() - from,
{
    if 0 <= from < s.len() && !is_space(s[from]) {
        word_end(s, from + 1)
    } else {
        from
    }
}

/// The words of `s` from the index `from` on: the longest runs of
/// characters that are no white space, in their order.
pub open spec fn words_from(s: Seq<char>, from: int) -> Seq<Seq<char>>
    decreases s.len() - from,
{
    if from < 0 || from >= s.len() {
        Seq::empty()
    } else if is_space(s[from]) {
        words_from(s, from + 1)
    } else {
        let end = word_end(s, from + 1);
        if from < end <= s.len() {
            seq![s.subrange(from, end)] + words_from(s, end)
        } else {
            Seq::empty()
        }
    }
}

/// The words of `s`.
pub open spec fn words(s: Seq<char>) -> Seq<Seq<char>> {
    words_from(s, 0)
}

/// Splits `line` at white space into its words.
pub fn split_words(line: &str) -> (out: Vec<String>)
    ensures
        texts(out@) == words(line@),
{
    let cs = chars_of(line);
    let n: usize = cs.len();
    let mut out: Vec<String> = Vec::new();
    let mut i: usize = 0;
    assert(texts(out@) + words_from(cs@, 0) =~= words_from(cs@, 0));
    while i < n
        invariant
            cs@ == line@,
            n == cs@.len(),
            i <= n,
            texts(out@) + words_from(cs@, i as int) == words_from(cs@, 0),
        decreases n - i,
    {
        if char_is_space(cs[i]) {
            i = i + 1;
        } else {
            let mut e: usize = i + 1;
            while e < n && !char_is_space(cs[e])
                invariant
                    n == cs@.len(),
                    i < e <= n,
                    word_end(cs@, i as int + 1) == word_end(cs@, e as int),
                decreases n - e,
            {
                e = e + 1;
            }
            let ghost before = texts(out@);
            let word = slice_of(line, i, e);
            out.push(word);
            assert(texts(out@) =~= before.push(cs@.subrange(i as int, e as int)));
            assert(before.push(cs@.subrange(i as int, e as int)) + words_from(cs@, e as int)
                =~= before + (seq![cs@.subrange(i as int, e as int)] + words_from(cs@, e as int)));
            i = e;
        }
    }
    assert(texts(out@) + words_from(cs@, n as int) =~= texts(out@));
    out
}

/// The digit that stands for `d`, a number below ten.
pub open spec fn digit_char(d: nat) -> char {
    if d == 0 {
        '0'
    } else if d == 1 {
        '1'
    } else if d == 2 {
        '2'
    } else if d == 3 {
        '3'
    } else if d == 4 {
        '4'
    } else if d == 5 {
        '5'
    } else if d == 6 {
        '6'
    } else if d == 7 {
        '7'
    } else if d == 8 {
        '8'
    } else {
        '9'
    }
}

/// `n` written in base ten, without leading zeros.
pub open spec fn decimal_of(n: nat) -> Seq<char>
    decreases n,
{
    if n < 10 {
        seq![digit_char(n)]
    } else {
        decimal_of(n / 10).push(digit_char(n % 10))
    }
}

fn digit_text(d: usize) -> (r: &'static str)
    requires
        d < 10,
    ensures
        r@ == seq![digit_char(d as nat)],
{
    proof {
        reveal_strlit("0");
        reveal_strlit("1");
        reveal_strlit("2");
        reveal_strlit("3");
        reveal_strlit("4");
        reveal_strlit("5");
        reveal_strlit("6");
        reveal_strlit("7");
        reveal_strlit("8");
        reveal_strlit("9");
    }
    let r = if d == 0 {
        "0"
    } else if d == 1 {
        "1"
    } else if d == 2 {
        "2"
    } else if d == 3 {
        "3"
    } else if d == 4 {
        "4"
    } else if d == 5 {
        "5"
    } else if d == 6 {
        "6"
    } else if d == 7 {
        "7"
    } else if d == 8 {
        "8"
    } else {
        "9"
    };
    assert(r@ =~= seq![digit_char(d as nat)]);
    r
}

/// `n` written in base ten, without leading zeros.
pub fn decimal(n: usize) -> (r: String)
    ensures
        r@ == decimal_of(n as nat),
    decreases n,
{
    if n < 10 {
        copy_of(digit_text(n))
    } else {
        let head = decimal(n / 10);
        let r = head.concat(digit_text(n % 10));
        assert(r@ =~= decimal_of((n / 10) as nat).push(digit_char((n % 10) as nat)));
        r
    }
}

/// A number written in base ten is read back as itself: its text is made
/// of digits, at least one, and they spell the number.
pub proof fn lemma_decimal_reads_back(n: nat)
    ensures
        decimal_of(n).len() > 0,
        all_digits(decimal_of(n)),
        digits_value(decimal_of(n)) == n,
        unsigned_of(decimal_of(n)) == Some(n),
    decreases n,
{
    let d = decimal_of(n);
    if n < 10 {
        assert(d.drop_last() =~= Seq::<char>::empty());
        assert(d.last() == digit_char(n));
        assert(digits_value(d.drop_last()) == 0);
    } else {
        lemma_decimal_reads_back(n / 10);
        let head = decimal_of(n / 10);
        assert(d.drop_last() =~= head);
        assert(d.last() == digit_char(n % 10));
        assert forall|i: int| 0 <= i < d.len() implies is_digit(d[i]) by {
            if i < head.len() {
                assert(d[i] == head[i]);
            }
        }
    }
    assert(is_digit(d[0]));
    assert(unsigned_digits(d) == d);
}

} // verus!
