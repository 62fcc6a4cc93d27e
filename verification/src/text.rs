//! Character-level building blocks: character classes, maximal runs,
//! trimming, and the search for the separator of a clause.

use crate::unicode::{digit_code, is_digit, is_whitespace, is_word, whitespace_code};
use vstd::prelude::*;
use vstd::string::*;

verus! {

/// The sets of characters that the scanners of this crate distinguish.
#[derive(Clone, Copy, Debug)]
pub enum CharClass {
    /// Characters with the Unicode `White_Space` property.
    Whitespace,
    /// The space character U+0020 alone.
    Space,
    /// The decimal digits of every script.
    Digit,
    /// ASCII letters, ASCII digits and the underscore.
    Word,
    /// Every character but the given one.
    Except(char),
}

impl CharClass {
    /// Membership of `c` in the class.
    pub open spec fn contains(self, c: char) -> bool {
        match self {
            CharClass::Whitespace => is_whitespace(c),
            CharClass::Space => c == ' ',
            CharClass::Digit => is_digit(c),
            CharClass::Word => is_word(c),
            CharClass::Except(x) => c != x,
        }
    }

    /// Tests membership of `c` in the class.
    pub fn has(self, c: char) -> (r: bool)
        ensures
            r == self.contains(c),
    {
        match self {
            CharClass::Whitespace => whitespace_code(c as u32),
            CharClass::Space => c == ' ',
            CharClass::Digit => digit_code(c as u32),
            CharClass::Word => ('a' <= c && c <= 'z') || ('A' <= c && c <= 'Z') || ('0' <= c && c
                <= '9') || c == '_',
            CharClass::Except(x) => c != x,
        }
    }
}

/// The end of the longest run of characters of class `k` that starts at
/// position `i` of `s`: the first position at or after `i` that holds a
/// character outside the class, or the length of `s`.
pub open spec fn run_end(s: Seq<char>, i: int, k: CharClass) -> int
    decreases s.len() - i,
{
    if 0 <= i < s.len() && k.contains(s[i]) {
        run_end(s, i + 1, k)
    } else {
        i
    }
}

/// The start of the longest run of characters of class `k` that ends
/// just before position `j` of `s`.
pub open spec fn run_start(s: Seq<char>, j: int, k: CharClass) -> int
    decreases j,
{
    if 0 < j <= s.len() && k.contains(s[j - 1]) {
        run_start(s, j - 1, k)
    } else {
        j
    }
}

/// `run_end` stops at the first character outside the class and nowhere
/// before it.
pub proof fn lemma_run_end(s: Seq<char>, i: int, k: CharClass)
    requires
        0 <= i <= s.len(),
    ensures
        i <= run_end(s, i, k) <= s.len(),
        forall|j: int| i <= j < run_end(s, i, k) ==> k.contains(#[trigger] s[j]),
        run_end(s, i, k) < s.len() ==> !k.contains(s[run_end(s, i, k)]),
    decreases s.len() - i,
{
    if i < s.len() && k.contains(s[i]) {
        lemma_run_end(s, i + 1, k);
    }
}

/// A position that bounds a run as `run_end` does is `run_end`.
pub proof fn lemma_run_end_unique(s: Seq<char>, i: int, k: CharClass, e: int)
    requires
        0 <= i <= e <= s.len(),
        forall|j: int| i <= j < e ==> k.contains(#[trigger] s[j]),
        e < s.len() ==> !k.contains(s[e]),
    ensures
        run_end(s, i, k) == e,
    decreases e - i,
{
    if i < e {
        assert(k.contains(s[i]));
        lemma_run_end_unique(s, i + 1, k, e);
    }
}

/// `run_start` stops just after the last character outside the class and
/// nowhere after it.
pub proof fn lemma_run_start(s: Seq<char>, j: int, k: CharClass)
    requires
        0 <= j <= s.len(),
    ensures
        0 <= run_start(s, j, k) <= j,
        forall|i: int| run_start(s, j, k) <= i < j ==> k.contains(#[trigger] s[i]),
        0 < run_start(s, j, k) ==> !k.contains(s[run_start(s, j, k) - 1]),
    decreases j,
{
    if 0 < j && k.contains(s[j - 1]) {
        lemma_run_start(s, j - 1, k);
    }
}

/// A position that bounds a run as `run_start` does is `run_start`.
pub proof fn lemma_run_start_unique(s: Seq<char>, j: int, k: CharClass, b: int)
    requires
        0 <= b <= j <= s.len(),
        forall|i: int| b <= i < j ==> k.contains(#[trigger] s[i]),
        0 < b ==> !k.contains(s[b - 1]),
    ensures
        run_start(s, j, k) == b,
    decreases j - b,
{
    if b < j {
        assert(k.contains(s[j - 1]));
        lemma_run_start_unique(s, j - 1, k, b);
    }
}

/// `s` without its leading and trailing whitespace.
pub open spec fn trim(s: Seq<char>) -> Seq<char> {
    let a = run_end(s, 0, CharClass::Whitespace);
    let b = run_start(s, s.len() as int, CharClass::Whitespace);
    if a < b {
        s.subrange(a, b)
    } else {
        Seq::empty()
    }
}

/// Whether `s` holds whitespace only.
pub open spec fn is_blank(s: Seq<char>) -> bool {
    forall|i: int| 0 <= i < s.len() ==> is_whitespace(#[trigger] s[i])
}

/// Whether `s` neither starts nor ends with whitespace.
pub open spec fn is_trimmed(s: Seq<char>) -> bool {
    s.len() == 0 || (!is_whitespace(s[0]) && !is_whitespace(s.last()))
}

/// Trimming leaves nothing exactly of the texts that hold whitespace
/// only.
pub proof fn lemma_trim_blank(s: Seq<char>)
    ensures
        (trim(s).len() == 0) == is_blank(s),
{
    let a = run_end(s, 0, CharClass::Whitespace);
    let b = run_start(s, s.len() as int, CharClass::Whitespace);
    lemma_run_end(s, 0, CharClass::Whitespace);
    lemma_run_start(s, s.len() as int, CharClass::Whitespace);
    if is_blank(s) {
        assert(a == s.len()) by {
            if a < s.len() {
                assert(is_whitespace(s[a]));
            }
        }
        assert(b == 0) by {
            if b > 0 {
                assert(is_whitespace(s[b - 1]));
            }
        }
    } else if a >= b {
        assert forall|i: int| 0 <= i < s.len() implies is_whitespace(#[trigger] s[i]) by {
            assert(CharClass::Whitespace.contains(s[i]));
        }
    }
}

/// What trimming leaves neither starts nor ends with whitespace.
pub proof fn lemma_trim_is_trimmed(s: Seq<char>)
    ensures
        is_trimmed(trim(s)),
{
    lemma_run_end(s, 0, CharClass::Whitespace);
    lemma_run_start(s, s.len() as int, CharClass::Whitespace);
}

/// Trimming takes whitespace away from both ends and nothing else: of a
/// text that neither starts nor ends with whitespace, with whitespace
/// before it and behind it, it leaves that text.
pub proof fn lemma_trim_padded(before: Seq<char>, t: Seq<char>, behind: Seq<char>)
    requires
        is_blank(before),
        is_blank(behind),
        is_trimmed(t),
    ensures
        trim(before + t + behind) == t,
{
    let s = before + t + behind;
    if t.len() == 0 {
        assert(is_blank(s)) by {
            assert forall|i: int| 0 <= i < s.len() implies is_whitespace(#[trigger] s[i]) by {
                if i < before.len() {
                    assert(s[i] == before[i]);
                } else {
                    assert(s[i] == behind[i - before.len()]);
                }
            }
        }
        lemma_trim_blank(s);
        assert(trim(s) =~= t);
    } else {
        let a = before.len() as int;
        let b = a + t.len();
        assert(s[a] == t[0]);
        assert(s[b - 1] == t.last());
        assert forall|j: int| 0 <= j < a implies CharClass::Whitespace.contains(
            #[trigger] s[j],
        ) by {
            assert(s[j] == before[j]);
        }
        lemma_run_end_unique(s, 0, CharClass::Whitespace, a);
        assert forall|j: int| b <= j < s.len() implies CharClass::Whitespace.contains(
            #[trigger] s[j],
        ) by {
            assert(s[j] == behind[j - b]);
        }
        lemma_run_start_unique(s, s.len() as int, CharClass::Whitespace, b);
        assert(s.subrange(a, b) =~= t);
    }
}

/// Whether `word` stands in `s` at position `i`.
pub open spec fn word_at(s: Seq<char>, i: int, word: Seq<char>) -> bool {
    &&& 0 <= i
    &&& i + word.len() <= s.len()
    &&& s.subrange(i, i + word.len()) == word
}

/// The characters of `s`, one by one.
pub fn to_chars(s: &str) -> (r: Vec<char>)
    ensures
        r@ == s@,
{
    let mut v: Vec<char> = Vec::new();
    for c in it: s.chars()
        invariant
            v@ == it.seq().take(it.index@),
    {
        v.push(c);
    }
    v
}

/// Finds the end of the run of class `k` that starts at `i`.
pub fn scan_run(s: &Vec<char>, i: usize, k: CharClass) -> (r: usize)
    requires
        i <= s.len(),
    ensures
        r == run_end(s@, i as int, k),
        i <= r <= s.len(),
{
    let mut j: usize = i;
    while j < s.len() && k.has(s[j])
        invariant
            i <= j <= s.len(),
            run_end(s@, i as int, k) == run_end(s@, j as int, k),
        decreases s.len() - j,
    {
        j = j + 1;
    }
    j
}

/// Finds the start of the run of class `k` that ends just before `j`.
pub fn scan_run_back(s: &Vec<char>, j: usize, k: CharClass) -> (r: usize)
    requires
        j <= s.len(),
    ensures
        r == run_start(s@, j as int, k),
        r <= j,
{
    let mut i: usize = j;
    while i > 0 && k.has(s[i - 1])
        invariant
            i <= j <= s.len(),
            run_start(s@, j as int, k) == run_start(s@, i as int, k),
        decreases i,
    {
        i = i - 1;
    }
    i
}

/// Strips leading and trailing whitespace.
pub fn trim_str(s: &str) -> (r: &str)
    ensures
        r@ == trim(s@),
{
    let chars = to_chars(s);
    let a = scan_run(&chars, 0, CharClass::Whitespace);
    let b = scan_run_back(&chars, chars.len(), CharClass::Whitespace);
    if a < b {
        s.substring_char(a, b)
    } else {
        let e = s.substring_char(0, 0);
        assert(e@ =~= Seq::<char>::empty());
        e
    }
}

/// Compares two strings character by character.
pub fn str_eq(a: &str, b: &str) -> (r: bool)
    ensures
        r == (a@ == b@),
{
    let x = to_chars(a);
    let y = to_chars(b);
    if x.len() != y.len() {
        return false;
    }
    let mut i: usize = 0;
    while i < x.len()
        invariant
            x@ == a@,
            y@ == b@,
            x.len() == y.len(),
            i <= x.len(),
            forall|j: int| 0 <= j < i ==> x@[j] == y@[j],
        decreases x.len() - i,
    {
        if x[i] != y[i] {
            return false;
        }
        i = i + 1;
    }
    assert(x@ =~= y@);
    true
}

/// Tests whether `word` stands in `s` at position `i`.
pub fn has_word_at(s: &Vec<char>, i: usize, word: &str) -> (r: bool)
    requires
        i <= s.len(),
    ensures
        r == word_at(s@, i as int, word@),
{
    let w = to_chars(word);
    if w.len() > s.len() - i {
        return false;
    }
    let mut j: usize = 0;
    while j < w.len()
        invariant
            w@ == word@,
            i + w.len() <= s.len(),
            j <= w.len(),
            forall|t: int| 0 <= t < j ==> s@[i + t] == w@[t],
        decreases w.len() - j,
    {
        if s[i + j] != w[j] {
            assert(s@.subrange(i as int, i + w.len())[j as int] != w@[j as int]);
            return false;
        }
        j = j + 1;
    }
    assert(s@.subrange(i as int, i + w.len()) =~= w@);
    true
}

/// Whether the two characters `=>` stand in `s` at position `i`.
pub open spec fn arrow_at(s: Seq<char>, i: int) -> bool {
    &&& 0 <= i
    &&& i + 1 < s.len()
    &&& s[i] == '='
    &&& s[i + 1] == '>'
}

/// The first position at or after `from` at which `=>` stands in `s`.
pub open spec fn find_arrow(s: Seq<char>, from: int) -> Option<int>
    decreases s.len() - from,
{
    if from < 0 || from + 1 >= s.len() {
        None
    } else if arrow_at(s, from) {
        Some(from)
    } else {
        find_arrow(s, from + 1)
    }
}

/// `find_arrow` gives the leftmost occurrence, and none only where there
/// is none.
pub proof fn lemma_find_arrow(s: Seq<char>, from: int)
    requires
        0 <= from,
    ensures
        match find_arrow(s, from) {
            Some(i) => from <= i && arrow_at(s, i) && forall|j: int|
                from <= j < i ==> !arrow_at(s, j),
            None => forall|j: int| from <= j ==> !arrow_at(s, j),
        },
    decreases s.len() - from,
{
    if from + 1 < s.len() && !arrow_at(s, from) {
        lemma_find_arrow(s, from + 1);
    }
}

/// Finds the leftmost `=>` of `s`.
pub fn locate_arrow(s: &Vec<char>) -> (r: Option<usize>)
    ensures
        match r {
            Some(i) => find_arrow(s@, 0) == Some(i as int) && i + 2 <= s.len(),
            None => find_arrow(s@, 0) is None,
        },
{
    let mut i: usize = 0;
    while i < s.len() && i + 1 < s.len()
        invariant
            i <= s.len(),
            find_arrow(s@, 0) == find_arrow(s@, i as int),
        decreases s.len() - i,
    {
        if s[i] == '=' && s[i + 1] == '>' {
            return Some(i);
        }
        i = i + 1;
    }
    None
}

/// A clause with a separator is not blank.
pub proof fn lemma_arrow_not_blank(s: Seq<char>)
    requires
        find_arrow(s, 0) is Some,
    ensures
        trim(s).len() > 0,
{
    lemma_find_arrow(s, 0);
    lemma_trim_blank(s);
    let i = find_arrow(s, 0)->0;
    assert(!is_whitespace(s[i]));
}

/// A separator that follows a text without separator is the leftmost
/// of the whole.
pub proof fn lemma_find_arrow_after(head: Seq<char>, tail: Seq<char>)
    requires
        find_arrow(head, 0) is None,
    ensures
        find_arrow(head + "=>"@ + tail, 0) == Some(head.len() as int),
{
    reveal_strlit("=>");
    let s = head + "=>"@ + tail;
    let n = head.len() as int;
    lemma_find_arrow(head, 0);
    lemma_find_arrow(s, 0);
    assert(s[n] == '=');
    assert(s[n + 1] == '>');
    assert(arrow_at(s, n));
    assert forall|j: int| 0 <= j < n implies !arrow_at(s, j) by {
        if j + 1 < n {
            assert(s[j] == head[j]);
            assert(s[j + 1] == head[j + 1]);
            assert(!arrow_at(head, j));
        }
    }
}

} // verus!
