//! What the reading of clauses guarantees, stated of clauses as they
//! are written.

use crate::command::{
    bracket_at, command_of, declaration, declared, declares, is_reserved, parse_command,
    range_of, ranges_of, shape_at, sides, zero_range, Bracket, CommandView, Keyword, Shape,
    UnableToParseError,
};
use crate::number::{decimal, lemma_decimal_digits, lemma_decimal_value_of_decimal};
use crate::text::{
    find_arrow, is_blank, is_trimmed, lemma_arrow_not_blank, lemma_find_arrow,
    lemma_find_arrow_after, lemma_run_end_unique, lemma_trim_blank, lemma_trim_padded, run_end,
    word_at, CharClass,
};
use crate::unicode::{is_digit, is_whitespace, is_word};
use vstd::prelude::*;
use vstd::string::*;

verus! {

/// A run of `n` spaces.
pub open spec fn spaces(n: nat) -> Seq<char> {
    Seq::new(n, |i: int| ' ')
}

/// What stands at the five places of a bracketed pair where something
/// may stand: spaces before the opening bracket, and whitespace after
/// it, before the colon, after the colon and before the closing bracket.
pub struct Padding {
    pub before: nat,
    pub after_open: Seq<char>,
    pub before_colon: Seq<char>,
    pub after_colon: Seq<char>,
    pub before_close: Seq<char>,
}

impl Padding {
    /// Whether the four places inside the brackets hold whitespace only.
    pub open spec fn blank(self) -> bool {
        is_blank(self.after_open) && is_blank(self.before_colon) && is_blank(self.after_colon)
            && is_blank(self.before_close)
    }
}

/// A bracketed pair written with the given padding and the given digits.
pub open spec fn bracket_text(p: Padding, high: Seq<char>, low: Seq<char>) -> Seq<char> {
    spaces(p.before) + seq!['['] + p.after_open + high + p.before_colon + seq![':'] + p.after_colon
        + low + p.before_close + seq![']']
}

/// Nothing at any of the five places.
pub open spec fn tight() -> Padding {
    Padding {
        before: 0,
        after_open: Seq::empty(),
        before_colon: Seq::empty(),
        after_colon: Seq::empty(),
        before_close: Seq::empty(),
    }
}

/// Whether `digits` is a run of at least one digit, of whatever script.
pub open spec fn is_number(digits: Seq<char>) -> bool {
    digits.len() > 0 && forall|i: int| 0 <= i < digits.len() ==> is_digit(#[trigger] digits[i])
}

/// A bracketed pair that stands in a text is read as it is written,
/// whatever follows it.
pub proof fn lemma_bracket_at(s: Seq<char>, i: int, p: Padding, high: Seq<char>, low: Seq<char>)
    requires
        word_at(s, i, bracket_text(p, high, low)),
        p.blank(),
        is_number(high),
        is_number(low),
    ensures
        bracket_at(s, i) == Some(
            Bracket { high, low, end: i + bracket_text(p, high, low).len() },
        ),
{
    let t = bracket_text(p, high, low);
    let open = i + p.before;
    let h0 = open + 1 + p.after_open.len();
    let h1 = h0 + high.len();
    let colon = h1 + p.before_colon.len();
    let l0 = colon + 1 + p.after_colon.len();
    let l1 = l0 + low.len();
    let close = l1 + p.before_close.len();
    assert(t.len() == close + 1 - i);
    assert forall|k: int| 0 <= k < t.len() implies s[i + k] == t[k] by {
        assert(s.subrange(i, i + t.len())[k] == s[i + k]);
    }
    assert forall|j: int| i <= j < open implies s[j] == ' ' by {
        assert(s[j] == t[j - i]);
    }
    assert(s[open] == '[') by {
        assert(s[open] == t[open - i]);
    }
    assert forall|j: int| open + 1 <= j < h0 implies s[j] == p.after_open[j - open - 1] by {
        assert(s[j] == t[j - i]);
    }
    assert forall|j: int| h0 <= j < h1 implies s[j] == high[j - h0] by {
        assert(s[j] == t[j - i]);
    }
    assert forall|j: int| h1 <= j < colon implies s[j] == p.before_colon[j - h1] by {
        assert(s[j] == t[j - i]);
    }
    assert(s[colon] == ':') by {
        assert(s[colon] == t[colon - i]);
    }
    assert forall|j: int| colon + 1 <= j < l0 implies s[j] == p.after_colon[j - colon - 1] by {
        assert(s[j] == t[j - i]);
    }
    assert forall|j: int| l0 <= j < l1 implies s[j] == low[j - l0] by {
        assert(s[j] == t[j - i]);
    }
    assert forall|j: int| l1 <= j < close implies s[j] == p.before_close[j - l1] by {
        assert(s[j] == t[j - i]);
    }
    assert(s[close] == ']') by {
        assert(s[close] == t[close - i]);
    }
    assert(s[h0] == high[0]);
    assert(s[l0] == low[0]);
    lemma_run_end_unique(s, i, CharClass::Space, open);
    assert forall|j: int| open + 1 <= j < h0 implies CharClass::Whitespace.contains(
        #[trigger] s[j],
    ) by {
        assert(s[j] == p.after_open[j - open - 1]);
    }
    lemma_run_end_unique(s, open + 1, CharClass::Whitespace, h0);
    assert forall|j: int| h0 <= j < h1 implies CharClass::Digit.contains(#[trigger] s[j]) by {
        assert(s[j] == high[j - h0]);
    }
    assert(!CharClass::Digit.contains(s[h1])) by {
        if h1 < colon {
            assert(s[h1] == p.before_colon[0]);
        }
    }
    lemma_run_end_unique(s, h0, CharClass::Digit, h1);
    assert forall|j: int| h1 <= j < colon implies CharClass::Whitespace.contains(
        #[trigger] s[j],
    ) by {
        assert(s[j] == p.before_colon[j - h1]);
    }
    lemma_run_end_unique(s, h1, CharClass::Whitespace, colon);
    assert forall|j: int| colon + 1 <= j < l0 implies CharClass::Whitespace.contains(
        #[trigger] s[j],
    ) by {
        assert(s[j] == p.after_colon[j - colon - 1]);
    }
    lemma_run_end_unique(s, colon + 1, CharClass::Whitespace, l0);
    assert forall|j: int| l0 <= j < l1 implies CharClass::Digit.contains(#[trigger] s[j]) by {
        assert(s[j] == low[j - l0]);
    }
    assert(!CharClass::Digit.contains(s[l1])) by {
        if l1 < close {
            assert(s[l1] == p.before_close[0]);
        }
    }
    lemma_run_end_unique(s, l0, CharClass::Digit, l1);
    assert forall|j: int| l1 <= j < close implies CharClass::Whitespace.contains(
        #[trigger] s[j],
    ) by {
        assert(s[j] == p.before_close[j - l1]);
    }
    lemma_run_end_unique(s, l1, CharClass::Whitespace, close);
    assert(s.subrange(h0, h1) =~= high);
    assert(s.subrange(l0, l1) =~= low);
}

/// A word stands where it was put.
proof fn lemma_word_at_concat(before: Seq<char>, word: Seq<char>, behind: Seq<char>)
    ensures
        word_at(before + word + behind, before.len() as int, word),
{
    let s = before + word + behind;
    assert(s.subrange(before.len() as int, (before.len() + word.len()) as int) =~= word);
}

/// A bracketed pair is read to its end, which lies behind its start.
proof fn lemma_bracket_end(s: Seq<char>, i: int)
    requires
        0 <= i <= s.len(),
    ensures
        bracket_at(s, i) matches Some(b) ==> i < b.end <= s.len(),
{
    crate::text::lemma_run_end(s, i, CharClass::Space);
    let open = run_end(s, i, CharClass::Space);
    if open < s.len() {
        crate::text::lemma_run_end(s, open + 1, CharClass::Whitespace);
        let high = run_end(s, open + 1, CharClass::Whitespace);
        crate::text::lemma_run_end(s, high, CharClass::Digit);
        let high_end = run_end(s, high, CharClass::Digit);
        crate::text::lemma_run_end(s, high_end, CharClass::Whitespace);
        let colon = run_end(s, high_end, CharClass::Whitespace);
        if colon < s.len() {
            crate::text::lemma_run_end(s, colon + 1, CharClass::Whitespace);
            let low = run_end(s, colon + 1, CharClass::Whitespace);
            crate::text::lemma_run_end(s, low, CharClass::Digit);
            let low_end = run_end(s, low, CharClass::Digit);
            crate::text::lemma_run_end(s, low_end, CharClass::Whitespace);
        }
    }
}

/// A text starts with at most one of the four keywords.
pub proof fn lemma_one_keyword(s: Seq<char>, k: Keyword, other: Keyword)
    requires
        word_at(s, 0, k.text()),
        other != k,
    ensures
        !word_at(s, 0, other.text()),
{
    reveal_strlit("input");
    reveal_strlit("output");
    reveal_strlit("inout");
    reveal_strlit("reg");
    let a = k.text();
    let b = other.text();
    if word_at(s, 0, b) {
        assert forall|j: int| 0 <= j < a.len() implies s[j] == a[j] by {
            assert(s.subrange(0, a.len() as int)[j] == s[j]);
        }
        assert forall|j: int| 0 <= j < b.len() implies s[j] == b[j] by {
            assert(s.subrange(0, b.len() as int)[j] == s[j]);
        }
        assert(a[0] == b[0]);
        assert(a[2] == b[2]);
    }
}

/// A keyword followed by one of the three shapes is the declaration
/// with that keyword and that shape.
pub proof fn lemma_declaration(s: Seq<char>, k: Keyword)
    requires
        declares(s, k),
    ensures
        declaration(s) == Some((k, shape_at(s, k.text().len() as int)->0)),
{
    if k != Keyword::Input {
        lemma_one_keyword(s, k, Keyword::Input);
    }
    if k != Keyword::Output {
        lemma_one_keyword(s, k, Keyword::Output);
    }
    if k != Keyword::Inout {
        lemma_one_keyword(s, k, Keyword::Inout);
    }
    if k != Keyword::Reg {
        lemma_one_keyword(s, k, Keyword::Reg);
    }
}

/// A bare keyword on the right declares one bit and no array.
pub proof fn lemma_bare_declaration(lhs: Seq<char>, k: Keyword)
    requires
        !is_reserved(lhs),
    ensures
        command_of(lhs, k.text()) == Ok::<CommandView, UnableToParseError>(
            declared(k, lhs, zero_range(), zero_range()),
        ),
{
    let s = k.text();
    assert(s.subrange(0, s.len() as int) =~= s);
    lemma_declaration(s, k);
}

/// A keyword with one bracketed pair declares the bits with the two
/// bounds in the order written, and no array. Where a bound is no
/// number of eight bits in ASCII digits, the clause is refused.
pub proof fn lemma_ranged_declaration(
    lhs: Seq<char>,
    k: Keyword,
    p: Padding,
    high: Seq<char>,
    low: Seq<char>,
)
    requires
        !is_reserved(lhs),
        p.blank(),
        is_number(high),
        is_number(low),
    ensures
        command_of(lhs, k.text() + bracket_text(p, high, low)) == match range_of(high, low) {
            Some(bits) => Ok::<CommandView, UnableToParseError>(
                declared(k, lhs, bits, zero_range()),
            ),
            None => Err(UnableToParseError::InvalidRange),
        },
{
    let s = k.text() + bracket_text(p, high, low);
    let n = k.text().len() as int;
    assert(s.subrange(0, n) =~= k.text());
    assert(s.subrange(n, n + bracket_text(p, high, low).len()) =~= bracket_text(p, high, low));
    lemma_bracket_at(s, n, p, high, low);
    lemma_declaration(s, k);
}

/// Two bracketed pairs, one behind the other, stand where they were
/// put and are read as they are written.
proof fn lemma_two_brackets(
    word: Seq<char>,
    p: Padding,
    array_high: Seq<char>,
    array_low: Seq<char>,
    q: Padding,
    high: Seq<char>,
    low: Seq<char>,
)
    requires
        p.blank(),
        q.blank(),
        is_number(array_high),
        is_number(array_low),
        is_number(high),
        is_number(low),
    ensures
        word_at(
            word + bracket_text(p, array_high, array_low) + bracket_text(q, high, low),
            0,
            word,
        ),
        shape_at(
            word + bracket_text(p, array_high, array_low) + bracket_text(q, high, low),
            word.len() as int,
        ) == Some(Shape::Array { array_high, array_low, high, low }),
{
    let first = bracket_text(p, array_high, array_low);
    let second = bracket_text(q, high, low);
    let s = word + first + second;
    let n = word.len() as int;
    let m = n + first.len();
    assert(word_at(s, 0, word)) by {
        assert(s.subrange(0, n) =~= word);
    }
    assert(word_at(s, n, first)) by {
        lemma_word_at_concat(word, first, second);
    }
    assert(word_at(s, m, second)) by {
        lemma_word_at_concat(word + first, second, Seq::empty());
        assert(word + first + second + Seq::<char>::empty() =~= s);
    }
    let b1 = Bracket { high: array_high, low: array_low, end: m };
    let b2 = Bracket { high, low, end: s.len() as int };
    assert(bracket_at(s, n) == Some(b1)) by {
        lemma_bracket_at(s, n, p, array_high, array_low);
    }
    assert(bracket_at(s, m) == Some(b2)) by {
        lemma_bracket_at(s, m, q, high, low);
    }
    assert(n < m < s.len()) by {
        lemma_bracket_end(s, n);
        lemma_bracket_end(s, m);
    }
    lemma_shape_of_two(s, n, b1, b2);
}

/// Two bracketed pairs that reach the end of the text are an array.
proof fn lemma_shape_of_two(s: Seq<char>, n: int, first: Bracket, second: Bracket)
    requires
        n != s.len(),
        bracket_at(s, n) == Some(first),
        first.end != s.len(),
        bracket_at(s, first.end) == Some(second),
        second.end == s.len(),
    ensures
        shape_at(s, n) == Some(
            Shape::Array {
                array_high: first.high,
                array_low: first.low,
                high: second.high,
                low: second.low,
            },
        ),
{
}

/// What a declaration on the right means.
proof fn lemma_command_of_declaration(lhs: Seq<char>, rhs: Seq<char>, k: Keyword)
    requires
        !is_reserved(lhs),
        declares(rhs, k),
    ensures
        command_of(lhs, rhs) == match ranges_of(shape_at(rhs, k.text().len() as int)->0) {
            None => Err::<CommandView, UnableToParseError>(UnableToParseError::InvalidRange),
            Some((bits, array)) => Ok(declared(k, lhs, bits, array)),
        },
{
    lemma_declaration(rhs, k);
}

/// A keyword with two bracketed pairs declares the array with the
/// bounds of the first pair and the bits with those of the second, each
/// in the order written. Where a bound is no number of eight bits in
/// ASCII digits, the clause is refused.
pub proof fn lemma_array_declaration(
    lhs: Seq<char>,
    k: Keyword,
    p: Padding,
    array_high: Seq<char>,
    array_low: Seq<char>,
    q: Padding,
    high: Seq<char>,
    low: Seq<char>,
)
    requires
        !is_reserved(lhs),
        p.blank(),
        q.blank(),
        is_number(array_high),
        is_number(array_low),
        is_number(high),
        is_number(low),
    ensures
        command_of(
            lhs,
            k.text() + bracket_text(p, array_high, array_low) + bracket_text(q, high, low),
        ) == match (range_of(array_high, array_low), range_of(high, low)) {
            (Some(array), Some(bits)) => Ok::<CommandView, UnableToParseError>(
                declared(k, lhs, bits, array),
            ),
            _ => Err(UnableToParseError::InvalidRange),
        },
{
    let s = k.text() + bracket_text(p, array_high, array_low) + bracket_text(q, high, low);
    lemma_two_brackets(k.text(), p, array_high, array_low, q, high, low);
    lemma_command_of_declaration(lhs, s, k);
}

/// Two numbers of eight bits, written in decimal, are read back as the
/// range from the first to the second.
pub proof fn lemma_range_of_decimal(high: u8, low: u8)
    ensures
        is_number(decimal(high as nat)),
        is_number(decimal(low as nat)),
        range_of(decimal(high as nat), decimal(low as nat)) == Some(
            std::ops::Range { start: high, end: low },
        ),
{
    lemma_decimal_digits(high as nat);
    lemma_decimal_digits(low as nat);
    lemma_decimal_value_of_decimal(high as nat);
    lemma_decimal_value_of_decimal(low as nat);
}

/// The whitespace around the two sides of a clause: before the left
/// side, between it and the `=>`, between the `=>` and the right side,
/// and behind the right side.
pub struct Margins {
    pub before: Seq<char>,
    pub before_arrow: Seq<char>,
    pub after_arrow: Seq<char>,
    pub behind: Seq<char>,
}

impl Margins {
    /// Whether the four hold whitespace only.
    pub open spec fn blank(self) -> bool {
        is_blank(self.before) && is_blank(self.before_arrow) && is_blank(self.after_arrow)
            && is_blank(self.behind)
    }
}

/// The clause with the sides `lhs` and `rhs`, written with the given
/// whitespace around them.
pub open spec fn clause_text(m: Margins, lhs: Seq<char>, rhs: Seq<char>) -> Seq<char> {
    m.before + lhs + m.before_arrow + "=>"@ + m.after_arrow + rhs + m.behind
}

/// Whether `lhs` can stand on the left as it is: without whitespace at
/// its ends and without `=>`.
pub open spec fn is_left_side(lhs: Seq<char>) -> bool {
    is_trimmed(lhs) && find_arrow(lhs, 0) is None
}

/// A clause is read by its two sides, whatever whitespace stands
/// around them.
pub proof fn lemma_clause_sides(m: Margins, lhs: Seq<char>, rhs: Seq<char>)
    requires
        m.blank(),
        is_left_side(lhs),
        is_trimmed(rhs),
    ensures
        sides(clause_text(m, lhs, rhs)) == Some((lhs, rhs)),
        parse_command(clause_text(m, lhs, rhs)) == command_of(lhs, rhs),
{
    reveal_strlit("=>");
    let head = m.before + lhs + m.before_arrow;
    let tail = m.after_arrow + rhs + m.behind;
    let s = clause_text(m, lhs, rhs);
    assert(s =~= head + "=>"@ + tail);
    lemma_find_arrow(lhs, 0);
    lemma_find_arrow(head, 0);
    assert(find_arrow(head, 0) is None) by {
        if let Some(j) = find_arrow(head, 0) {
            let a = m.before.len() as int;
            let b = a + lhs.len();
            assert(!is_whitespace('='));
            assert(!is_whitespace('>'));
            if j < a {
                assert(head[j] == m.before[j]);
            } else if j >= b {
                assert(head[j] == m.before_arrow[j - b]);
            } else if j + 1 >= b {
                assert(head[j + 1] == m.before_arrow[j + 1 - b]);
            } else {
                assert(head[j] == lhs[j - a]);
                assert(head[j + 1] == lhs[j + 1 - a]);
                assert(crate::text::arrow_at(lhs, j - a));
            }
        }
    }
    lemma_find_arrow_after(head, tail);
    let i = head.len() as int;
    assert(s.subrange(0, i) =~= head);
    assert(s.subrange(i + 2, s.len() as int) =~= tail);
    lemma_trim_padded(m.before, lhs, m.before_arrow);
    lemma_trim_padded(m.after_arrow, rhs, m.behind);
    lemma_arrow_not_blank(s);
}

/// The four reserved words on the left give the edge or the condition
/// with the right side as it is written, whitespace around it aside.
pub proof fn lemma_parse_reserved(m: Margins, rhs: Seq<char>)
    requires
        m.blank(),
        is_trimmed(rhs),
    ensures
        parse_command(clause_text(m, "then"@, rhs)) == Ok::<CommandView, UnableToParseError>(
            CommandView::Then { next_node: rhs },
        ),
        parse_command(clause_text(m, "yes"@, rhs)) == Ok::<CommandView, UnableToParseError>(
            CommandView::Yes { next_node: rhs },
        ),
        parse_command(clause_text(m, "no"@, rhs)) == Ok::<CommandView, UnableToParseError>(
            CommandView::No { next_node: rhs },
        ),
        parse_command(clause_text(m, "check"@, rhs)) == Ok::<CommandView, UnableToParseError>(
            CommandView::Check { check: rhs },
        ),
{
    reveal_strlit("then");
    reveal_strlit("yes");
    reveal_strlit("no");
    reveal_strlit("check");
    assert(is_left_side("then"@)) by {
        lemma_plain_word("then"@);
    }
    assert(is_left_side("yes"@)) by {
        lemma_plain_word("yes"@);
    }
    assert(is_left_side("no"@)) by {
        lemma_plain_word("no"@);
    }
    assert(is_left_side("check"@)) by {
        lemma_plain_word("check"@);
    }
    lemma_clause_sides(m, "then"@, rhs);
    lemma_clause_sides(m, "yes"@, rhs);
    lemma_clause_sides(m, "no"@, rhs);
    lemma_clause_sides(m, "check"@, rhs);
    assert("yes"@[0] != "then"@[0]);
    assert("no"@[0] != "then"@[0]);
    assert("no"@[0] != "yes"@[0]);
    assert("check"@[0] != "then"@[0]);
    assert("check"@[0] != "yes"@[0]);
    assert("check"@[0] != "no"@[0]);
}

/// A word made of letters, digits and underscores can stand on either
/// side of a clause as it is.
pub proof fn lemma_plain_word(w: Seq<char>)
    requires
        forall|i: int| 0 <= i < w.len() ==> is_word(#[trigger] w[i]),
    ensures
        is_left_side(w),
{
    lemma_find_arrow(w, 0);
    if w.len() > 0 {
        assert(is_word(w[0]));
        assert(is_word(w.last()));
    }
    if let Some(j) = find_arrow(w, 0) {
        assert(is_word(w[j]));
    }
}

/// A right side that is no declaration is the value of a register
/// transfer, taken as it is written.
pub proof fn lemma_parse_transfer(m: Margins, name: Seq<char>, value: Seq<char>)
    requires
        m.blank(),
        is_left_side(name),
        !is_reserved(name),
        is_trimmed(value),
        declaration(value) is None,
    ensures
        parse_command(clause_text(m, name, value)) == Ok::<CommandView, UnableToParseError>(
            CommandView::RegisterTransfer { reg_name: name, reg_value: value },
        ),
{
    lemma_clause_sides(m, name, value);
}

/// The first and the last character of a keyword are letters.
proof fn lemma_keyword_ends(k: Keyword)
    ensures
        k.text().len() >= 3,
        !is_whitespace(k.text()[0]),
        !is_whitespace(k.text().last()),
{
    reveal_strlit("input");
    reveal_strlit("output");
    reveal_strlit("inout");
    reveal_strlit("reg");
}

/// `name => input`, and the same with `output`, `inout` and `reg`:
/// one bit, no array.
pub proof fn lemma_parse_bare(m: Margins, name: Seq<char>, k: Keyword)
    requires
        m.blank(),
        is_left_side(name),
        !is_reserved(name),
    ensures
        parse_command(clause_text(m, name, k.text())) == Ok::<CommandView, UnableToParseError>(
            declared(k, name, zero_range(), zero_range()),
        ),
{
    lemma_keyword_ends(k);
    lemma_clause_sides(m, name, k.text());
    lemma_bare_declaration(name, k);
}

/// `name => reg[H:L]`, and the same with the other keywords: the bits
/// from `H` to `L` in that order, whichever is larger, and no array.
pub proof fn lemma_parse_ranged(
    m: Margins,
    name: Seq<char>,
    k: Keyword,
    p: Padding,
    high: u8,
    low: u8,
)
    requires
        m.blank(),
        p.blank(),
        is_left_side(name),
        !is_reserved(name),
    ensures
        parse_command(
            clause_text(
                m,
                name,
                k.text() + bracket_text(p, decimal(high as nat), decimal(low as nat)),
            ),
        ) == Ok::<CommandView, UnableToParseError>(
            declared(k, name, std::ops::Range { start: high, end: low }, zero_range()),
        ),
{
    let pair = bracket_text(p, decimal(high as nat), decimal(low as nat));
    let rhs = k.text() + pair;
    lemma_keyword_ends(k);
    assert(is_trimmed(rhs)) by {
        assert(rhs[0] == k.text()[0]);
        assert(rhs.last() == ']');
    }
    lemma_clause_sides(m, name, rhs);
    lemma_range_of_decimal(high, low);
    lemma_ranged_declaration(name, k, p, decimal(high as nat), decimal(low as nat));
}

/// `name => reg[A:B][C:D]`, and the same with the other keywords: the
/// array from `A` to `B` and the bits from `C` to `D`, each in the
/// order written.
pub proof fn lemma_parse_array(
    m: Margins,
    name: Seq<char>,
    k: Keyword,
    p: Padding,
    array_high: u8,
    array_low: u8,
    q: Padding,
    high: u8,
    low: u8,
)
    requires
        m.blank(),
        p.blank(),
        q.blank(),
        is_left_side(name),
        !is_reserved(name),
    ensures
        parse_command(
            clause_text(
                m,
                name,
                k.text() + bracket_text(p, decimal(array_high as nat), decimal(array_low as nat))
                    + bracket_text(q, decimal(high as nat), decimal(low as nat)),
            ),
        ) == Ok::<CommandView, UnableToParseError>(
            declared(
                k,
                name,
                std::ops::Range { start: high, end: low },
                std::ops::Range { start: array_high, end: array_low },
            ),
        ),
{
    let first = bracket_text(p, decimal(array_high as nat), decimal(array_low as nat));
    let second = bracket_text(q, decimal(high as nat), decimal(low as nat));
    let rhs = k.text() + first + second;
    lemma_keyword_ends(k);
    assert(is_trimmed(rhs)) by {
        assert(rhs[0] == k.text()[0]);
        assert(rhs.last() == ']');
    }
    lemma_clause_sides(m, name, rhs);
    lemma_range_of_decimal(array_high, array_low);
    lemma_range_of_decimal(high, low);
    lemma_array_declaration(
        name,
        k,
        p,
        decimal(array_high as nat),
        decimal(array_low as nat),
        q,
        decimal(high as nat),
        decimal(low as nat),
    );
}

/// One space on each side of the `=>`, and nothing around the clause.
pub open spec fn plain() -> Margins {
    Margins {
        before: Seq::empty(),
        before_arrow: seq![' '],
        after_arrow: seq![' '],
        behind: Seq::empty(),
    }
}

/// A clause written plainly is its left side, ` => ` and its right side.
proof fn lemma_plain_clause(lhs: Seq<char>, rhs: Seq<char>)
    ensures
        plain().blank(),
        clause_text(plain(), lhs, rhs) == lhs + " => "@ + rhs,
{
    reveal_strlit("=>");
    reveal_strlit(" => ");
    assert(clause_text(plain(), lhs, rhs) =~= lhs + " => "@ + rhs);
}

/// A bracketed pair written without padding is the two numbers with a
/// colon between them, in brackets.
proof fn lemma_tight_bracket(high: Seq<char>, low: Seq<char>)
    ensures
        tight().blank(),
        bracket_text(tight(), high, low) == "["@ + high + ":"@ + low + "]"@,
{
    reveal_strlit("[");
    reveal_strlit(":");
    reveal_strlit("]");
    assert(bracket_text(tight(), high, low) =~= "["@ + high + ":"@ + low + "]"@);
}

/// `name => reg[H:L]` declares the register `name` with the bits from
/// `H` to `L`, in that order, and no array; and so for the other
/// keywords.
pub proof fn lemma_plain_ranged(name: Seq<char>, k: Keyword, high: u8, low: u8)
    requires
        is_left_side(name),
        !is_reserved(name),
    ensures
        parse_command(
            name + " => "@ + (k.text() + ("["@ + decimal(high as nat) + ":"@ + decimal(low as nat)
                + "]"@)),
        ) == Ok::<CommandView, UnableToParseError>(
            declared(k, name, std::ops::Range { start: high, end: low }, zero_range()),
        ),
{
    let pair = bracket_text(tight(), decimal(high as nat), decimal(low as nat));
    lemma_tight_bracket(decimal(high as nat), decimal(low as nat));
    lemma_plain_clause(name, k.text() + pair);
    lemma_parse_ranged(plain(), name, k, tight(), high, low);
}

/// `name => reg[A:B][C:D]` declares the register `name` with the array
/// from `A` to `B` and the bits from `C` to `D`; and so for the other
/// keywords.
pub proof fn lemma_plain_array(
    name: Seq<char>,
    k: Keyword,
    array_high: u8,
    array_low: u8,
    high: u8,
    low: u8,
)
    requires
        is_left_side(name),
        !is_reserved(name),
    ensures
        parse_command(
            name + " => "@ + (k.text() + ("["@ + decimal(array_high as nat) + ":"@ + decimal(
                array_low as nat,
            ) + "]"@) + ("["@ + decimal(high as nat) + ":"@ + decimal(low as nat) + "]"@)),
        ) == Ok::<CommandView, UnableToParseError>(
            declared(
                k,
                name,
                std::ops::Range { start: high, end: low },
                std::ops::Range { start: array_high, end: array_low },
            ),
        ),
{
    let first = bracket_text(tight(), decimal(array_high as nat), decimal(array_low as nat));
    let second = bracket_text(tight(), decimal(high as nat), decimal(low as nat));
    lemma_tight_bracket(decimal(array_high as nat), decimal(array_low as nat));
    lemma_tight_bracket(decimal(high as nat), decimal(low as nat));
    lemma_plain_clause(name, k.text() + first + second);
    lemma_parse_array(plain(), name, k, tight(), array_high, array_low, tight(), high, low);
}

/// `name => input`, and the same with the other keywords, declares one
/// bit and no array.
pub proof fn lemma_plain_bare(name: Seq<char>, k: Keyword)
    requires
        is_left_side(name),
        !is_reserved(name),
    ensures
        parse_command(name + " => "@ + k.text()) == Ok::<CommandView, UnableToParseError>(
            declared(k, name, zero_range(), zero_range()),
        ),
{
    lemma_plain_clause(name, k.text());
    lemma_parse_bare(plain(), name, k);
}

/// The blank clauses, and no others, are read as `Empty`.
pub proof fn lemma_blank_clause(s: Seq<char>)
    ensures
        (parse_command(s) == Ok::<CommandView, UnableToParseError>(CommandView::Empty))
            == is_blank(s),
{
    lemma_trim_blank(s);
}

} // verus!
