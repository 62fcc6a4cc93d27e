//! Commands: the typed meaning of one `lhs => rhs` clause.

use crate::number::{decimal_u8, parse_u8};
use crate::text::{
    find_arrow, has_word_at, locate_arrow, run_end, scan_run, str_eq, to_chars, trim, trim_str,
    word_at, CharClass,
};
use vstd::prelude::*;
use vstd::string::*;

verus! {

/// One clause of a description, by its meaning.
///
/// A range keeps its two bounds in the order in which they were written:
/// `start` is the bound before the colon, `end` the one after it.
#[derive(Debug, PartialEq)]
pub enum Command {
    Input { pin_name: String, bits: std::ops::Range<u8>, array: std::ops::Range<u8> },
    Output { pin_name: String, bits: std::ops::Range<u8>, array: std::ops::Range<u8> },
    Inout { pin_name: String, bits: std::ops::Range<u8>, array: std::ops::Range<u8> },
    Register { reg_name: String, bits: std::ops::Range<u8>, array: std::ops::Range<u8> },
    RegisterTransfer { reg_name: String, reg_value: String },
    Then { next_node: String },
    Check { check: String },
    Yes { next_node: String },
    No { next_node: String },
    Empty,
}

/// Why a clause or a node could not be read.
#[derive(Debug, PartialEq, Eq, Clone, Copy, Structural)]
pub enum UnableToParseError {
    /// A clause without `=>`, or a node of an unknown type.
    InvalidFormat,
    /// A bound of a range that is no number of eight bits.
    InvalidRange,
}

/// The mathematical value of a [`Command`]: its strings as sequences of
/// characters.
pub enum CommandView {
    Input { pin_name: Seq<char>, bits: std::ops::Range<u8>, array: std::ops::Range<u8> },
    Output { pin_name: Seq<char>, bits: std::ops::Range<u8>, array: std::ops::Range<u8> },
    Inout { pin_name: Seq<char>, bits: std::ops::Range<u8>, array: std::ops::Range<u8> },
    Register { reg_name: Seq<char>, bits: std::ops::Range<u8>, array: std::ops::Range<u8> },
    RegisterTransfer { reg_name: Seq<char>, reg_value: Seq<char> },
    Then { next_node: Seq<char> },
    Check { check: Seq<char> },
    Yes { next_node: Seq<char> },
    No { next_node: Seq<char> },
    Empty,
}

impl View for Command {
    type V = CommandView;

    open spec fn view(&self) -> CommandView {
        match self {
            Command::Input { pin_name, bits, array } => CommandView::Input {
                pin_name: pin_name@,
                bits: *bits,
                array: *array,
            },
            Command::Output { pin_name, bits, array } => CommandView::Output {
                pin_name: pin_name@,
                bits: *bits,
                array: *array,
            },
            Command::Inout { pin_name, bits, array } => CommandView::Inout {
                pin_name: pin_name@,
                bits: *bits,
                array: *array,
            },
            Command::Register { reg_name, bits, array } => CommandView::Register {
                reg_name: reg_name@,
                bits: *bits,
                array: *array,
            },
            Command::RegisterTransfer { reg_name, reg_value } => CommandView::RegisterTransfer {
                reg_name: reg_name@,
                reg_value: reg_value@,
            },
            Command::Then { next_node } => CommandView::Then { next_node: next_node@ },
            Command::Check { check } => CommandView::Check { check: check@ },
            Command::Yes { next_node } => CommandView::Yes { next_node: next_node@ },
            Command::No { next_node } => CommandView::No { next_node: next_node@ },
            Command::Empty => CommandView::Empty,
        }
    }
}

/// The four words that declare a pin or a register.
#[derive(Debug, PartialEq, Eq, Clone, Copy, Structural)]
pub enum Keyword {
    Input,
    Output,
    Inout,
    Reg,
}

impl Keyword {
    /// The word as it is written.
    pub open spec fn text(self) -> Seq<char> {
        match self {
            Keyword::Input => "input"@,
            Keyword::Output => "output"@,
            Keyword::Inout => "inout"@,
            Keyword::Reg => "reg"@,
        }
    }

    /// The word as it is written.
    pub fn as_str(self) -> (r: &'static str)
        ensures
            r@ == self.text(),
    {
        match self {
            Keyword::Input => "input",
            Keyword::Output => "output",
            Keyword::Inout => "inout",
            Keyword::Reg => "reg",
        }
    }
}

/// The range `0..0`, which a declaration without brackets has for its
/// bits, and one without a second pair of brackets for its array.
pub open spec fn zero_range() -> std::ops::Range<u8> {
    std::ops::Range { start: 0u8, end: 0u8 }
}

/// A bracketed pair of numbers found in a text: the digits of its two
/// bounds and the position after its closing bracket.
pub struct Bracket {
    pub high: Seq<char>,
    pub low: Seq<char>,
    pub end: int,
}

/// Reads at position `i` of `s`: spaces, `[`, whitespace, digits,
/// whitespace, `:`, whitespace, digits, whitespace, `]`. Each run of
/// spaces or whitespace may be empty, each run of digits holds at least
/// one. The digits may be those of any script; which of them denote a
/// bound is for `range_of` to say.
pub open spec fn bracket_at(s: Seq<char>, i: int) -> Option<Bracket> {
    let open = run_end(s, i, CharClass::Space);
    let high = run_end(s, open + 1, CharClass::Whitespace);
    let high_end = run_end(s, high, CharClass::Digit);
    let colon = run_end(s, high_end, CharClass::Whitespace);
    let low = run_end(s, colon + 1, CharClass::Whitespace);
    let low_end = run_end(s, low, CharClass::Digit);
    let close = run_end(s, low_end, CharClass::Whitespace);
    if 0 <= i && open < s.len() && s[open] == '[' && high < high_end && colon < s.len() && s[colon]
        == ':' && low < low_end && close < s.len() && s[close] == ']' {
        Some(
            Bracket {
                high: s.subrange(high, high_end),
                low: s.subrange(low, low_end),
                end: close + 1,
            },
        )
    } else {
        None
    }
}

/// What may follow the keyword of a declaration, up to the end of the
/// text.
pub enum Shape {
    /// Nothing: one bit.
    Bare,
    /// One bracketed pair: the bits.
    Ranged { high: Seq<char>, low: Seq<char> },
    /// Two bracketed pairs: the array first, the bits second.
    Array { array_high: Seq<char>, array_low: Seq<char>, high: Seq<char>, low: Seq<char> },
}

/// The shape of what stands in `s` from position `i` to its end, if it
/// is one of the three.
pub open spec fn shape_at(s: Seq<char>, i: int) -> Option<Shape> {
    if i == s.len() {
        Some(Shape::Bare)
    } else {
        match bracket_at(s, i) {
            None => None,
            Some(first) => if first.end == s.len() {
                Some(Shape::Ranged { high: first.high, low: first.low })
            } else {
                match bracket_at(s, first.end) {
                    None => None,
                    Some(second) => if second.end == s.len() {
                        Some(
                            Shape::Array {
                                array_high: first.high,
                                array_low: first.low,
                                high: second.high,
                                low: second.low,
                            },
                        )
                    } else {
                        None
                    },
                }
            },
        }
    }
}

/// Whether `s` is the keyword `k` followed by one of the three shapes.
pub open spec fn declares(s: Seq<char>, k: Keyword) -> bool {
    word_at(s, 0, k.text()) && shape_at(s, k.text().len() as int) is Some
}

/// The keyword and the shape of a declaration, where `s` is one.
pub open spec fn declaration(s: Seq<char>) -> Option<(Keyword, Shape)> {
    if declares(s, Keyword::Input) {
        Some((Keyword::Input, shape_at(s, Keyword::Input.text().len() as int)->0))
    } else if declares(s, Keyword::Output) {
        Some((Keyword::Output, shape_at(s, Keyword::Output.text().len() as int)->0))
    } else if declares(s, Keyword::Inout) {
        Some((Keyword::Inout, shape_at(s, Keyword::Inout.text().len() as int)->0))
    } else if declares(s, Keyword::Reg) {
        Some((Keyword::Reg, shape_at(s, Keyword::Reg.text().len() as int)->0))
    } else {
        None
    }
}

/// The range with the bounds that two runs of digits denote, in the
/// order given, where both are written in ASCII digits and fit in eight
/// bits.
pub open spec fn range_of(high: Seq<char>, low: Seq<char>) -> Option<std::ops::Range<u8>> {
    match (decimal_u8(high), decimal_u8(low)) {
        (Some(h), Some(l)) => Some(std::ops::Range { start: h, end: l }),
        _ => None,
    }
}

/// The bit range and the array range of a shape, where all its bounds
/// are written in ASCII digits and fit in eight bits.
pub open spec fn ranges_of(shape: Shape) -> Option<(std::ops::Range<u8>, std::ops::Range<u8>)> {
    match shape {
        Shape::Bare => Some((zero_range(), zero_range())),
        Shape::Ranged { high, low } => match range_of(high, low) {
            Some(bits) => Some((bits, zero_range())),
            None => None,
        },
        Shape::Array { array_high, array_low, high, low } => match (
            range_of(array_high, array_low),
            range_of(high, low),
        ) {
            (Some(array), Some(bits)) => Some((bits, array)),
            _ => None,
        },
    }
}

/// The declaration of `name` with keyword `k` and the two ranges.
pub open spec fn declared(
    k: Keyword,
    name: Seq<char>,
    bits: std::ops::Range<u8>,
    array: std::ops::Range<u8>,
) -> CommandView {
    match k {
        Keyword::Input => CommandView::Input { pin_name: name, bits, array },
        Keyword::Output => CommandView::Output { pin_name: name, bits, array },
        Keyword::Inout => CommandView::Inout { pin_name: name, bits, array },
        Keyword::Reg => CommandView::Register { reg_name: name, bits, array },
    }
}

/// Whether `lhs` is one of the four words that name an edge or a
/// condition. They are told from names by their exact spelling.
pub open spec fn is_reserved(lhs: Seq<char>) -> bool {
    lhs == "then"@ || lhs == "yes"@ || lhs == "no"@ || lhs == "check"@
}

/// What a clause means whose two sides, both trimmed, are `lhs` and
/// `rhs`.
///
/// The four reserved words on the left come first. Otherwise the right
/// side decides: a declaration where it has the shape of one, an error
/// where it has the shape but a bound that is no number of eight bits,
/// and a register transfer in every other case.
pub open spec fn command_of(lhs: Seq<char>, rhs: Seq<char>) -> Result<
    CommandView,
    UnableToParseError,
> {
    if lhs == "then"@ {
        Ok(CommandView::Then { next_node: rhs })
    } else if lhs == "yes"@ {
        Ok(CommandView::Yes { next_node: rhs })
    } else if lhs == "no"@ {
        Ok(CommandView::No { next_node: rhs })
    } else if lhs == "check"@ {
        Ok(CommandView::Check { check: rhs })
    } else {
        match declaration(rhs) {
            None => Ok(CommandView::RegisterTransfer { reg_name: lhs, reg_value: rhs }),
            Some((k, shape)) => match ranges_of(shape) {
                None => Err(UnableToParseError::InvalidRange),
                Some((bits, array)) => Ok(declared(k, lhs, bits, array)),
            },
        }
    }
}

/// The two sides of the clause `s`, each trimmed: what stands before
/// its leftmost `=>` and what stands after it.
pub open spec fn sides(s: Seq<char>) -> Option<(Seq<char>, Seq<char>)> {
    match find_arrow(s, 0) {
        None => None,
        Some(i) => Some((trim(s.subrange(0, i)), trim(s.subrange(i + 2, s.len() as int)))),
    }
}

/// What the clause `s` means.
///
/// A clause of whitespace alone is `Empty`. Any other clause is split at
/// its leftmost `=>`, and is an error where it has none.
pub open spec fn parse_command(s: Seq<char>) -> Result<CommandView, UnableToParseError> {
    if trim(s).len() == 0 {
        Ok(CommandView::Empty)
    } else {
        match sides(s) {
            None => Err(UnableToParseError::InvalidFormat),
            Some((lhs, rhs)) => command_of(lhs, rhs),
        }
    }
}

/// A bracketed pair as positions in the text that was read.
pub struct BracketSpan {
    pub high: usize,
    pub high_end: usize,
    pub low: usize,
    pub low_end: usize,
    pub end: usize,
}

impl BracketSpan {
    /// The bracket that the positions delimit in `s`.
    pub open spec fn of(self, s: Seq<char>) -> Bracket {
        Bracket {
            high: s.subrange(self.high as int, self.high_end as int),
            low: s.subrange(self.low as int, self.low_end as int),
            end: self.end as int,
        }
    }

    /// Whether the positions are in order and within `s`.
    pub open spec fn valid_in(self, s: Seq<char>) -> bool {
        self.high < self.high_end <= self.low < self.low_end < self.end <= s.len()
    }
}

/// Reads a bracketed pair at position `i`.
pub fn read_bracket(s: &Vec<char>, i: usize) -> (r: Option<BracketSpan>)
    requires
        i <= s.len(),
    ensures
        match r {
            Some(b) => bracket_at(s@, i as int) == Some(b.of(s@)) && b.valid_in(s@),
            None => bracket_at(s@, i as int) is None,
        },
{
    let n = s.len();
    let open = scan_run(s, i, CharClass::Space);
    if open >= n || s[open] != '[' {
        return None;
    }
    let high = scan_run(s, open + 1, CharClass::Whitespace);
    let high_end = scan_run(s, high, CharClass::Digit);
    if high_end == high {
        return None;
    }
    let colon = scan_run(s, high_end, CharClass::Whitespace);
    if colon >= n || s[colon] != ':' {
        return None;
    }
    let low = scan_run(s, colon + 1, CharClass::Whitespace);
    let low_end = scan_run(s, low, CharClass::Digit);
    if low_end == low {
        return None;
    }
    let close = scan_run(s, low_end, CharClass::Whitespace);
    if close >= n || s[close] != ']' {
        return None;
    }
    Some(BracketSpan { high, high_end, low, low_end, end: close + 1 })
}

/// Reads the two bounds of a bracketed pair.
pub fn read_range(s: &Vec<char>, b: &BracketSpan) -> (r: Option<std::ops::Range<u8>>)
    requires
        b.valid_in(s@),
    ensures
        r == range_of(b.of(s@).high, b.of(s@).low),
{
    let high = parse_u8(s, b.high, b.high_end);
    let low = parse_u8(s, b.low, b.low_end);
    match (high, low) {
        (Some(h), Some(l)) => Some(h..l),
        _ => None,
    }
}

/// Reads what follows a keyword, from position `i` to the end of `s`,
/// as the two ranges of a declaration: first the bits, then the array.
/// The outer `None` says that the text has none of the three shapes, the
/// inner one that a bound is no number of eight bits.
pub fn read_shape(s: &Vec<char>, i: usize) -> (r: Option<
    Option<(std::ops::Range<u8>, std::ops::Range<u8>)>,
>)
    requires
        i <= s.len(),
    ensures
        match r {
            Some(ranges) => shape_at(s@, i as int) is Some && ranges == ranges_of(
                shape_at(s@, i as int)->0,
            ),
            None => shape_at(s@, i as int) is None,
        },
{
    if i == s.len() {
        return Some(Some((0..0, 0..0)));
    }
    match read_bracket(s, i) {
        None => None,
        Some(first) => {
            if first.end == s.len() {
                match read_range(s, &first) {
                    Some(bits) => Some(Some((bits, 0..0))),
                    None => Some(None),
                }
            } else {
                match read_bracket(s, first.end) {
                    None => None,
                    Some(second) => {
                        if second.end == s.len() {
                            let array = read_range(s, &first);
                            let bits = read_range(s, &second);
                            match (array, bits) {
                                (Some(array), Some(bits)) => Some(Some((bits, array))),
                                _ => Some(None),
                            }
                        } else {
                            None
                        }
                    },
                }
            }
        },
    }
}

/// Reads `s` as a declaration with keyword `k`.
pub fn read_declaration(s: &Vec<char>, k: Keyword) -> (r: Option<
    Option<(std::ops::Range<u8>, std::ops::Range<u8>)>,
>)
    ensures
        match r {
            Some(ranges) => declares(s@, k) && ranges == ranges_of(
                shape_at(s@, k.text().len() as int)->0,
            ),
            None => !declares(s@, k),
        },
{
    let word = k.as_str();
    if has_word_at(s, 0, word) {
        let n = word.unicode_len();
        read_shape(s, n)
    } else {
        None
    }
}

impl Command {
    /// Builds the declaration of `name` with keyword `k`.
    pub fn declare(
        k: Keyword,
        name: &str,
        bits: std::ops::Range<u8>,
        array: std::ops::Range<u8>,
    ) -> (r: Command)
        ensures
            r@ == declared(k, name@, bits, array),
    {
        let name = String::from_str(name);
        match k {
            Keyword::Input => Command::Input { pin_name: name, bits, array },
            Keyword::Output => Command::Output { pin_name: name, bits, array },
            Keyword::Inout => Command::Inout { pin_name: name, bits, array },
            Keyword::Reg => Command::Register { reg_name: name, bits, array },
        }
    }

    /// Gives the command of a clause with the trimmed sides `lhs` and
    /// `rhs`.
    pub fn from_sides(lhs: &str, rhs: &str) -> (r: Result<Command, UnableToParseError>)
        ensures
            match r {
                Ok(c) => command_of(lhs@, rhs@) == Ok::<CommandView, UnableToParseError>(c@),
                Err(e) => command_of(lhs@, rhs@) == Err::<CommandView, UnableToParseError>(e),
            },
    {
        if str_eq(lhs, "then") {
            return Ok(Command::Then { next_node: String::from_str(rhs) });
        }
        if str_eq(lhs, "yes") {
            return Ok(Command::Yes { next_node: String::from_str(rhs) });
        }
        if str_eq(lhs, "no") {
            return Ok(Command::No { next_node: String::from_str(rhs) });
        }
        if str_eq(lhs, "check") {
            return Ok(Command::Check { check: String::from_str(rhs) });
        }
        let chars = to_chars(rhs);
        let mut found = read_declaration(&chars, Keyword::Input);
        let mut k = Keyword::Input;
        if found.is_none() {
            found = read_declaration(&chars, Keyword::Output);
            k = Keyword::Output;
        }
        if found.is_none() {
            found = read_declaration(&chars, Keyword::Inout);
            k = Keyword::Inout;
        }
        if found.is_none() {
            found = read_declaration(&chars, Keyword::Reg);
            k = Keyword::Reg;
        }
        match found {
            None => Ok(
                Command::RegisterTransfer {
                    reg_name: String::from_str(lhs),
                    reg_value: String::from_str(rhs),
                },
            ),
            Some(None) => Err(UnableToParseError::InvalidRange),
            Some(Some((bits, array))) => Ok(Command::declare(k, lhs, bits, array)),
        }
    }

    /// Reads one clause.
    pub fn from_str(s: &str) -> (r: Result<Command, UnableToParseError>)
        ensures
            match r {
                Ok(c) => parse_command(s@) == Ok::<CommandView, UnableToParseError>(c@),
                Err(e) => parse_command(s@) == Err::<CommandView, UnableToParseError>(e),
            },
    {
        if trim_str(s).unicode_len() == 0 {
            return Ok(Command::Empty);
        }
        let chars = to_chars(s);
        match locate_arrow(&chars) {
            None => Err(UnableToParseError::InvalidFormat),
            Some(i) => {
                let lhs = trim_str(s.substring_char(0, i));
                let rhs = trim_str(s.substring_char(i + 2, chars.len()));
                Command::from_sides(lhs, rhs)
            },
        }
    }

    /// Whether the command is the one of a blank clause.
    pub fn is_empty(&self) -> (r: bool)
        ensures
            r == (self@ is Empty),
    {
        match self {
            Command::Empty => true,
            _ => false,
        }
    }
}

impl std::str::FromStr for Command {
    type Err = UnableToParseError;

    fn from_str(s: &str) -> (r: Result<Command, UnableToParseError>)
        ensures
            match r {
                Ok(c) => parse_command(s@) == Ok::<CommandView, UnableToParseError>(c@),
                Err(e) => parse_command(s@) == Err::<CommandView, UnableToParseError>(e),
            },
    {
        Command::from_str(s)
    }
}

} // verus!
