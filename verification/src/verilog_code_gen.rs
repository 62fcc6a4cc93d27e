//! The text of a module under construction, and the small pieces of
//! Verilog that are written into it.

use crate::number::{append_hexadecimal, hexadecimal};
use vstd::prelude::*;
use vstd::string::*;

verus! {

/// The multiplier of the sequence of numbers that makes generated names
/// distinct.
pub const HSH_BASE: u64 = 57;

/// The modulus of that sequence.
pub const HSH_MOD: u64 = 1_000_000_007;

/// The first number of the sequence that a generated module starts from.
pub const HSH_SEED: u32 = 1231332;

/// The text written so far, and the number from which the next
/// generated name is derived.
pub struct Code {
    pub code: String,
    pub hsh: u32,
}

/// The number that follows `h` in the sequence.
pub open spec fn next_hash(h: u32) -> u32 {
    (((h + 1) * 57) % 1_000_000_007) as u32
}

/// The generated name for `name` with the number `h`: the name, two
/// underscores and the number in hexadecimal.
pub open spec fn hashed_name(name: Seq<char>, h: u32) -> Seq<char> {
    name + "__"@ + hexadecimal(h as nat)
}

/// The declaration of a wire.
pub open spec fn wire_text(prefix: Seq<char>, var_name: Seq<char>, postfix: Seq<char>) -> Seq<
    char,
> {
    "\nwire "@ + prefix + var_name + postfix + ";"@
}

/// A `buf` gate from `i` to `o`.
pub open spec fn buf_text(i: Seq<char>, o: Seq<char>) -> Seq<char> {
    "\nbuf("@ + o + " , "@ + i + ");"@
}

/// A `bufif1` gate from `i` to `o`, controlled by `c`.
pub open spec fn bufif1_text(c: Seq<char>, i: Seq<char>, o: Seq<char>) -> Seq<char> {
    "\nbufif1("@ + o + " , "@ + i + " , "@ + c + ");"@
}

impl Code {
    /// An empty text, with the sequence of numbers at its seed.
    pub fn new() -> (r: Code)
        ensures
            r.code@ == Seq::<char>::empty(),
            r.hsh == HSH_SEED,
    {
        Code { code: String::new(), hsh: HSH_SEED }
    }

    /// Appends `text`.
    pub fn update(&mut self, text: String)
        ensures
            final(self).code@ == old(self).code@ + text@,
            final(self).hsh == old(self).hsh,
    {
        self.code.append(text.as_str());
    }

    /// Appends `text`.
    pub fn write(&mut self, text: &str)
        ensures
            final(self).code@ == old(self).code@ + text@,
            final(self).hsh == old(self).hsh,
    {
        self.code.append(text);
    }

    /// Advances the sequence of numbers and gives the generated name for
    /// `name` with the new number.
    pub fn get_varname(&mut self, name: &str) -> (r: String)
        requires
            old(self).hsh < u32::MAX,
        ensures
            final(self).hsh == next_hash(old(self).hsh),
            final(self).hsh < HSH_MOD,
            final(self).code == old(self).code,
            r@ == hashed_name(name@, final(self).hsh),
    {
        self.hsh = ((self.hsh + 1) as u64 * HSH_BASE % HSH_MOD) as u32;
        let mut var_name = String::from_str(name);
        var_name.append("__");
        append_hexadecimal(&mut var_name, self.hsh);
        var_name
    }

    /// Declares a wire under a generated name for `name`, with `prefix`
    /// before the name and `postfix` after it, and gives the name.
    pub fn create_wire(&mut self, prefix: &String, name: &String, postfix: &String) -> (r: String)
        requires
            old(self).hsh < u32::MAX,
        ensures
            final(self).hsh == next_hash(old(self).hsh),
            r@ == hashed_name(name@, final(self).hsh),
            final(self).code@ == old(self).code@ + wire_text(prefix@, r@, postfix@),
    {
        let var_name = self.get_varname(name.as_str());
        let mut text = String::from_str("\nwire ");
        text.append(prefix.as_str());
        text.append(var_name.as_str());
        text.append(postfix.as_str());
        text.append(";");
        self.update(text);
        var_name
    }
}

/// Writes a `buf` gate from `i` to `o`.
pub fn impl_buf(code: &mut Code, i: String, o: String)
    ensures
        final(code).code@ == old(code).code@ + buf_text(i@, o@),
        final(code).hsh == old(code).hsh,
{
    let mut text = String::from_str("\nbuf(");
    text.append(o.as_str());
    text.append(" , ");
    text.append(i.as_str());
    text.append(");");
    code.update(text);
}

/// Writes a `bufif1` gate from `i` to `o`, controlled by `c`.
pub fn impl_bufif1(code: &mut Code, c: String, i: String, o: String)
    ensures
        final(code).code@ == old(code).code@ + bufif1_text(c@, i@, o@),
        final(code).hsh == old(code).hsh,
{
    let mut text = String::from_str("\nbufif1(");
    text.append(o.as_str());
    text.append(" , ");
    text.append(i.as_str());
    text.append(" , ");
    text.append(c.as_str());
    text.append(");");
    code.update(text);
}

} // verus!
