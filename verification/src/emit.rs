//! The declarations of a module: its ports, its registers, and the
//! registers that stand behind its bidirectional pins.

use crate::command::{Command, CommandView};
use crate::node::views;
use crate::number::{append_decimal, decimal};
use crate::verilog_code_gen::{hashed_name, next_hash, Code, HSH_MOD};
use vstd::prelude::*;
use vstd::string::*;

verus! {

/// A range as Verilog writes it: both bounds in the order given, in
/// brackets, with a colon between them.
pub open spec fn range_text(r: std::ops::Range<u8>) -> Seq<char> {
    "["@ + decimal(r.start as nat) + ":"@ + decimal(r.end as nat) + "]"@
}

/// Whether both bounds of the range are zero: no array.
pub open spec fn is_zero_range(r: std::ops::Range<u8>) -> bool {
    r.start == 0 && r.end == 0
}

/// A name with its bit range before it and, where it has an array, the
/// array's range after it.
pub open spec fn sized_name(
    bits: std::ops::Range<u8>,
    name: Seq<char>,
    array: std::ops::Range<u8>,
) -> Seq<char> {
    range_text(bits) + name + if is_zero_range(array) {
        Seq::<char>::empty()
    } else {
        range_text(array)
    }
}

/// The text of a port in the module's header, for the three commands
/// that declare one. An output is a register.
pub open spec fn port_text(c: CommandView) -> Option<Seq<char>> {
    match c {
        CommandView::Input { pin_name, bits, array } => Some(
            "input "@ + sized_name(bits, pin_name, array),
        ),
        CommandView::Output { pin_name, bits, array } => Some(
            "output reg "@ + sized_name(bits, pin_name, array),
        ),
        CommandView::Inout { pin_name, bits, array } => Some(
            "inout "@ + sized_name(bits, pin_name, array),
        ),
        _ => None,
    }
}

/// The texts of the ports that the commands declare, in order.
pub open spec fn ports(commands: Seq<CommandView>) -> Seq<Seq<char>>
    decreases commands.len(),
{
    if commands.len() == 0 {
        Seq::empty()
    } else {
        ports(commands.drop_last()) + match port_text(commands.last()) {
            Some(t) => seq![t],
            None => Seq::empty(),
        }
    }
}

/// The parts one after another, with the separator between each two.
pub open spec fn join(parts: Seq<Seq<char>>, separator: Seq<char>) -> Seq<char>
    decreases parts.len(),
{
    if parts.len() == 0 {
        Seq::empty()
    } else if parts.len() == 1 {
        parts[0]
    } else {
        join(parts.drop_last(), separator) + separator + parts.last()
    }
}

/// The first line of the module: its name, the clock, the reset, and the
/// declared ports.
pub open spec fn header_text(module: Seq<char>, commands: Seq<CommandView>) -> Seq<char> {
    "\nmodule "@ + module + "(input clk , input reset , "@ + join(ports(commands), " , "@)
        + ");"@
}

/// The declaration of a register.
pub open spec fn register_text(
    bits: std::ops::Range<u8>,
    name: Seq<char>,
    array: std::ops::Range<u8>,
) -> Seq<char> {
    "\nreg "@ + sized_name(bits, name, array) + ";"@
}

/// The declarations of the registers that the commands declare, in
/// order.
pub open spec fn register_list(commands: Seq<CommandView>) -> Seq<char>
    decreases commands.len(),
{
    if commands.len() == 0 {
        Seq::empty()
    } else {
        register_list(commands.drop_last()) + match commands.last() {
            CommandView::Register { reg_name, bits, array } => register_text(bits, reg_name, array),
            _ => Seq::empty(),
        }
    }
}

/// The two registers behind a bidirectional pin: one holds the value to
/// drive, one says whether the pin is driven.
#[derive(Debug)]
pub struct InoutShadow {
    pub pin_name: String,
    pub value_reg: String,
    pub enable_reg: String,
}

/// The mathematical value of an [`InoutShadow`].
pub struct InoutShadowView {
    pub pin_name: Seq<char>,
    pub value_reg: Seq<char>,
    pub enable_reg: Seq<char>,
}

impl View for InoutShadow {
    type V = InoutShadowView;

    open spec fn view(&self) -> InoutShadowView {
        InoutShadowView {
            pin_name: self.pin_name@,
            value_reg: self.value_reg@,
            enable_reg: self.enable_reg@,
        }
    }
}

/// The registers behind the pin `pin_name`, named after it with the two
/// numbers that follow `h`.
pub open spec fn shadow_of(pin_name: Seq<char>, h: u32) -> InoutShadowView {
    InoutShadowView {
        pin_name,
        value_reg: hashed_name(pin_name, next_hash(h)),
        enable_reg: hashed_name(pin_name + "_write_reg"@, next_hash(next_hash(h))),
    }
}

/// The number reached from `h` after naming the registers behind the
/// bidirectional pins that the commands declare.
pub open spec fn shadow_hash(commands: Seq<CommandView>, h: u32) -> u32
    decreases commands.len(),
{
    if commands.len() == 0 {
        h
    } else if commands.last() is Inout {
        next_hash(next_hash(shadow_hash(commands.drop_last(), h)))
    } else {
        shadow_hash(commands.drop_last(), h)
    }
}

/// The registers behind the bidirectional pins that the commands
/// declare, in order, named with the numbers that follow `h`.
pub open spec fn shadow_list(commands: Seq<CommandView>, h: u32) -> Seq<InoutShadowView>
    decreases commands.len(),
{
    if commands.len() == 0 {
        Seq::empty()
    } else {
        shadow_list(commands.drop_last(), h) + match commands.last() {
            CommandView::Inout { pin_name, .. } => seq![
                shadow_of(pin_name, shadow_hash(commands.drop_last(), h)),
            ],
            _ => Seq::empty(),
        }
    }
}

/// The declarations for one bidirectional pin: the value register with
/// the pin's ranges, the one-bit enable register, and the assignment
/// that drives the pin with the value while enabled and leaves it at
/// high impedance otherwise.
pub open spec fn shadow_text(
    shadow: InoutShadowView,
    bits: std::ops::Range<u8>,
    array: std::ops::Range<u8>,
) -> Seq<char> {
    register_text(bits, shadow.value_reg, array) + "\nreg "@ + shadow.enable_reg + ";\nassign "@
        + shadow.pin_name + " = "@ + shadow.enable_reg + " ? "@ + shadow.value_reg + " : 'bZ;"@
}

/// The declarations for the bidirectional pins that the commands
/// declare, in order.
pub open spec fn shadow_decls(commands: Seq<CommandView>, h: u32) -> Seq<char>
    decreases commands.len(),
{
    if commands.len() == 0 {
        Seq::empty()
    } else {
        shadow_decls(commands.drop_last(), h) + match commands.last() {
            CommandView::Inout { pin_name, bits, array } => shadow_text(
                shadow_of(pin_name, shadow_hash(commands.drop_last(), h)),
                bits,
                array,
            ),
            _ => Seq::empty(),
        }
    }
}

/// Appends a range.
pub fn append_range(out: &mut String, r: &std::ops::Range<u8>)
    ensures
        final(out)@ == old(out)@ + range_text(*r),
{
    out.append("[");
    append_decimal(out, r.start as u32);
    out.append(":");
    append_decimal(out, r.end as u32);
    out.append("]");
    assert(final(out)@ =~= old(out)@ + range_text(*r));
}

/// Appends a name with its ranges.
pub fn append_sized_name(
    out: &mut String,
    bits: &std::ops::Range<u8>,
    name: &str,
    array: &std::ops::Range<u8>,
)
    ensures
        final(out)@ == old(out)@ + sized_name(*bits, name@, *array),
{
    append_range(out, bits);
    out.append(name);
    if array.start != 0 || array.end != 0 {
        append_range(out, array);
    }
    assert(final(out)@ =~= old(out)@ + sized_name(*bits, name@, *array));
}

/// Appends the text of a port: the direction, then the name with its
/// ranges.
fn append_port(
    out: &mut String,
    first: bool,
    direction: &str,
    bits: &std::ops::Range<u8>,
    name: &str,
    array: &std::ops::Range<u8>,
)
    ensures
        final(out)@ == old(out)@ + if first {
            Seq::<char>::empty()
        } else {
            " , "@
        } + (direction@ + sized_name(*bits, name@, *array)),
{
    if !first {
        out.append(" , ");
    }
    out.append(direction);
    append_sized_name(out, bits, name, array);
    assert(final(out)@ =~= old(out)@ + if first {
        Seq::<char>::empty()
    } else {
        " , "@
    } + (direction@ + sized_name(*bits, name@, *array)));
}

/// Writes the first line of the module.
pub fn write_header(code: &mut Code, module: &str, commands: &Vec<Command>)
    ensures
        final(code).code@ == old(code).code@ + header_text(module@, views(commands@)),
        final(code).hsh == old(code).hsh,
{
    let mut text = String::from_str("\nmodule ");
    text.append(module);
    text.append("(input clk , input reset , ");
    let ghost head = text@;
    let ghost all = views(commands@);
    let mut first = true;
    let mut i: usize = 0;
    assert(text@ =~= head + join(ports(all.take(0)), " , "@));
    while i < commands.len()
        invariant
            i <= commands.len(),
            all == views(commands@),
            first == (ports(all.take(i as int)).len() == 0),
            text@ == head + join(ports(all.take(i as int)), " , "@),
        decreases commands.len() - i,
    {
        let ghost done = ports(all.take(i as int));
        proof {
            assert(all.take(i + 1).drop_last() =~= all.take(i as int));
            assert(all.take(i + 1).last() == commands@[i as int]@);
            if let Some(t) = port_text(commands@[i as int]@) {
                assert((done + seq![t]).drop_last() =~= done);
            } else {
                assert(done + Seq::<Seq<char>>::empty() =~= done);
            }
        }
        match &commands[i] {
            Command::Input { pin_name, bits, array } => {
                append_port(&mut text, first, "input ", bits, pin_name.as_str(), array);
                first = false;
            },
            Command::Output { pin_name, bits, array } => {
                append_port(&mut text, first, "output reg ", bits, pin_name.as_str(), array);
                first = false;
            },
            Command::Inout { pin_name, bits, array } => {
                append_port(&mut text, first, "inout ", bits, pin_name.as_str(), array);
                first = false;
            },
            _ => {},
        }
        assert(text@ =~= head + join(ports(all.take(i + 1)), " , "@));
        i = i + 1;
    }
    text.append(");");
    proof {
        assert(all.take(commands.len() as int) =~= all);
        assert(text@ =~= header_text(module@, all));
    }
    code.update(text);
}

/// Appends the declaration of a register.
pub fn append_register(
    out: &mut String,
    bits: &std::ops::Range<u8>,
    name: &str,
    array: &std::ops::Range<u8>,
)
    ensures
        final(out)@ == old(out)@ + register_text(*bits, name@, *array),
{
    out.append("\nreg ");
    append_sized_name(out, bits, name, array);
    out.append(";");
    assert(final(out)@ =~= old(out)@ + register_text(*bits, name@, *array));
}

/// Writes the declarations of the registers.
pub fn write_registers(code: &mut Code, commands: &Vec<Command>)
    ensures
        final(code).code@ == old(code).code@ + register_list(views(commands@)),
        final(code).hsh == old(code).hsh,
{
    let mut text = String::new();
    let ghost all = views(commands@);
    let mut i: usize = 0;
    assert(text@ =~= register_list(all.take(0)));
    while i < commands.len()
        invariant
            i <= commands.len(),
            all == views(commands@),
            text@ == register_list(all.take(i as int)),
        decreases commands.len() - i,
    {
        proof {
            assert(all.take(i + 1).drop_last() =~= all.take(i as int));
            assert(all.take(i + 1).last() == commands@[i as int]@);
        }
        match &commands[i] {
            Command::Register { reg_name, bits, array } => {
                append_register(&mut text, bits, reg_name.as_str(), array);
            },
            _ => {
                assert(text@ + Seq::<char>::empty() =~= text@);
            },
        }
        i = i + 1;
    }
    proof {
        assert(all.take(commands.len() as int) =~= all);
    }
    code.update(text);
}

/// Names the registers behind the pin `pin_name` and writes their
/// declarations.
pub fn declare_shadow(
    code: &mut Code,
    pin_name: &str,
    bits: &std::ops::Range<u8>,
    array: &std::ops::Range<u8>,
) -> (r: InoutShadow)
    requires
        old(code).hsh < HSH_MOD,
    ensures
        r@ == shadow_of(pin_name@, old(code).hsh),
        final(code).code@ == old(code).code@ + shadow_text(r@, *bits, *array),
        final(code).hsh == next_hash(next_hash(old(code).hsh)),
        final(code).hsh < HSH_MOD,
{
    let value_reg = code.get_varname(pin_name);
    let mut enable_name = String::from_str(pin_name);
    enable_name.append("_write_reg");
    let enable_reg = code.get_varname(enable_name.as_str());
    let mut text = String::new();
    append_register(&mut text, bits, value_reg.as_str(), array);
    text.append("\nreg ");
    text.append(enable_reg.as_str());
    text.append(";\nassign ");
    text.append(pin_name);
    text.append(" = ");
    text.append(enable_reg.as_str());
    text.append(" ? ");
    text.append(value_reg.as_str());
    text.append(" : 'bZ;");
    let shadow = InoutShadow { pin_name: String::from_str(pin_name), value_reg, enable_reg };
    assert(text@ =~= shadow_text(shadow@, *bits, *array));
    code.update(text);
    shadow
}

/// Names the registers behind the bidirectional pins and writes their
/// declarations.
pub fn write_shadows(code: &mut Code, commands: &Vec<Command>) -> (r: Vec<InoutShadow>)
    requires
        old(code).hsh < HSH_MOD,
    ensures
        views(r@) == shadow_list(views(commands@), old(code).hsh),
        final(code).code@ == old(code).code@ + shadow_decls(views(commands@), old(code).hsh),
        final(code).hsh == shadow_hash(views(commands@), old(code).hsh),
        final(code).hsh < HSH_MOD,
{
    let mut shadows: Vec<InoutShadow> = Vec::new();
    let ghost all = views(commands@);
    let ghost h = code.hsh;
    let mut i: usize = 0;
    proof {
        assert(views(shadows@) =~= shadow_list(all.take(0), h));
        assert(code.code@ =~= old(code).code@ + shadow_decls(all.take(0), h));
    }
    while i < commands.len()
        invariant
            i <= commands.len(),
            all == views(commands@),
            h == old(code).hsh,
            views(shadows@) == shadow_list(all.take(i as int), h),
            code.code@ == old(code).code@ + shadow_decls(all.take(i as int), h),
            code.hsh == shadow_hash(all.take(i as int), h),
            code.hsh < HSH_MOD,
        decreases commands.len() - i,
    {
        proof {
            assert(all.take(i + 1).drop_last() =~= all.take(i as int));
            assert(all.take(i + 1).last() == commands@[i as int]@);
        }
        let ghost before = views(shadows@);
        let ghost text_before = shadow_decls(all.take(i as int), h);
        match &commands[i] {
            Command::Inout { pin_name, bits, array } => {
                let shadow = declare_shadow(code, pin_name.as_str(), bits, array);
                assert(code.code@ =~= old(code).code@ + (text_before + shadow_text(
                    shadow@,
                    *bits,
                    *array,
                )));
                shadows.push(shadow);
                assert(views(shadows@) =~= before + seq![shadow@]);
            },
            _ => {
                assert(before + Seq::<InoutShadowView>::empty() =~= before);
                assert(text_before + Seq::<char>::empty() =~= text_before);
            },
        }
        i = i + 1;
    }
    proof {
        assert(all.take(commands.len() as int) =~= all);
    }
    shadows
}

} // verus!
