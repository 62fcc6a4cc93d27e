//! A compiler from charts of states, decisions and conditional nodes to
//! Verilog modules.
//!
//! A description is a text of clauses `lhs => rhs;` and of blocks
//! `.name : type { clauses }`. [`chart::Chart::parse`] reads it into the
//! commands outside the blocks and one node for each block, and numbers
//! the states. [`generate::generate`] writes the module: the ports and
//! registers that the commands declare, a state register, and for each
//! state the logic that a walk from it reaches before the next state.
//!
//! Every function is verified against a specification over sequences
//! of characters: what a clause means is [`command::parse_command`], what
//! a description holds is [`chart::parse_chart`], and the text of the
//! module is [`generate::module_text`].

pub mod chart;
pub mod command;
pub mod command_lemmas;
pub mod emit;
pub mod generate;
pub mod node;
pub mod number;
pub mod text;
pub mod unicode;
pub mod verilog_code_gen;
pub mod walk;
