pub mod cpu;
pub mod debugger;
pub mod instr;
pub mod laws;
pub mod parse;
pub mod units;
