//! LR(0) shift-reduce parsing: table construction from a canonical item-set
//! automaton, and the stack machine that runs those tables over a token sequence.
pub mod grammar;
pub mod order;
pub mod table;
pub mod parser;
pub mod laws;
pub mod text;
pub mod latex;
