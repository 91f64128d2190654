//! A reader and canonical printer for first-order formulas in the TPTP
//! exchange syntax, in full first-order form and in clausal normal form.
//!
//! - [`syntax`] holds the trees, each with its canonical text and the
//!   functions that write it.
//! - [`fof`] and [`cnf`] read terms, first-order formulas and clauses from a
//!   buffer of bytes, on top of the tokens of [`lexical`].  Reading is
//!   streaming: an [`outcome::Outcome`] is complete, incomplete or malformed.
//! - [`model`] is the abstract syntax that the contracts speak of, and
//!   [`grammar`] defines over it what is read at each offset of a buffer.
//! - [`laws`] proves that what is written is read back, that what is read
//!   is well formed, and that more bytes change no outcome that was decided.

pub mod ascii;
pub mod cnf;
pub mod fof;
pub mod grammar;
pub mod laws;
pub mod lexical;
pub mod model;
pub mod outcome;
pub mod syntax;
pub mod text;
