//! A parsing machine.
//!
//! A program is a table of statics, some of them parselets: parsing functions
//! whose operations recognise text, backtrack on failure, grow left-recursive
//! matches through a memo table, and shape what they capture into values.
//!
//! - [`reader`], [`value`], [`capture`], [`error`], [`ccl`] and [`text`] hold
//!   what the machine works on.
//! - [`op`], [`parselet`] and [`program`] hold what a program is made of.
//! - [`eval`] says what running an operation means, as mathematics, and
//!   [`run`] runs operations on a [`runtime`]; every run is proved to be
//!   what [`eval`] says.
//! - [`collect`] shapes the captures of a frame into one, and [`memo`] keeps
//!   what left-recursive blocks have matched.
//! - [`number`], [`resolve`] and [`finalize`] prepare a program: blocks get
//!   their identities, names become addresses, and the parselets are flagged
//!   as left-recursive and nullable. [`compiler`] holds the names, and
//!   [`iml`] the parselets that a compiler is still building.

pub mod capture;
pub mod ccl;
pub mod collect;
pub mod compiler;
pub mod error;
pub mod eval;
pub mod finalize;
pub mod iml;
pub mod memo;
pub mod number;
pub mod op;
pub mod parselet;
pub mod program;
pub mod reader;
pub mod resolve;
pub mod run;
pub mod runtime;
pub mod text;
pub mod value;
