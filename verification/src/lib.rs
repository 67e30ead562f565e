//! Arithmetization of the RIPEMD-160 compression function.
//!
//! The crate turns one 512-bit block and a five-word chaining value into a
//! table of cells, copy constraints and enabled selectors, and states the
//! polynomial identities that every enabled row has to meet. It is written
//! for a PLONK-style proving backend, but does not depend on one: columns,
//! polynomials and rows are plain data that a backend is fed.
//!
//! - [`word`], [`mixing`], [`witness`] and [`hash`]: 32-bit words as field
//!   values, the witness of one round step, and the compression function as
//!   mathematics.
//! - [`gate`], [`plonk`], [`config`] and [`configure`]: where the values of a
//!   step sit in its window, and the gates that state its equations.
//! - [`table`], [`chip`], [`round`], [`compress`] and [`trace`]: the rows of
//!   one compression, step by step.
//! - [`schedule`]: the round schedules of the two lines.
//! - [`soundness`] and [`meaning`]: why the rows meet the gates, and what the
//!   gates prove.

pub mod chip;
pub mod compress;
pub mod config;
pub mod configure;
pub mod gate;
pub mod hash;
pub mod meaning;
pub mod mixing;
pub mod plonk;
pub mod round;
pub mod schedule;
pub mod soundness;
pub mod table;
pub mod trace;
pub mod witness;
pub mod word;
