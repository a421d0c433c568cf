//! Generation, rendering and parsing of "turbofish"-style nested
//! generic-type expressions such as `Vec::<Option::<i32>, u64>`.
//!
//! The expression tree is built by a generator driven by an injected
//! randomness source, rendered to text deterministically, and parsed back
//! from text; rendering and parsing are proved to round-trip.

pub mod token;
pub mod expr;
pub mod grammar;
pub mod rng;
pub mod generate;
pub mod web;

pub use token::TypeToken;
pub use expr::TurbofishExpression;
pub use expr::{render, render_bytes, to_text};
pub use grammar::{parse, ParseError};
pub use generate::{generate, generate_reverse, vocab_token};
pub use rng::{RandomSource, Lcg, ConstantSource};
pub use web::{fragment_encode, percent_decode_bytes, redirect_target, resolve_segment};
