//! A sandboxed interpreter for the eight-instruction tape language, with a
//! static bracket check, a step ceiling and a wall-clock ceiling, plus a few
//! small helpers of the chat bot that embeds it.
pub mod brainfuck;
pub mod text;
pub mod collatz;
pub mod currency;
pub mod dice;
pub mod command;
pub mod links;
