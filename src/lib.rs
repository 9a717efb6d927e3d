//! A tic-tac-toe game state with verified move rules, and a few ways of
//! computing Fibonacci numbers, each proved against one definition.

pub mod fib;
pub mod game;
