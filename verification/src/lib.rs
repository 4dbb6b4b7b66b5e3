//! Known-plaintext analysis of Enigma ciphers: the search logic, the
//! letter statistics it works from and the combinatorial helpers it uses.
pub mod solver;
pub mod utils;
pub mod utils32;
pub mod letters;
pub mod text;
pub mod breaker;
pub mod ioc_solver;
pub mod cli;
pub mod commands;
