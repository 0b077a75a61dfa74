//! A game master's companion: a dice-notation language with a parser,
//! evaluator and canonical printer, and the bookkeeping types of an encounter.

pub mod config;
pub mod db;
pub mod dice;
pub mod game;
pub mod num;
pub mod preferences;
pub mod services;
pub mod state;
pub mod text;
