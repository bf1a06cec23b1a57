//! A word-guessing game: a match engine that classifies each letter of a guess
//! against a secret word, and the lifecycle of a game that guesses are played on.

pub mod engine;
pub mod game;
