//! Game logic of a patience card game: a deck of hunter and animal cards,
//! a board of tableau rows, hidden animal zones and one free cell, the
//! rules for selecting, moving, undoing and winning.

pub mod card;
pub mod board;
pub mod rules;
pub mod game;
pub mod laws;
pub mod rule_laws;
