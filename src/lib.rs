//! Exhaustive classification of deals of a patience game in which a card may
//! be moved onto its left neighbour, or onto the card three places to its
//! left, when the two share a suit or a rank.

pub mod card;
pub mod deck;
pub mod game;
pub mod search;
