//! Hand tracking and drag interaction for a card game: an ordered registry of
//! cards, a single-pointer grip, and per-frame placement of every card.
pub mod hand;
pub mod motion;
pub mod drag;
pub mod table;
pub mod game;
