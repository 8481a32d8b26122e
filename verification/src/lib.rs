//! Score keeping for the Crémeux Discord server: decimal text, the score
//! table, the leaderboard, the commands that change scores and the rewards
//! that reactions grant.

pub mod decimal;
pub mod airtable;
pub mod commands;
pub mod color;
pub mod handle_reaction;
pub mod score;
