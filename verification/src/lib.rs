//! Name-resolution and query-aggregation engine for a game-statistics
//! chat bot: a fuzzy index from typed names to canonical ids, a typed
//! dispatcher for parameterized remote queries, and the ranking logic
//! that turns matchup payloads into bounded best/worst lists.

pub mod catalog;
pub mod constanthero;
pub mod matchup;
pub mod query;
pub mod resolver;
pub mod search;
pub mod winrate;
