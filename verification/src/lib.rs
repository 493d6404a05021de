//! Extraction of tournament results from bracket markup: the teams of a
//! tournament page, and the matches of its bracket with the score of each
//! game.
//!
//! `page` holds the document tree and the questions asked of it. `popup` and
//! `roster` say where on a page each fact stands and read it. `bracket`,
//! `pairing`, `game` and `team` turn what was read into matches, and
//! `tournament` puts teams and matches together. `discovery` finds the way
//! from page to page. Nothing here touches the network: a caller fetches
//! the pages and follows the redirects, and hands both over.

pub mod bracket;
pub mod calendar;
pub mod discovery;
pub mod game;
pub mod page;
pub mod pairing;
pub mod popup;
pub mod redirects;
pub mod roster;
pub mod team;
pub mod text;
pub mod tournament;
