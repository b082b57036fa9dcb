//! Foosball league bookkeeping: player ratings, streaks, head-to-head
//! statistics, the rating-development table and the decisions behind the
//! league's web pages.

pub mod bbt_glue;
pub mod player;
pub mod bytes_order;
pub mod filters;
pub mod forms;
pub mod pages;
pub mod pvp;
pub mod ratings;
pub mod tsv;
