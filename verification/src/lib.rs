//! Slack → Buzz archive importer.
//!
//! `parse` turns a Slack export into [`ir`] records, and `invite` works from
//! those records alone. They share no state beyond the IR file, which is what
//! lets either be re-run alone.

pub mod error;
pub mod export;
pub mod fmt;
pub mod invite;
pub mod ir;
pub mod ledger;
pub mod mrkdwn;
pub mod names;
pub mod order;
pub mod parse;
pub mod probe;
pub mod report;
pub mod room;
pub mod selection;
pub mod slack;
pub mod tally;
pub mod text;
