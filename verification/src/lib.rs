//! A verified core for an agent harness: message normalisation, context
//! compaction, permission decisions, skills, hooks, recovery, background
//! work, scheduling and team protocols.
pub mod text;
pub mod message;
pub mod compact;
pub mod permission;
pub mod skill;
pub mod recovery;
pub mod cron;
pub mod scheduler;
pub mod background;
pub mod team;
pub mod prompt;
pub mod agent;
pub mod tools;
