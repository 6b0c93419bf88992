//! A reproducible terminal multiplexer comparison: the screen model, oracles, privacy filter,
//! report rules and run plans, with their contracts.

pub mod accepting;
pub mod adapters;
pub mod aliases;
pub mod arranging;
pub mod audit;
pub mod catalog;
pub mod cli;
pub mod clients;
pub mod cohorts;
pub mod config;
pub mod decimal;
pub mod document;
pub mod grid;
pub mod judging;
pub mod leading;
pub mod lifecycle;
pub mod manifest;
pub mod measure;
pub mod model;
pub mod operating;
pub mod oracle;
pub mod painting;
pub mod panes;
pub mod paths;
pub mod plan;
pub mod printing;
pub mod privacy;
pub mod process;
pub mod ps;
pub mod pty;
pub mod publishing;
pub mod reading;
pub mod recording;
pub mod replay;
pub mod report;
pub mod runner;
pub mod scoring;
pub mod screen;
pub mod standings;
pub mod storage;
pub mod suites;
pub mod sums;
pub mod tabling;
pub mod text;
pub mod textmap;
pub mod workloads;
