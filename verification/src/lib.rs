//! Core of a 6x6 Tak engine: position representation, legal-move machinery,
//! static evaluation and an iterative-deepening alpha-beta searcher.

pub mod bitboard;
pub mod board;
pub mod command;
pub mod correction;
pub mod eval;
pub mod history;
pub mod keys;
pub mod limit;
pub mod model;
pub mod movegen;
pub mod movepick;
pub mod notation;
pub mod perft;
pub mod pv;
pub mod report;
pub mod road;
pub mod rules;
pub mod search;
pub mod smash;
pub mod takmove;
pub mod thread;
pub mod tps;
pub mod tpsparse;
pub mod ttable;
pub mod types;
