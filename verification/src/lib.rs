//! Verified core of a Celeste auto splitter: run counters, the split grammar
//! read from a LiveSplit `.lss` file and its evaluator, the decoding of game
//! memory reads, the discovery of Everest's session chain, the tick
//! decisions of the splitter engine, and the bookkeeping of the splitter
//! testers.
pub mod counter;
pub mod text;
pub mod settings_xml;
pub mod state;
pub mod splits;
pub mod memory;
pub mod game;
pub mod engine;
pub mod format;
pub mod tester;
pub mod everest;
pub mod view;
