//! Packet decoding, combat accounting and loadout optimisation for the
//! Blue Protocol companion tools.

pub mod seqs;
pub mod wire;
pub mod text;
pub mod blob;
pub mod session;
pub mod frames;
pub mod transport;
pub mod event;
pub mod pb;
pub mod zones;
pub mod tables;
pub mod opcode;
pub mod state;
pub mod meter;
pub mod encounter;
pub mod dps_state;
pub mod labels;
pub mod fishing;
pub mod optimizer;
pub mod stats;
pub mod tracker;
pub mod bot;
pub mod saved;
pub mod chat;
pub mod threat;
pub mod cooldown;
pub mod bptimer;
pub mod attrs;
pub mod store;
pub mod packet_log;
pub mod window;
pub mod webhook;
pub mod preset;
pub mod history;
pub mod event_text;
