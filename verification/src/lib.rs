//! Patchwork's verified core: the node graph and its evaluation order, node
//! kinds and their ports, undo history, the automation protocol's commands, the
//! layout of compiled audio chains, the audio engine's routing, parameter slots,
//! the text handling of node evaluation, and the reading of MIDI messages and
//! dropped files.

use vstd::prelude::*;

pub mod atomic_f32;
pub mod compile;
pub mod engine;
pub mod eval;
pub mod graph;
pub mod http;
pub mod input;
pub mod jsonpath;
pub mod mcp;
pub mod model;
pub mod node_type;
pub mod params;
pub mod ports;
pub mod schedule;
pub mod text;
pub mod undo;
pub mod waveform;
