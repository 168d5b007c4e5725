//! Verified core of TrEq, a terminal equalizer for PipeWire: the model of
//! hierarchically cascaded EQ profiles, the rules that edit and clean it, the
//! order in which its bands are applied to audio, the command line and the
//! menus of the terminal interface.

pub mod uid;
pub mod interfaces;
pub mod text;
pub mod band;
pub mod node;
pub mod profile;
pub mod processing;
pub mod helper;
pub mod dao;
pub mod filters;
pub mod app_state;
pub mod render;
