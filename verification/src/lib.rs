//! Verified core of rSTRF, a satellite tracking toolkit for radio observations.
//!
//! The library holds the parts of the tool that decide and compute on plain values: the strf
//! file header grammar and writer, the TLE and frequency catalog line parsers, the layout of the
//! spectrogram mipmap and its CPU builder, the async result cache state machine and the
//! prediction status built on it, the plot's mouse and keyboard modes and its marks, the pane
//! layout plan, the pass-image batch mode, the satellite manager's form and table logic, the
//! configuration's debug form, and the small enums shared by the panes and windows.
use vstd::prelude::*;

pub mod async_cache;
pub mod catalog;
pub mod config;
pub mod form;
pub mod interaction;
pub mod layout;
pub mod marks;
pub mod mipmap;
pub mod mipmap_build;
pub mod pane_tree;
pub mod pass_png;
pub mod predictions;
pub mod sample_format;
pub mod sat_table;
pub mod strf_header;
pub mod strf_write;
pub mod text;
pub mod theme;
pub mod tle;

verus! {

} // verus!
