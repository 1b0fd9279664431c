//! Loomix: an eight-strip, eight-bus audio mixer.
//!
//! The library holds the mixer's state, its control protocol, the routing, the
//! effects of its signal path, and the decisions of its device layer. It is
//! written over a number type and the elementary functions of that type; those
//! functions, the audio hardware and the window live around it.

use vstd::prelude::*;

pub mod audio_loop;
pub mod biquad;
pub mod bus;
pub mod bus_mode;
pub mod channel_layout;
pub mod clock;
pub mod command;
pub mod command_laws;
pub mod compressor;
pub mod connect;
pub mod control;
pub mod control_laws;
pub mod convergence;
pub mod denoiser;
pub mod device;
pub mod device_callback;
pub mod device_report;
pub mod device_wiring;
pub mod drift;
pub mod drift_laws;
pub mod duration;
pub mod dynamics_laws;
pub mod elementary;
pub mod engine;
pub mod engine_io;
pub mod eq3;
pub mod eq_channel;
pub mod eq_file;
pub mod exact;
pub mod fader;
pub mod filter_laws;
pub mod fixed;
pub mod gate;
pub mod hog;
pub mod hotplug;
pub mod ideal;
pub mod intellipan;
pub mod io_driver;
pub mod ioproc;
pub mod isolation;
pub mod karaoke;
pub mod knob_curve;
pub mod labels;
pub mod limiter;
pub mod master_clock;
pub mod meter;
pub mod mix;
pub mod mix_laws;
pub mod num;
pub mod pan;
pub mod panel_laws;
pub mod parametric_eq;
pub mod patch;
pub mod path_laws;
pub mod precision;
pub mod render;
pub mod resample;
pub mod resample_laws;
pub mod retune;
pub mod ring;
pub mod rt_assert;
pub mod session_laws;
pub mod shared_count;
pub mod signal_path;
pub mod snapshot;
pub mod soak;
pub mod strip;
pub mod strip_dsp;
pub mod strip_path;
pub mod text;
pub mod tone_laws;
pub mod transparency;
pub mod tuning;

verus! {

/// Input strips: five hardware, three virtual.
pub const NUM_STRIPS: usize = 8;

/// Output buses.
pub const NUM_BUSES: usize = 8;

/// Channels of every strip and bus, in the order FL FR FC SW RL RR SL SR.
pub const CHANNELS: usize = 8;

/// One sample on every channel.
pub type Frame<S> = [S; CHANNELS];

pub const CH_FL: usize = 0;

pub const CH_FR: usize = 1;

pub const CH_FC: usize = 2;

pub const CH_SW: usize = 3;

pub const CH_RL: usize = 4;

pub const CH_RR: usize = 5;

pub const CH_SL: usize = 6;

pub const CH_SR: usize = 7;

} // verus!
