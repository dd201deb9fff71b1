pub mod adts;
pub mod audio;
pub mod backend;
pub mod beat;
pub mod control_laws;
pub mod downmix;
pub mod dsd;
pub mod dsd_windows;
pub mod exclusive;
pub mod laws;
pub mod opus;
pub mod player;
pub mod queue;
pub mod resample;
pub mod state;
