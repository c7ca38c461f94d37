//! Decoding of the byte stream sent by a NeuroSky EEG headset into typed
//! sensor packets, with the configuration used to reach the headset.

pub mod comm;
pub mod device;
pub mod laws;
