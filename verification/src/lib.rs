//! Verified core of a multichannel microphone-array recorder.

pub mod audio;
pub mod beamformer;
pub mod doa;
pub mod pipeline_worker;
pub mod single;
pub mod text;
pub mod wav;
pub mod drc;
pub mod pipeline;
pub mod app_config;
pub mod events;
pub mod recordings;
pub mod recorder;
pub mod refusal;
pub mod controller;
pub mod wasapi;
pub mod web;
