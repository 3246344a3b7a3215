//! Sparse-pixel feature matching, calibration and project rules for the
//! ImageSitter image-signature tool, with their contracts proved by Verus.

pub mod calibrate;
pub mod capture;
pub mod codec;
pub mod commands;
pub mod clock;
pub mod engine;
pub mod features;
pub mod frame;
pub mod layout;
pub mod model;
pub mod order;
pub mod project;
pub mod registry;
pub mod replay;
pub mod samples;
pub mod search;
pub mod text;
pub mod validate;
pub mod windows;
