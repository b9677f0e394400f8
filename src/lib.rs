pub mod pixel;
pub mod format;
pub mod buffer;
pub mod run_handler;
pub mod seen_handler;
pub mod diff_handler;
pub mod encoder;
pub mod errors;
pub mod decoder;
pub mod lemmas;
pub mod round_trip;
