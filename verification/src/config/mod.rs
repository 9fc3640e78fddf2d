//! Settings read from the user's configuration.
pub mod sticker;
