pub mod config;
pub mod modal;
pub mod sticker;
pub mod text;
