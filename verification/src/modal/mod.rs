//! The state and the decisions of the three sticker dialogs: the pack
//! information dialog, the pack manager and the sticker picker.
pub mod grid;
pub mod sticker_info;
pub mod sticker_manager;
pub mod sticker_picker;
