//! The `[sticker]` section of the configuration.
use vstd::prelude::*;
use crate::sticker::weburl::WebUrl;

verus! {

/// The `[sticker]` settings.
#[derive(Debug)]
pub struct Sticker {
    pub enabled: bool,
    pub max_size_px: u32,
    /// Reject `pack.json` responses larger than this many bytes.
    pub max_manifest_bytes: usize,
    /// Reject individual sticker images larger than this many bytes during
    /// fetch.
    pub max_image_bytes: usize,
    /// Keep at most this many stickers per pack.
    pub max_stickers_per_pack: usize,
    pub packs: Vec<PackEntry>,
}

/// One `[[sticker.packs]]` entry.
#[derive(Debug)]
pub struct PackEntry {
    pub url: WebUrl,
    pub label: Option<String>,
}

impl Default for Sticker {
    fn default() -> (r: Sticker)
        ensures
            r.enabled,
            r.max_size_px == 200,
            r.max_manifest_bytes == 64 * 1024,
            r.max_image_bytes == 512 * 1024,
            r.max_stickers_per_pack == 120,
            r.packs@.len() == 0,
    {
        Sticker {
            enabled: true,
            max_size_px: 200,
            max_manifest_bytes: 64 * 1024,
            max_image_bytes: 512 * 1024,
            max_stickers_per_pack: 120,
            packs: Vec::new(),
        }
    }
}

} // verus!
