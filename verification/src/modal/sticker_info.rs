//! The dialog that shows one pack and offers its shareable address.
use vstd::prelude::*;
use std::path::PathBuf;
use crate::sticker::PackId;
use crate::sticker::pack::shown_name;
use crate::sticker::fetch::{browseable, to_browseable_url};
use crate::sticker::paths::clone_path;
use crate::sticker::registry::{Registry, index_of_id};
use crate::sticker::weburl::opt_text;
use super::grid::{grid_rows, is_grid, row_views};

verus! {

pub enum Action {
    CopyUrl(String),
}

/// What an action asks the surrounding program to do.
pub enum Effect {
    /// Put this text on the clipboard.
    CopyToClipboard(String),
}

pub struct State {
    pub pack_id: PackId,
}

/// What the dialog shows of a pack.
pub struct PackSnapshot {
    pub name: String,
    pub author: Option<String>,
    pub description: Option<String>,
    /// The shareable folder address.
    pub base_url: String,
    pub cover_path: Option<PathBuf>,
    /// The cached sticker images, in sticker-id order.
    pub stickers: Vec<PathBuf>,
}

impl State {
    pub fn new(pack_id: PackId) -> (r: State)
        ensures
            r.pack_id == pack_id,
    {
        State { pack_id }
    }

    /// Copying asks for the address to be put on the clipboard.
    pub fn update(&mut self, action: Action) -> (r: Effect)
        ensures
            final(self).pack_id == old(self).pack_id,
            match (action, r) {
                (Action::CopyUrl(u), Effect::CopyToClipboard(c)) => c == u,
            },
    {
        match action {
            Action::CopyUrl(url) => Effect::CopyToClipboard(url),
        }
    }

    /// What the dialog shows: `None` where the pack is no longer loaded.
    pub fn snapshot(&self, registry: &Registry) -> (r: Option<PackSnapshot>)
        ensures
            match index_of_id(registry@, self.pack_id@) {
                Some(i) => r matches Some(s) && {
                    let p = registry@[i];
                    &&& s.name@ == shown_name(p)
                    &&& opt_text(s.author) == opt_text(p.manifest.author)
                    &&& opt_text(s.description) == opt_text(p.manifest.description)
                    &&& s.base_url@ == browseable(p.base_url@).serialized
                    &&& s.cover_path == p.cover_path
                    &&& s.stickers@.len() == p.sticker_paths@.len()
                    &&& forall|k: int| 0 <= k < s.stickers@.len() ==> s.stickers@[k] == p.sticker_paths@[k].1
                },
                None => r is None,
            },
    {
        match registry.get(&self.pack_id) {
            Some(p) => {
                let author = match &p.manifest.author {
                    Some(a) => Some(a.clone()),
                    None => None,
                };
                let description = match &p.manifest.description {
                    Some(d) => Some(d.clone()),
                    None => None,
                };
                let cover_path = match &p.cover_path {
                    Some(c) => Some(clone_path(c)),
                    None => None,
                };
                let values = p.sticker_paths.values();
                let n = values.len();
                let mut stickers: Vec<PathBuf> = Vec::new();
                let mut k: usize = 0;
                while k < n
                    invariant
                        n == values@.len(),
                        n == p.sticker_paths@.len(),
                        forall|j: int| 0 <= j < n ==> *values@[j] == p.sticker_paths@[j].1,
                        k <= n,
                        stickers@.len() == k,
                        forall|j: int| 0 <= j < k ==> stickers@[j] == p.sticker_paths@[j].1,
                    decreases n - k,
                {
                    stickers.push(clone_path(values[k]));
                    k = k + 1;
                }
                let shown = to_browseable_url(&p.base_url);
                Some(PackSnapshot {
                    name: p.display_name().to_owned(),
                    author,
                    description,
                    base_url: shown.as_str().to_owned(),
                    cover_path,
                    stickers,
                })
            },
            None => None,
        }
    }
}

/// How many stickers a row of the dialog's grid holds.
pub const INFO_COLUMNS: usize = 5;

/// What the dialog shows of a pack, laid out.
pub struct InfoLayout {
    pub name: String,
    /// `by ` and the author, where the manifest names one.
    pub byline: Option<String>,
    pub description: Option<String>,
    pub cover_path: Option<PathBuf>,
    /// The sticker images, `INFO_COLUMNS` to a row.
    pub rows: Vec<Vec<PathBuf>>,
    /// What the copy button puts on the clipboard: the shareable address.
    pub share_url: String,
}

impl PackSnapshot {
    /// Lays out what the dialog shows.
    pub fn layout(self) -> (r: InfoLayout)
        ensures
            r.name == self.name,
            opt_text(r.byline) == match self.author {
                Some(a) => Some(seq!['b', 'y', ' '] + a@),
                None => None,
            },
            r.description == self.description,
            r.cover_path == self.cover_path,
            is_grid(row_views(r.rows@), self.stickers@, INFO_COLUMNS as nat),
            r.share_url == self.base_url,
    {
        let byline = match &self.author {
            Some(a) => {
                let mut line = String::new();
                let by = "by ";
                proof {
                    reveal_strlit("by ");
                }
                line.append(by);
                line.append(a.as_str());
                Some(line)
            },
            None => None,
        };
        let rows = grid_rows(self.stickers, INFO_COLUMNS);
        InfoLayout {
            name: self.name,
            byline,
            description: self.description,
            cover_path: self.cover_path,
            rows,
            share_url: self.base_url,
        }
    }
}

} // verus!
