//! The sticker picker: choose a pack, press a sticker to preview it, and
//! release on the same sticker to send it.
use vstd::prelude::*;
use std::path::PathBuf;
use crate::sticker::{PackId, StickerId, is_valid_id};
use crate::sticker::pack::{Pack, StickerDef, shown_name};
use crate::sticker::paths::{clone_path, lookup};
use crate::sticker::registry::{Registry, index_of_id};
use super::grid::{grid_rows, is_grid, row_views};

verus! {

pub enum Action {
    SelectPack(PackId),
    PressSticker { pack_id: PackId, sticker_id: StickerId, path: PathBuf },
    HoverWhilePressed(PathBuf),
    ReleaseOn { pack_id: PackId, sticker_id: StickerId },
    ReleaseOutside,
}

pub struct State {
    pub selected_pack: Option<PackId>,
    /// The sticker being pressed, compared with the one released on to
    /// tell a click (send) from a drag across stickers (preview only).
    pressed: Option<(PackId, StickerId)>,
    /// The image shown enlarged while a sticker is held.
    preview: Option<PathBuf>,
}

/// A sticker chosen for sending.
pub struct Selected {
    pub pack_id: PackId,
    pub sticker_id: StickerId,
}

pub open spec fn opt_id(o: Option<PackId>) -> Option<Seq<char>> {
    match o {
        Some(p) => Some(p@),
        None => None,
    }
}

impl State {
    /// The id of the pack whose stickers are shown.
    pub closed spec fn selected(&self) -> Option<Seq<char>> {
        opt_id(self.selected_pack)
    }

    pub closed spec fn pressed_ref(&self) -> Option<(Seq<char>, Seq<char>)> {
        match self.pressed {
            Some((p, s)) => Some((p@, s@)),
            None => None,
        }
    }

    pub closed spec fn preview_path(&self) -> Option<PathBuf> {
        self.preview
    }

    /// The picker opens on the first pack, if any; nothing is pressed.
    pub fn new(registry: &Registry) -> (r: State)
        ensures
            r.selected() == if registry@.len() > 0 {
                Some(registry@[0].id@)
            } else {
                None
            },
            r.pressed_ref() is None,
            r.preview_path() is None,
    {
        let selected_pack = match registry.get_index(0) {
            Some(p) => Some(p.id.duplicate()),
            None => None,
        };
        State { selected_pack, pressed: None, preview: None }
    }

    pub fn preview(&self) -> (r: Option<&PathBuf>)
        ensures
            match r {
                Some(p) => self.preview_path() == Some(*p),
                None => self.preview_path() is None,
            },
    {
        match &self.preview {
            Some(p) => Some(p),
            None => None,
        }
    }

    /// Applies a pointer action. A press starts a preview; moving over
    /// another sticker while pressed previews that one; releasing on the
    /// sticker that was pressed selects it for sending; any release ends
    /// the press and the preview.
    pub fn update(&mut self, action: Action) -> (r: Option<Selected>)
        ensures
            match action {
                Action::SelectPack(id) => {
                    &&& r is None
                    &&& final(self).selected() == Some(id@)
                    &&& final(self).pressed_ref() == old(self).pressed_ref()
                    &&& final(self).preview_path() == old(self).preview_path()
                },
                Action::PressSticker { pack_id, sticker_id, path } => {
                    &&& r is None
                    &&& final(self).selected() == old(self).selected()
                    &&& final(self).pressed_ref() == Some((pack_id@, sticker_id@))
                    &&& final(self).preview_path() == Some(path)
                },
                Action::HoverWhilePressed(path) => {
                    &&& r is None
                    &&& final(self).selected() == old(self).selected()
                    &&& final(self).pressed_ref() == old(self).pressed_ref()
                    &&& final(self).preview_path() == if old(self).pressed_ref() is Some {
                        Some(path)
                    } else {
                        old(self).preview_path()
                    }
                },
                Action::ReleaseOn { pack_id, sticker_id } => {
                    &&& final(self).selected() == old(self).selected()
                    &&& final(self).pressed_ref() is None
                    &&& final(self).preview_path() is None
                    &&& if old(self).pressed_ref() == Some((pack_id@, sticker_id@)) {
                        r matches Some(s) && s.pack_id@ == pack_id@ && s.sticker_id@ == sticker_id@
                    } else {
                        r is None
                    }
                },
                Action::ReleaseOutside => {
                    &&& r is None
                    &&& final(self).selected() == old(self).selected()
                    &&& final(self).pressed_ref() is None
                    &&& final(self).preview_path() is None
                },
            },
    {
        match action {
            Action::SelectPack(pack_id) => {
                self.selected_pack = Some(pack_id);
                None
            },
            Action::PressSticker { pack_id, sticker_id, path } => {
                self.pressed = Some((pack_id, sticker_id));
                self.preview = Some(path);
                None
            },
            Action::HoverWhilePressed(path) => {
                if self.pressed.is_some() {
                    self.preview = Some(path);
                }
                None
            },
            Action::ReleaseOn { pack_id, sticker_id } => {
                let was_click = match &self.pressed {
                    Some((p, s)) => p.same(&pack_id) && s.same(&sticker_id),
                    None => false,
                };
                self.pressed = None;
                self.preview = None;
                if was_click {
                    Some(Selected { pack_id, sticker_id })
                } else {
                    None
                }
            },
            Action::ReleaseOutside => {
                self.pressed = None;
                self.preview = None;
                None
            },
        }
    }
}

impl Default for State {
    fn default() -> (r: State)
        ensures
            r.selected() is None,
            r.pressed_ref() is None,
            r.preview_path() is None,
    {
        State { selected_pack: None, pressed: None, preview: None }
    }
}

/// A sticker shown in the picker: its id and cached image.
pub struct StickerView {
    pub id: StickerId,
    pub path: PathBuf,
}

/// A pack as the picker shows it.
pub struct PackView {
    pub id: PackId,
    pub name: String,
    pub cover_path: Option<PathBuf>,
    pub stickers: Vec<StickerView>,
}

pub type StickerViewView = (Seq<char>, PathBuf);

pub open spec fn sticker_view_views(s: Seq<StickerView>) -> Seq<StickerViewView> {
    s.map_values(|v: StickerView| (v.id@, v.path))
}

/// The stickers the picker shows for a pack: those of the manifest, in
/// order, whose image is cached and whose id is valid.
pub open spec fn shown_stickers(defs: Seq<StickerDef>, paths: Seq<(Seq<char>, PathBuf)>) -> Seq<StickerViewView>
    decreases defs.len(),
{
    if defs.len() == 0 {
        Seq::empty()
    } else {
        let rest = shown_stickers(defs.drop_last(), paths);
        let d = defs.last();
        match lookup(paths, d.id@) {
            Some(p) => if is_valid_id(d.id@) {
                rest.push((d.id@, p))
            } else {
                rest
            },
            None => rest,
        }
    }
}

/// Whether the picker shows a manifest sticker: its id is valid and its
/// image is cached.
pub open spec fn shown_pred(paths: Seq<(Seq<char>, PathBuf)>) -> spec_fn(StickerDef) -> bool {
    |d: StickerDef| is_valid_id(d.id@) && lookup(paths, d.id@) is Some
}

/// How the picker shows a sticker: its id and its cached image.
pub open spec fn shown_entry(paths: Seq<(Seq<char>, PathBuf)>) -> spec_fn(StickerDef) -> StickerViewView {
    |d: StickerDef| (d.id@, lookup(paths, d.id@)->0)
}

/// The picker shows the manifest's stickers filtered by "valid id and
/// cached image", in manifest order: a sticker whose image is missing is
/// left out on its own, and the stickers after it are still shown.
pub proof fn lemma_shown_is_filter(defs: Seq<StickerDef>, paths: Seq<(Seq<char>, PathBuf)>)
    ensures
        shown_stickers(defs, paths) == defs.filter(shown_pred(paths)).map_values(shown_entry(paths)),
    decreases defs.len(),
{
    if defs.len() > 0 {
        lemma_shown_is_filter(defs.drop_last(), paths);
        let pred = shown_pred(paths);
        let sub = defs.drop_last().filter(pred);
        let d = defs.last();
        assert(defs.filter(pred) == if pred(d) {
            sub.push(d)
        } else {
            sub
        }) by {
            reveal(Seq::filter);
        }
        if pred(d) {
            assert(sub.push(d).map_values(shown_entry(paths)) =~= sub.map_values(shown_entry(paths)).push(
                shown_entry(paths)(d),
            ));
            assert(shown_entry(paths)(d) == (d.id@, lookup(paths, d.id@)->0));
        }
    } else {
        assert(defs.filter(shown_pred(paths)).len() == 0) by {
            reveal(Seq::filter);
        }
        assert(defs.filter(shown_pred(paths)).map_values(shown_entry(paths)) =~= Seq::<StickerViewView>::empty());
    }
}

/// Every manifest sticker with a valid id and a cached image is shown,
/// with that image, whatever became of the stickers before it.
pub proof fn lemma_cached_sticker_shown(defs: Seq<StickerDef>, paths: Seq<(Seq<char>, PathBuf)>, k: int)
    requires
        0 <= k < defs.len(),
        is_valid_id(defs[k].id@),
        lookup(paths, defs[k].id@) is Some,
    ensures
        shown_stickers(defs, paths).contains((defs[k].id@, lookup(paths, defs[k].id@)->0)),
{
    lemma_shown_is_filter(defs, paths);
    let f = defs.filter(shown_pred(paths));
    defs.lemma_filter_contains(shown_pred(paths), k);
    let i = choose|i: int| 0 <= i < f.len() && f[i] == defs[k];
    assert(f.map_values(shown_entry(paths))[i] == (defs[k].id@, lookup(paths, defs[k].id@)->0));
}

impl PackView {
    /// The picker's view of a pack: its display name and the cached
    /// stickers with valid ids.
    pub fn of(pack: &Pack) -> (r: PackView)
        ensures
            r.id@ == pack.id@,
            r.name@ == shown_name(*pack),
            r.cover_path == pack.cover_path,
            sticker_view_views(r.stickers@) == shown_stickers(pack.manifest.stickers@, pack.sticker_paths@),
    {
        let defs = &pack.manifest.stickers;
        let n = defs.len();
        let mut stickers: Vec<StickerView> = Vec::new();
        let mut i: usize = 0;
        pack.sticker_paths.lemma_sorted();
        while i < n
            invariant
                defs == &pack.manifest.stickers,
                n == defs@.len(),
                i <= n,
                crate::sticker::paths::sorted_keys(pack.sticker_paths@),
                sticker_view_views(stickers@) == shown_stickers(defs@.take(i as int), pack.sticker_paths@),
            decreases n - i,
        {
            let ghost before = stickers@;
            assert(defs@.take(i + 1).drop_last() =~= defs@.take(i as int));
            assert(defs@.take(i + 1).last() == defs@[i as int]);
            match pack.sticker_paths.get(defs[i].id.as_str()) {
                Some(path) => match StickerId::new(defs[i].id.as_str()) {
                    Some(id) => {
                        let v = StickerView { id, path: clone_path(path) };
                        stickers.push(v);
                        assert(sticker_view_views(stickers@) =~= sticker_view_views(before).push((v.id@, v.path)));
                    },
                    None => {},
                },
                None => {},
            }
            i = i + 1;
        }
        assert(defs@.take(n as int) =~= defs@);
        let cover_path = match &pack.cover_path {
            Some(c) => Some(clone_path(c)),
            None => None,
        };
        PackView { id: pack.id.duplicate(), name: pack.display_name().to_owned(), cover_path, stickers }
    }
}

/// How many stickers a row of the picker's grid holds.
pub const PICKER_COLUMNS: usize = 4;

/// A pack's button in the picker's strip of packs: its cover (or, without
/// one, its name) and whether it is the selected pack.
pub struct PackButton {
    pub id: PackId,
    pub name: String,
    pub cover_path: Option<PathBuf>,
    pub selected: bool,
}

/// What the picker shows.
pub enum Screen {
    /// No pack is loaded: the picker says so.
    NoPacks,
    /// The strip of packs beside the selected pack's stickers, with the held
    /// sticker enlarged over them.
    Packs {
        buttons: Vec<PackButton>,
        /// The selected pack's stickers, `PICKER_COLUMNS` to a row; `None`
        /// ("select a pack") where no loaded pack is selected.
        grid: Option<Vec<Vec<StickerView>>>,
        preview: Option<PathBuf>,
    },
}

/// The position of the selected pack in the registry, if it is loaded.
pub open spec fn selected_index(s: Seq<Pack>, selected: Option<Seq<char>>) -> Option<int> {
    match selected {
        Some(id) => index_of_id(s, id),
        None => None,
    }
}

impl State {
    /// What the picker shows for the loaded packs.
    pub fn screen(&self, registry: &Registry) -> (r: Screen)
        ensures
            registry@.len() == 0 ==> r is NoPacks,
            registry@.len() > 0 ==> (r matches Screen::Packs { buttons, grid, preview } && {
                &&& buttons@.len() == registry@.len()
                &&& forall|i: int|
                    0 <= i < buttons@.len() ==> {
                        &&& (#[trigger] buttons@[i]).id@ == registry@[i].id@
                        &&& buttons@[i].name@ == shown_name(registry@[i])
                        &&& buttons@[i].cover_path == registry@[i].cover_path
                        &&& buttons@[i].selected == (self.selected() == Some(registry@[i].id@))
                    }
                &&& match selected_index(registry@, self.selected()) {
                    Some(i) => grid matches Some(rows) && {
                        let shown = row_views(rows@).flatten();
                        &&& is_grid(row_views(rows@), shown, PICKER_COLUMNS as nat)
                        &&& sticker_view_views(shown) == shown_stickers(
                            registry@[i].manifest.stickers@,
                            registry@[i].sticker_paths@,
                        )
                    },
                    None => grid is None,
                }
                &&& preview == self.preview_path()
            }),
    {
        if registry.is_empty() {
            return Screen::NoPacks;
        }
        let packs = registry.iter();
        let n = packs.len();
        let mut buttons: Vec<PackButton> = Vec::new();
        let mut i: usize = 0;
        while i < n
            invariant
                n == packs@.len(),
                n == registry@.len(),
                forall|j: int| 0 <= j < n ==> *packs@[j] == registry@[j],
                i <= n,
                buttons@.len() == i,
                forall|j: int|
                    0 <= j < i ==> {
                        &&& (#[trigger] buttons@[j]).id@ == registry@[j].id@
                        &&& buttons@[j].name@ == shown_name(registry@[j])
                        &&& buttons@[j].cover_path == registry@[j].cover_path
                        &&& buttons@[j].selected == (self.selected() == Some(registry@[j].id@))
                    },
            decreases n - i,
        {
            let p = packs[i];
            let selected = match &self.selected_pack {
                Some(s) => s.same(&p.id),
                None => false,
            };
            let cover_path = match &p.cover_path {
                Some(c) => Some(clone_path(c)),
                None => None,
            };
            buttons.push(PackButton { id: p.id.duplicate(), name: p.display_name().to_owned(), cover_path, selected });
            i = i + 1;
        }
        let grid = match &self.selected_pack {
            Some(id) => match registry.get(id) {
                Some(p) => {
                    let view = PackView::of(p);
                    let ghost items = view.stickers@;
                    let rows = grid_rows(view.stickers, PICKER_COLUMNS);
                    assert(row_views(rows@).flatten() == items);
                    Some(rows)
                },
                None => None,
            },
            None => None,
        };
        let preview = match &self.preview {
            Some(p) => Some(clone_path(p)),
            None => None,
        };
        Screen::Packs { buttons, grid, preview }
    }
}

} // verus!
