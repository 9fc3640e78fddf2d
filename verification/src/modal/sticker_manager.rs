//! The pack manager dialog: add a pack by its address, remove packs.
use vstd::prelude::*;
use std::path::PathBuf;
use crate::sticker::PackId;
use crate::sticker::pack::shown_name;
use crate::sticker::paths::clone_path;
use crate::sticker::registry::Registry;
use crate::sticker::weburl::{WebUrl, url_parse, opt_text};
use crate::text::{trim, trimmed};

verus! {

pub enum Action {
    UrlChanged(String),
    Submit,
    AddResult(Result<PackId, String>),
    Remove(PackId),
    RemoveResult(Result<(), String>),
}

/// What an action asks the surrounding program to do.
pub enum Effect {
    Nothing,
    /// Fetch the pack at this address, add it and save the configuration.
    AddPack(WebUrl),
    /// Remove this pack and save the configuration.
    RemovePack(PackId),
}

pub struct State {
    url_input: String,
    busy: bool,
    error: Option<String>,
}

/// One line of the pack list.
pub struct PackRow {
    pub id: PackId,
    pub name: String,
    pub cover: Option<PathBuf>,
}

impl State {
    pub closed spec fn input_text(&self) -> Seq<char> {
        self.url_input@
    }

    pub closed spec fn is_busy(&self) -> bool {
        self.busy
    }

    pub closed spec fn error_text(&self) -> Option<Seq<char>> {
        opt_text(self.error)
    }

    /// An empty address, not busy, no error.
    pub fn new() -> (r: State)
        ensures
            r.input_text() == Seq::<char>::empty(),
            !r.is_busy(),
            r.error_text() is None,
    {
        State { url_input: String::new(), busy: false, error: None }
    }

    pub fn url_input(&self) -> (r: &str)
        ensures
            r@ == self.input_text(),
    {
        self.url_input.as_str()
    }

    pub fn busy(&self) -> (r: bool)
        ensures
            r == self.is_busy(),
    {
        self.busy
    }

    pub fn error(&self) -> (r: Option<&str>)
        ensures
            match r {
                Some(e) => self.error_text() == Some(e@),
                None => self.error_text() is None,
            },
    {
        match &self.error {
            Some(e) => Some(e.as_str()),
            None => None,
        }
    }

    /// Applies a user action or the outcome of an earlier request.
    ///
    /// Typing replaces the address and clears the error. Submitting, when
    /// not busy, trims the address: an empty one and one that does not parse
    /// are reported as errors; a valid one starts adding the pack. Removing,
    /// when not busy, starts removing the pack. Outcomes end the busy state;
    /// a successful add clears the address, a failure is shown as the error.
    pub fn update(&mut self, action: Action) -> (r: Effect)
        ensures
            match action {
                Action::UrlChanged(s) => {
                    &&& r is Nothing
                    &&& final(self).input_text() == s@
                    &&& final(self).is_busy() == old(self).is_busy()
                    &&& final(self).error_text() is None
                },
                Action::Submit => if old(self).is_busy() {
                    &&& r is Nothing
                    &&& final(self).input_text() == old(self).input_text()
                    &&& final(self).is_busy()
                    &&& final(self).error_text() == old(self).error_text()
                } else if trimmed(old(self).input_text()).len() == 0 {
                    &&& r is Nothing
                    &&& final(self).input_text() == old(self).input_text()
                    &&& !final(self).is_busy()
                    &&& final(self).error_text() == Some("URL is empty"@)
                } else if url_parse(trimmed(old(self).input_text())) is None {
                    &&& r is Nothing
                    &&& final(self).input_text() == old(self).input_text()
                    &&& !final(self).is_busy()
                    &&& final(self).error_text() == Some("not a valid URL"@)
                } else {
                    &&& r matches Effect::AddPack(u) && Some(u@) == url_parse(
                        trimmed(old(self).input_text()),
                    )
                    &&& final(self).input_text() == old(self).input_text()
                    &&& final(self).is_busy()
                    &&& final(self).error_text() is None
                },
                Action::AddResult(res) => {
                    &&& r is Nothing
                    &&& !final(self).is_busy()
                    &&& match res {
                        Ok(_) => {
                            &&& final(self).input_text() == Seq::<char>::empty()
                            &&& final(self).error_text() == old(self).error_text()
                        },
                        Err(msg) => {
                            &&& final(self).input_text() == old(self).input_text()
                            &&& final(self).error_text() == Some(msg@)
                        },
                    }
                },
                Action::Remove(id) => if old(self).is_busy() {
                    &&& r is Nothing
                    &&& final(self).input_text() == old(self).input_text()
                    &&& final(self).is_busy()
                    &&& final(self).error_text() == old(self).error_text()
                } else {
                    &&& r matches Effect::RemovePack(x) && x == id
                    &&& final(self).input_text() == old(self).input_text()
                    &&& final(self).is_busy()
                    &&& final(self).error_text() is None
                },
                Action::RemoveResult(res) => {
                    &&& r is Nothing
                    &&& !final(self).is_busy()
                    &&& final(self).input_text() == old(self).input_text()
                    &&& match res {
                        Ok(_) => final(self).error_text() == old(self).error_text(),
                        Err(msg) => final(self).error_text() == Some(msg@),
                    }
                },
            },
    {
        match action {
            Action::UrlChanged(s) => {
                self.url_input = s;
                self.error = None;
                Effect::Nothing
            },
            Action::Submit => {
                if self.busy {
                    return Effect::Nothing;
                }
                let t = trim(self.url_input.as_str());
                if t.unicode_len() == 0 {
                    self.error = Some("URL is empty".to_owned());
                    return Effect::Nothing;
                }
                match WebUrl::parse(t) {
                    Some(url) => {
                        self.busy = true;
                        self.error = None;
                        Effect::AddPack(url)
                    },
                    None => {
                        self.error = Some("not a valid URL".to_owned());
                        Effect::Nothing
                    },
                }
            },
            Action::AddResult(result) => {
                self.busy = false;
                match result {
                    Ok(_) => {
                        self.url_input = String::new();
                    },
                    Err(msg) => {
                        self.error = Some(msg);
                    },
                }
                Effect::Nothing
            },
            Action::Remove(pack_id) => {
                if self.busy {
                    return Effect::Nothing;
                }
                self.busy = true;
                self.error = None;
                Effect::RemovePack(pack_id)
            },
            Action::RemoveResult(result) => {
                self.busy = false;
                if let Err(msg) = result {
                    self.error = Some(msg);
                }
                Effect::Nothing
            },
        }
    }
}

impl Default for State {
    fn default() -> (r: State)
        ensures
            r.input_text() == Seq::<char>::empty(),
            !r.is_busy(),
            r.error_text() is None,
    {
        State::new()
    }
}

/// The lines of the pack list, in registry order: id, shown name and
/// cached cover.
pub fn pack_rows(registry: &Registry) -> (r: Vec<PackRow>)
    ensures
        r@.len() == registry@.len(),
        forall|i: int|
            0 <= i < r@.len() ==> {
                &&& (#[trigger] r@[i]).id@ == registry@[i].id@
                &&& r@[i].name@ == shown_name(registry@[i])
                &&& r@[i].cover == registry@[i].cover_path
            },
{
    let packs = registry.iter();
    let n = packs.len();
    let mut out: Vec<PackRow> = Vec::new();
    let mut i: usize = 0;
    while i < n
        invariant
            n == packs@.len(),
            n == registry@.len(),
            forall|j: int| 0 <= j < n ==> *packs@[j] == registry@[j],
            i <= n,
            out@.len() == i,
            forall|j: int|
                0 <= j < i ==> {
                    &&& (#[trigger] out@[j]).id@ == registry@[j].id@
                    &&& out@[j].name@ == shown_name(registry@[j])
                    &&& out@[j].cover == registry@[j].cover_path
                },
        decreases n - i,
    {
        let p = packs[i];
        let cover = match &p.cover_path {
            Some(c) => Some(clone_path(c)),
            None => None,
        };
        out.push(PackRow { id: p.id.duplicate(), name: p.display_name().to_owned(), cover });
        i = i + 1;
    }
    out
}

/// What the pack manager shows besides its title and its address field.
pub struct Layout {
    /// One line per loaded pack.
    pub rows: Vec<PackRow>,
    /// Where no pack is loaded, the text inviting the user to add one.
    pub empty_hint: Option<String>,
    /// The add button's label: an ellipsis while a request runs, else `Add`.
    pub add_label: String,
    /// Whether the add button can be pressed: not while a request runs.
    pub add_enabled: bool,
    /// `error: ` and the message, where there is an error to show.
    pub error_line: Option<String>,
}

impl State {
    /// What the dialog shows for the loaded packs.
    pub fn layout(&self, registry: &Registry) -> (r: Layout)
        ensures
            r.rows@.len() == registry@.len(),
            forall|i: int|
                0 <= i < r.rows@.len() ==> {
                    &&& (#[trigger] r.rows@[i]).id@ == registry@[i].id@
                    &&& r.rows@[i].name@ == shown_name(registry@[i])
                    &&& r.rows@[i].cover == registry@[i].cover_path
                },
            r.add_label@ == if self.is_busy() {
                seq!['\u{2026}']
            } else {
                seq!['A', 'd', 'd']
            },
            r.add_enabled == !self.is_busy(),
            opt_text(r.empty_hint) == if registry@.len() == 0 {
                Some("No packs configured. Add one below to get started."@)
            } else {
                None
            },
            opt_text(r.error_line) == match self.error_text() {
                Some(e) => Some(seq!['e', 'r', 'r', 'o', 'r', ':', ' '] + e),
                None => None,
            },
    {
        let rows = pack_rows(registry);
        let empty_hint = if registry.is_empty() {
            Some("No packs configured. Add one below to get started.".to_owned())
        } else {
            None
        };
        let add_label = if self.busy {
            let busy = "\u{2026}";
            proof {
                reveal_strlit("\u{2026}");
            }
            busy.to_owned()
        } else {
            let add = "Add";
            proof {
                reveal_strlit("Add");
            }
            add.to_owned()
        };
        let error_line = match &self.error {
            Some(e) => {
                let mut line = String::new();
                let prefix = "error: ";
                proof {
                    reveal_strlit("error: ");
                }
                line.append(prefix);
                line.append(e.as_str());
                Some(line)
            },
            None => None,
        };
        Layout { rows, empty_hint, add_label, add_enabled: !self.busy, error_line }
    }
}

} // verus!
