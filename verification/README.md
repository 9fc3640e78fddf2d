# sticker

Sticker packs for an IRC client: a pack is a `pack.json` manifest and a folder
of images at a public address (usually a GitHub repository). This crate holds
the logic of the feature, verified with Verus; the program around it (network,
files, shared state) is in `app/`.

- `src/sticker/` — pack and sticker ids, the wire tag (`pack/sticker`), pack
  manifests and where their files resolve, GitHub address normalisation, the
  ordered pack registry, the most-recently-sent list, the sticker image cache
  layout, and the update of the `[[sticker.packs]]` entries of `config.toml`.
- `src/modal/` — the state machines and screen layouts of the sticker picker,
  the pack manager and the pack information dialog.
- `src/config/` — the `[sticker]` settings and their defaults.
- `src/text.rs` — white space, trimming, path segments and hex rendering.
- `tests/` — tests of the library on concrete values.
- `app/` — downloads (`reqwest`), JSON and TOML files, the shared registry and
  recents list.
