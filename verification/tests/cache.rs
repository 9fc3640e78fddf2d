use std::path::PathBuf;

use sticker::config::sticker::Sticker;
use sticker::sticker::cache::{attach_cached, cover_job, pack_cache_dir, sticker_jobs, stickers_cache_dir};
use sticker::sticker::pack::{cache_filename_for, Pack, PackManifest, StickerDef};
use sticker::sticker::weburl::WebUrl;
use sticker::sticker::{PackId, StickerId};

fn pack(cover: Option<&str>, files: &[(&str, &str)]) -> Pack {
    let stickers = files
        .iter()
        .map(|(i, f)| StickerDef { id: i.to_string(), file: f.to_string(), emoji: String::new(), tags: Vec::new() })
        .collect();
    let manifest = PackManifest {
        id: "dsk".to_string(),
        name: "Desk".to_string(),
        author: None,
        description: None,
        version: 1,
        cover: cover.map(|c| c.to_string()),
        stickers,
    };
    Pack::new(PackId::new("dsk").unwrap(), WebUrl::parse("https://example.com/packs/dsk/").unwrap(), manifest)
}

#[test]
fn cache_dirs_nest_under_the_root() {
    let root = PathBuf::from("/home/u/.cache/halloy");
    assert_eq!(stickers_cache_dir(&root), PathBuf::from("/home/u/.cache/halloy/stickers"));
    assert_eq!(pack_cache_dir(&root, "dsk"), PathBuf::from("/home/u/.cache/halloy/stickers/dsk"));
}

#[test]
fn sticker_jobs_resolve_each_file() {
    let p = pack(None, &[("01", "01.webp"), ("02", "https://cdn.example.org/x.png")]);
    let root = PathBuf::from("/c");
    let jobs = sticker_jobs(&p, &root);
    assert_eq!(jobs.len(), 2);
    assert_eq!(jobs[0].sticker_id, "01");
    assert_eq!(jobs[0].url.as_str(), "https://example.com/packs/dsk/01.webp");
    assert_eq!(jobs[0].dest, PathBuf::from("/c/stickers/dsk/01.webp"));
    assert_eq!(jobs[1].url.as_str(), "https://cdn.example.org/x.png");
    assert_eq!(jobs[1].dest, PathBuf::from("/c/stickers/dsk").join(cache_filename_for("https://cdn.example.org/x.png")));
    assert!(jobs[1].dest.file_name().unwrap().to_str().unwrap().starts_with("_ext_"));
}

#[test]
fn job_destinations_never_leave_the_pack_folder() {
    let files = [("a", "../x.png"), ("b", "../../y.png"), ("c", "/abs/z.png"), ("d", "img/w.png"), ("e", ".."), ("f", "a/../../v.png"), ("g", "ok.png")];
    let p = pack(Some("../../cover.png"), &files);
    let root = PathBuf::from("/c");
    let folder = PathBuf::from("/c/stickers/dsk");
    let jobs = sticker_jobs(&p, &root);
    assert_eq!(jobs.len(), files.len());
    for job in &jobs {
        assert!(job.dest.starts_with(&folder), "{:?}", job.dest);
        assert!(!job.dest.components().any(|c| c == std::path::Component::ParentDir), "{:?}", job.dest);
    }
    assert_eq!(jobs[3].dest, PathBuf::from("/c/stickers/dsk/img/w.png"));
    assert_eq!(jobs[6].dest, PathBuf::from("/c/stickers/dsk/ok.png"));
    let (_, cover) = cover_job(&p, &root).unwrap();
    assert_eq!(cover.parent(), Some(folder.as_path()));
}

#[test]
fn dot_pack_ids_get_a_folder_of_their_own() {
    let root = PathBuf::from("/c");
    for id in [".", ".."] {
        let dir = pack_cache_dir(&root, id);
        let hash = seahash::hash(id.as_bytes());
        assert_eq!(dir, PathBuf::from(format!("/c/stickers/_id_{hash:016x}")));
    }
    assert_eq!(pack_cache_dir(&root, "...").to_str().unwrap(), "/c/stickers/...");
}

#[test]
fn cover_job_only_when_named() {
    let root = PathBuf::from("/c");
    let (u, d) = cover_job(&pack(Some("cover.png"), &[]), &root).unwrap();
    assert_eq!(u.as_str(), "https://example.com/packs/dsk/cover.png");
    assert_eq!(d, PathBuf::from("/c/stickers/dsk/cover.png"));
    assert!(cover_job(&pack(None, &[]), &root).is_none());
}

#[test]
fn attach_cached_records_downloads() {
    let mut p = pack(Some("cover.png"), &[("01", "01.webp"), ("02", "02.webp"), ("03", "03.webp")]);
    let root = PathBuf::from("/c");
    let cover = cover_job(&p, &root);
    let mut jobs = sticker_jobs(&p, &root);
    jobs.remove(2);
    jobs.reverse();
    attach_cached(&mut p, cover, jobs);
    assert_eq!(p.cover_path, Some(PathBuf::from("/c/stickers/dsk/cover.png")));
    assert_eq!(p.sticker_paths.len(), 2);
    assert_eq!(p.sticker_path(&StickerId::new("01").unwrap()), Some(&PathBuf::from("/c/stickers/dsk/01.webp")));
    assert_eq!(p.sticker_path(&StickerId::new("02").unwrap()), Some(&PathBuf::from("/c/stickers/dsk/02.webp")));
    assert!(p.sticker_path(&StickerId::new("03").unwrap()).is_none());
    assert_eq!(p.manifest.stickers.len(), 3);
    attach_cached(&mut p, None, Vec::new());
    assert!(p.cover_path.is_none());
    assert_eq!(p.sticker_paths.len(), 0);
}

#[test]
fn sticker_config_defaults() {
    let c = Sticker::default();
    assert!(c.enabled);
    assert_eq!(c.max_size_px, 200);
    assert_eq!(c.max_manifest_bytes, 65536);
    assert_eq!(c.max_image_bytes, 524288);
    assert_eq!(c.max_stickers_per_pack, 120);
    assert!(c.packs.is_empty());
}
