use openwiki::images::{
    batch_check, destination_check,
    check_review, cleanup_outcome, finish_scan, is_supported_image, is_supported_image_extension,
    manifest_location_check, pending_cleanup_step, restore_entry_check, select_reviewed, CleanupStep, OrphanCandidate, OrphanManifest,
};

fn cand(path: &str, size: u64, kind: &str) -> OrphanCandidate {
    OrphanCandidate { path: path.to_string(), size, kind: kind.to_string() }
}

fn strings(v: &[&str]) -> Vec<String> {
    v.iter().map(|s| s.to_string()).collect()
}

const STALE: &str = "Reviewed orphan list is stale or contains an unsafe path; run dry-run again";

#[test]
fn image_extensions_any_case() {
    for e in ["png", "jpg", "jpeg", "gif", "webp", "bmp", "tif", "tiff", "avif", "heic"] {
        assert!(is_supported_image_extension(Some(e)));
        assert!(is_supported_image_extension(Some(&e.to_uppercase())));
    }
    assert!(is_supported_image_extension(Some("JpEg")));
    assert!(!is_supported_image_extension(Some("txt")));
    assert!(!is_supported_image_extension(Some("")));
    assert!(!is_supported_image_extension(Some("png ")));
    assert!(!is_supported_image_extension(None));
}

#[test]
fn image_paths() {
    assert!(is_supported_image("/data/captures/a.PNG"));
    assert!(is_supported_image("photo.tiff"));
    assert!(!is_supported_image("/data/captures/notes.md"));
    assert!(!is_supported_image("/data/captures/png"));
    assert!(!is_supported_image("/data/captures/.png"));
}

#[test]
fn review_must_be_current() {
    let current = vec![cand("/c/a.png", 1, "captures"), cand("/c/b.png", 2, "captures")];
    assert_eq!(check_review(&current, &strings(&["/c/b.png", "/c/a.png"])), Ok(()));
    assert_eq!(check_review(&current, &[]), Ok(()));
    assert_eq!(check_review(&current, &strings(&["/c/a.png", "/c/a.png"])), Err(STALE.to_string()));
    assert_eq!(check_review(&current, &strings(&["/etc/passwd"])), Err(STALE.to_string()));
}

#[test]
fn selection_keeps_reviewed_of_kind_in_order() {
    let candidates = vec![
        cand("/c/a.png", 1, "captures"),
        cand("/t/a.png", 2, "thumbnails"),
        cand("/c/b.png", 3, "captures"),
        cand("/c/c.png", 4, "captures"),
    ];
    let reviewed = strings(&["/c/c.png", "/t/a.png", "/c/a.png"]);
    let caps = select_reviewed(&candidates, &reviewed, "captures");
    assert_eq!(caps, vec![cand("/c/a.png", 1, "captures"), cand("/c/c.png", 4, "captures")]);
    let thumbs = select_reviewed(&candidates, &reviewed, "thumbnails");
    assert_eq!(thumbs, vec![cand("/t/a.png", 2, "thumbnails")]);
    assert!(select_reviewed(&candidates, &[], "captures").is_empty());
}

#[test]
fn manifest_records_moves() {
    let mut m = OrphanManifest::new("20240101-000000".to_string());
    let a = cand("/c/a.png", 10, "captures");
    let b = cand("/c/b.png", 20, "captures");
    m.plan_move(&a, "/q/captures/a.png");
    assert_eq!(m.entries.len(), 1);
    assert_eq!(m.entries[0].status, "planned");
    assert_eq!(m.entries[0].quarantined_at, "20240101-000000");
    assert!(m.moved_entries().is_empty());
    m.confirm_last_move();
    assert_eq!(m.entries[0].status, "moved");
    m.plan_move(&b, "/q/captures/b.png");
    m.cancel_last_move();
    assert_eq!(m.entries.len(), 1);
    let moved = m.moved_entries();
    assert_eq!(moved.len(), 1);
    assert_eq!(moved[0].original_path, "/c/a.png");
    assert_eq!(moved[0].quarantine_path, "/q/captures/a.png");
    assert_eq!(moved[0].size, 10);
}

#[test]
fn manifest_cancel_undoes_plan() {
    let mut m = OrphanManifest::new("t".to_string());
    m.plan_move(&cand("/c/a.png", 1, "captures"), "/q/a.png");
    m.confirm_last_move();
    let before: Vec<(String, String)> =
        m.entries.iter().map(|e| (e.original_path.clone(), e.status.clone())).collect();
    m.plan_move(&cand("/c/b.png", 2, "captures"), "/q/b.png");
    m.cancel_last_move();
    let after: Vec<(String, String)> =
        m.entries.iter().map(|e| (e.original_path.clone(), e.status.clone())).collect();
    assert_eq!(before, after);
    let mut empty = OrphanManifest::new("t".to_string());
    empty.cancel_last_move();
    empty.confirm_last_move();
    assert!(empty.entries.is_empty());
}

#[test]
fn scan_sorts_by_path_and_totals() {
    let scan = finish_scan(vec![
        cand("/c/b.png", 5, "captures"),
        cand("/c/a.png", 7, "captures"),
        cand("/c/B.png", 1, "captures"),
        cand("/c/a.png", 9, "thumbnails"),
    ]);
    let paths: Vec<&str> = scan.candidates.iter().map(|c| c.path.as_str()).collect();
    assert_eq!(paths, vec!["/c/B.png", "/c/a.png", "/c/a.png", "/c/b.png"]);
    assert_eq!(scan.candidates[1].size, 7);
    assert_eq!(scan.candidates[2].size, 9);
    assert_eq!(scan.total_size, 22);
    let empty = finish_scan(Vec::new());
    assert!(empty.candidates.is_empty());
    assert_eq!(empty.total_size, 0);
}

#[test]
fn cleanup_steps() {
    assert_eq!(pending_cleanup_step(false, false, false, false), CleanupStep::Nothing);
    assert_eq!(pending_cleanup_step(true, false, true, true), CleanupStep::Refuse);
    assert_eq!(pending_cleanup_step(true, true, false, true), CleanupStep::Refuse);
    assert_eq!(pending_cleanup_step(true, true, true, false), CleanupStep::Refuse);
    assert_eq!(pending_cleanup_step(true, true, true, true), CleanupStep::Remove);
}

#[test]
fn cleanup_outcomes() {
    assert_eq!(cleanup_outcome(&CleanupStep::Nothing, Ok(())), Ok(false));
    assert_eq!(
        cleanup_outcome(&CleanupStep::Refuse, Ok(())),
        Err("Refusing to delete an image outside captures/.pending".to_string())
    );
    assert_eq!(cleanup_outcome(&CleanupStep::Remove, Ok(())), Ok(true));
    assert_eq!(
        cleanup_outcome(&CleanupStep::Remove, Err("busy".to_string())),
        Err("Failed to remove pending image: busy".to_string())
    );
}

#[test]
fn restore_checks() {
    assert_eq!(manifest_location_check(true, true), Ok(()));
    let outside = Err("Manifest is outside the OpenWiki quarantine directory".to_string());
    assert_eq!(manifest_location_check(false, true), outside);
    assert_eq!(manifest_location_check(true, false), outside);
    assert_eq!(restore_entry_check("/c/a.png", true, true, false), Ok(()));
    let unsafe_entry = Err("Manifest entry is unsafe or cannot be restored: /c/a.png".to_string());
    assert_eq!(restore_entry_check("/c/a.png", false, true, false), unsafe_entry);
    assert_eq!(restore_entry_check("/c/a.png", true, false, false), unsafe_entry);
    assert_eq!(restore_entry_check("/c/a.png", true, true, true), unsafe_entry);
}

#[test]
fn plain_file_names() {
    assert!(is_supported_image("a.PNG"));
    assert!(is_supported_image(".hidden.webp"));
    assert!(!is_supported_image(".png"));
    assert!(!is_supported_image("png"));
    assert!(!is_supported_image(".."));
    assert!(!is_supported_image("a.png."));
    assert!(!is_supported_image(""));
}

#[test]
fn quarantine_steps() {
    assert_eq!(batch_check(false, "b1"), Ok(()));
    assert_eq!(batch_check(true, "b1"), Err("Quarantine batch already exists: b1".to_string()));
    assert_eq!(destination_check(false, "/q/a.png"), Ok(()));
    assert_eq!(destination_check(true, "/q/a.png"), Err("Refusing to overwrite /q/a.png".to_string()));
    let mut m = OrphanManifest::new("t".to_string());
    m.plan_move(&cand("/c/a.png", 1, "capture"), "/q/a.png");
    assert_eq!(m.record_move_outcome(Ok(()), "/c/a.png"), Ok(()));
    assert_eq!(m.entries[0].status, "moved");
    m.plan_move(&cand("/c/b.png", 2, "capture"), "/q/b.png");
    assert_eq!(
        m.record_move_outcome(Err("denied".to_string()), "/c/b.png"),
        Err("Failed to quarantine /c/b.png: denied".to_string())
    );
    assert_eq!(m.entries.len(), 1);
    assert_eq!(m.moved_entries().len(), 1);
}
