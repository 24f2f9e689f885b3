use videovault::cover::{format_for_extension, CoverError, CoverFormat, CoverManager};
use videovault::source::{Listing, SourceEntry, SourceKind};

fn file(path: &str, size: u64) -> SourceEntry {
    SourceEntry { path: path.to_string(), kind: SourceKind::File { size, video: None } }
}

#[test]
fn test_detect_format() {
    let manager = CoverManager::new();

    assert!(matches!(manager.detect_format("cover.jpg"), Some(CoverFormat::JPG)));
    assert!(matches!(manager.detect_format("poster.png"), Some(CoverFormat::PNG)));
    assert!(matches!(manager.detect_format("thumb.bmp"), Some(CoverFormat::BMP)));
}

#[test]
fn test_is_cover_file() {
    let manager = CoverManager::new();

    assert!(manager.is_cover_file("cover.jpg"));
    assert!(manager.is_cover_file("poster.png"));
    assert!(manager.is_cover_file("thumb.bmp"));
    assert!(!manager.is_cover_file("video.mp4"));
    assert!(!manager.is_cover_file("document.pdf"));
}

#[test]
fn detect_format_knows_every_extension() {
    let manager = CoverManager::new();
    assert_eq!(manager.detect_format("/a/b.jpeg"), Some(CoverFormat::JPG));
    assert_eq!(manager.detect_format("/a/b.webp"), Some(CoverFormat::WebP));
    assert_eq!(manager.detect_format("/a/b.gif"), None);
    assert_eq!(manager.detect_format("/a/jpg"), None);
    assert_eq!(manager.detect_format("/a/.jpg"), None);
    assert_eq!(manager.detect_format(""), None);
}

#[test]
fn detect_format_ignores_case() {
    let manager = CoverManager::new();
    assert_eq!(manager.detect_format("COVER.JPG"), Some(CoverFormat::JPG));
    assert_eq!(manager.detect_format("Poster.PnG"), Some(CoverFormat::PNG));
    assert_eq!(manager.detect_format("x.WEBP"), Some(CoverFormat::WebP));
}

#[test]
fn format_for_extension_wants_lowercase() {
    assert_eq!(format_for_extension("jpg"), Some(CoverFormat::JPG));
    assert_eq!(format_for_extension("jpeg"), Some(CoverFormat::JPG));
    assert_eq!(format_for_extension("png"), Some(CoverFormat::PNG));
    assert_eq!(format_for_extension("bmp"), Some(CoverFormat::BMP));
    assert_eq!(format_for_extension("webp"), Some(CoverFormat::WebP));
    assert_eq!(format_for_extension("JPG"), None);
    assert_eq!(format_for_extension(""), None);
}

#[test]
fn create_cover_info_fills_the_record() {
    let manager = CoverManager::new();
    let info = manager.create_cover_info("/films/movie.jpg".to_string(), 1234).unwrap();
    assert_eq!(info.path, "/films/movie.jpg");
    assert_eq!(info.name, "movie.jpg");
    assert_eq!(info.size, 1234);
    assert_eq!(info.format, CoverFormat::JPG);
    assert_eq!(info.dimensions, None);
    assert_eq!(info.associated_video, None);
}

#[test]
fn create_cover_info_rejects_other_files() {
    let manager = CoverManager::new();
    let err = manager.create_cover_info("/films/movie.mp4".to_string(), 1).unwrap_err();
    assert_eq!(err, CoverError::UnsupportedFormat);
    assert_eq!(err.message(), "unsupported image format");
}

#[test]
fn find_associated_video_takes_the_first_extension_that_exists() {
    let manager = CoverManager::new();
    let existing = vec![
        "/films/movie.webm".to_string(),
        "/films/movie.mkv".to_string(),
        "/films/other.mp4".to_string(),
    ];
    assert_eq!(
        manager.find_associated_video("/films/movie.jpg", &existing),
        Some("/films/movie.mkv".to_string())
    );
    assert_eq!(manager.find_associated_video("/films/lonely.jpg", &existing), None);
    assert_eq!(manager.find_associated_video("/", &existing), None);
}

#[test]
fn scan_covers_links_cover_and_video() {
    let mut manager = CoverManager::new();
    let listing = Listing::Entries(vec![file("/d/movie.mp4", 10), file("/d/movie.jpg", 20)]);
    let found = manager.scan_covers(&listing);
    assert_eq!(found.len(), 1);
    assert_eq!(found[0].path, "/d/movie.jpg");
    assert_eq!(found[0].name, "movie.jpg");
    assert_eq!(found[0].size, 20);
    assert_eq!(found[0].format, CoverFormat::JPG);
    assert_eq!(found[0].associated_video, Some("/d/movie.mp4".to_string()));

    let cover = manager.find_cover_for_video("/d/movie.mp4").unwrap();
    assert_eq!(cover.path, "/d/movie.jpg");
    assert_eq!(manager.get_cover("/d/movie.jpg").unwrap().size, 20);
    assert!(manager.get_cover("/d/movie.mp4").is_none());
    assert!(manager.find_cover_for_video("/d/other.mp4").is_none());
}

#[test]
fn scan_covers_skips_directories_and_unknown_entries() {
    let mut manager = CoverManager::new();
    let listing = Listing::Entries(vec![
        SourceEntry {
            path: "/d/folder.jpg".to_string(),
            kind: SourceKind::Directory(Listing::Unreadable),
        },
        SourceEntry { path: "/d/odd.png".to_string(), kind: SourceKind::Other },
        file("/d/notes.txt", 3),
        file("/d/b.png", 4),
        file("/d/a.PNG", 5),
    ]);
    let found = manager.scan_covers(&listing);
    assert_eq!(found.len(), 2);
    assert_eq!(found[0].path, "/d/b.png");
    assert_eq!(found[0].associated_video, None);
    assert_eq!(found[1].path, "/d/a.PNG");
    let all = manager.get_all_covers();
    assert_eq!(all.len(), 2);
    assert_eq!(all[0].path, "/d/b.png");
    assert_eq!(all[1].path, "/d/a.PNG");
}

#[test]
fn scan_covers_of_an_unreadable_directory_finds_nothing() {
    let mut manager = CoverManager::new();
    manager.scan_covers(&Listing::Entries(vec![file("/d/a.jpg", 1)]));
    let found = manager.scan_covers(&Listing::Unreadable);
    assert!(found.is_empty());
    assert_eq!(manager.get_all_covers().len(), 1);
}

#[test]
fn scanning_again_replaces_the_record_and_keeps_its_place() {
    let mut manager = CoverManager::new();
    manager.scan_covers(&Listing::Entries(vec![file("/d/a.jpg", 1), file("/d/b.jpg", 2)]));
    manager.scan_covers(&Listing::Entries(vec![file("/d/a.jpg", 9)]));
    let all = manager.get_all_covers();
    assert_eq!(all.len(), 2);
    assert_eq!(all[0].path, "/d/a.jpg");
    assert_eq!(all[0].size, 9);
    assert_eq!(all[1].path, "/d/b.jpg");
}

#[test]
fn cover_exists_needs_presence_and_extension() {
    let manager = CoverManager::new();
    let existing = vec!["/d/a.jpg".to_string(), "/d/a.mp4".to_string()];
    assert!(manager.cover_exists("/d/a.jpg", &existing));
    assert!(!manager.cover_exists("/d/a.mp4", &existing));
    assert!(!manager.cover_exists("/d/b.jpg", &existing));
}

#[test]
fn live_lookup_prefers_the_cached_cover_while_it_exists() {
    let mut manager = CoverManager::new();
    manager.scan_covers(&Listing::Entries(vec![
        file("/d/movie.mp4", 10),
        file("/d/movie.webp", 20),
        file("/d/movie.png", 30),
    ]));
    // The scan linked the video to the cover that was listed last.
    let existing = vec!["/d/movie.png".to_string(), "/d/movie.webp".to_string()];
    assert_eq!(
        manager.get_video_cover_path("/d/movie.mp4", &existing),
        Some("/d/movie.png".to_string())
    );
    // Once the cached cover is gone the probe order decides.
    let existing = vec!["/d/movie.webp".to_string(), "/d/movie.bmp".to_string()];
    assert_eq!(
        manager.get_video_cover_path("/d/movie.mp4", &existing),
        Some("/d/movie.bmp".to_string())
    );
    assert_eq!(manager.get_video_cover_path("/d/movie.mp4", &Vec::new()), None);
}

#[test]
fn live_lookup_probes_in_extension_order() {
    let manager = CoverManager::new();
    let existing = vec![
        "/d/movie.webp".to_string(),
        "/d/movie.jpeg".to_string(),
        "/d/movie.png".to_string(),
    ];
    assert_eq!(
        manager.get_video_cover_path("/d/movie.mkv", &existing),
        Some("/d/movie.jpeg".to_string())
    );
    assert_eq!(manager.get_video_cover_path("/d/other.mkv", &existing), None);
}

#[test]
fn clear_cache_forgets_everything() {
    let mut manager = CoverManager::new();
    manager.scan_covers(&Listing::Entries(vec![file("/d/movie.mp4", 10), file("/d/movie.jpg", 20)]));
    manager.clear_cache();
    assert!(manager.get_all_covers().is_empty());
    assert!(manager.get_cover("/d/movie.jpg").is_none());
    assert!(manager.find_cover_for_video("/d/movie.mp4").is_none());
}

#[test]
fn a_file_beside_is_found_in_a_directory_spelled_with_a_dot() {
    let manager = CoverManager::new();
    let existing = vec!["./movie.mp4".to_string(), "./movie.jpg".to_string()];
    assert_eq!(manager.get_video_cover_path("./movie.mp4", &existing), Some("./movie.jpg".to_string()));
    assert_eq!(manager.find_associated_video("./movie.jpg", &existing), Some("./movie.mp4".to_string()));
    assert!(manager.cover_exists("./movie.jpg", &existing));

    let mut manager = CoverManager::new();
    manager.scan_covers(&Listing::Entries(vec![file("./movie.mp4", 1), file("./movie.jpg", 2)]));
    let cover = manager.find_cover_for_video("./movie.mp4").unwrap();
    assert_eq!(cover.path, "./movie.jpg");
    assert_eq!(cover.associated_video, Some("./movie.mp4".to_string()));
}

#[test]
fn a_file_beside_is_found_whatever_the_spelling_of_the_directory() {
    let manager = CoverManager::new();
    // The candidate is spelled as the parent of the path is; what exists may
    // be spelled otherwise.
    let existing = vec!["/a/b/./movie.mp4".to_string(), "/a//b/movie.jpg".to_string()];
    assert_eq!(
        manager.get_video_cover_path("/a/b/movie.mp4", &existing),
        Some("/a/b/movie.jpg".to_string())
    );
    assert_eq!(
        manager.get_video_cover_path("/a//b//movie.mp4", &existing),
        Some("/a//b/movie.jpg".to_string())
    );
    assert_eq!(
        manager.find_associated_video("/a/./b/movie.jpg", &existing),
        Some("/a/./b/movie.mp4".to_string())
    );
    assert_eq!(manager.find_associated_video("/a/c/movie.jpg", &existing), None);
    assert!(manager.cover_exists("/a/b//movie.jpg", &existing));
}

#[test]
fn covers_are_filed_by_place() {
    let mut manager = CoverManager::new();
    manager.scan_covers(&Listing::Entries(vec![
        file("/d/./movie.mp4", 1),
        file("/d/./movie.jpg", 2),
    ]));
    assert_eq!(manager.get_cover("/d/movie.jpg").unwrap().path, "/d/./movie.jpg");
    assert_eq!(manager.get_cover("/d//movie.jpg/").unwrap().size, 2);
    assert!(manager.get_cover("/d/movie.png").is_none());
    assert_eq!(manager.find_cover_for_video("/d/movie.mp4").unwrap().path, "/d/./movie.jpg");
    assert_eq!(manager.find_cover_for_video("/d//movie.mp4").unwrap().path, "/d/./movie.jpg");
    // A second spelling of the same cover replaces the record and adds none.
    manager.scan_covers(&Listing::Entries(vec![file("/d//movie.jpg", 9)]));
    let all = manager.get_all_covers();
    assert_eq!(all.len(), 1);
    assert_eq!(all[0].path, "/d//movie.jpg");
    assert_eq!(all[0].size, 9);
}
