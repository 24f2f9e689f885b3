use videovault::cover::CoverManager;
use videovault::folder::{BuildError, FolderManager};
use videovault::node::{
    create_directory_node, create_empty_directory_node, find_first_cover_in_children, DirectoryNode,
};
use videovault::source::{Listing, SourceEntry, SourceKind};
use videovault::video::{FileFacts, FrameRate, VideoInfo, VideoMetadata, VideoProcessor};
use videovault::walk::{
    build_in_bounded_pool, build_node, concurrent_child, count_covered, process_video_files,
    walk_concurrently, ScanLimits,
};

fn video(path: &str) -> VideoInfo {
    VideoProcessor::new().create_video_info(
        path.to_string(),
        FileFacts { size: 100, created: None, modified: None },
        None,
    )
}

fn video_file(path: &str) -> SourceEntry {
    SourceEntry { path: path.to_string(), kind: SourceKind::File { size: 100, video: Some(video(path)) } }
}

fn plain_file(path: &str) -> SourceEntry {
    SourceEntry { path: path.to_string(), kind: SourceKind::File { size: 5, video: None } }
}

fn dir(path: &str, entries: Vec<SourceEntry>) -> SourceEntry {
    SourceEntry { path: path.to_string(), kind: SourceKind::Directory(Listing::Entries(entries)) }
}

fn unreadable(path: &str) -> SourceEntry {
    SourceEntry { path: path.to_string(), kind: SourceKind::Directory(Listing::Unreadable) }
}

fn limits() -> ScanLimits {
    ScanLimits { depth_limit: -1, ceiling: 100, max_entries: 10000 }
}

fn sample() -> Listing {
    Listing::Entries(vec![
        dir(
            "/r/a",
            vec![
                video_file("/r/a/one.mp4"),
                plain_file("/r/a/one.jpg"),
                video_file("/r/a/two.mkv"),
                dir("/r/a/deep", vec![video_file("/r/a/deep/three.avi"), plain_file("/r/a/deep/three.png")]),
            ],
        ),
        plain_file("/r/readme.txt"),
        dir("/r/b", vec![]),
        unreadable("/r/c"),
        SourceEntry { path: "/r/odd".to_string(), kind: SourceKind::Other },
        dir("/r/d", vec![video_file("/r/d/four.webm"), plain_file("/r/d/four.jpeg")]),
    ])
}

fn covers_of(listings: Vec<&Listing>) -> CoverManager {
    let mut covers = CoverManager::new();
    for l in listings {
        covers.scan_covers(l);
    }
    covers
}

fn sample_covers() -> CoverManager {
    let a = Listing::Entries(vec![
        video_file("/r/a/one.mp4"),
        plain_file("/r/a/one.jpg"),
        video_file("/r/a/two.mkv"),
    ]);
    let deep = Listing::Entries(vec![video_file("/r/a/deep/three.avi"), plain_file("/r/a/deep/three.png")]);
    let d = Listing::Entries(vec![video_file("/r/d/four.webm"), plain_file("/r/d/four.jpeg")]);
    covers_of(vec![&a, &deep, &d])
}

fn check_aggregation(node: &DirectoryNode, covers: &CoverManager) {
    let own_covered =
        node.videos.iter().filter(|v| covers.find_cover_for_video(&v.path).is_some()).count();
    let child_videos: usize = node.children.iter().map(|c| c.video_count).sum();
    let child_covers: usize = node.children.iter().map(|c| c.cover_count).sum();
    assert_eq!(node.video_count, node.videos.len() + child_videos, "videos of {}", node.path);
    assert_eq!(node.cover_count, own_covered + child_covers, "covers of {}", node.path);
    assert!(node.is_directory);
    for c in &node.children {
        check_aggregation(c, covers);
    }
}

#[test]
fn counts_add_up_at_every_node() {
    let covers = sample_covers();
    let tree = build_node("/r", &sample(), &covers, 0, limits(), false);
    check_aggregation(&tree, &covers);
    assert_eq!(tree.video_count, 4);
    assert_eq!(tree.cover_count, 3);
    assert_eq!(tree.videos.len(), 0);
    assert_eq!(tree.children.len(), 4);
    let a = &tree.children[0];
    assert_eq!((a.video_count, a.cover_count, a.videos.len()), (3, 2, 2));
    assert_eq!((a.children[0].video_count, a.children[0].cover_count), (1, 1));
    let names: Vec<&str> = tree.children.iter().map(|c| c.name.as_str()).collect();
    assert_eq!(names, vec!["a", "b", "c", "d"]);
    assert_eq!(tree.name, "r");
    assert_eq!(tree.path, "/r");
}

#[test]
fn the_concurrent_walk_builds_the_same_tree() {
    let covers = sample_covers();
    let sequential = build_node("/r", &sample(), &covers, 0, limits(), false);
    let concurrent = build_node("/r", &sample(), &covers, 0, limits(), true);
    assert_eq!(sequential, concurrent);
    check_aggregation(&concurrent, &covers);
}

#[test]
fn a_pool_of_any_size_builds_the_same_tree() {
    let covers = sample_covers();
    let expected = build_node("/r", &sample(), &covers, 0, limits(), false);
    for threads in [0, 1, 2, 7] {
        assert_eq!(build_in_bounded_pool(threads, "/r", &sample(), &covers, 0, limits()), expected);
    }
    assert_eq!(walk_concurrently("/r", &sample(), &covers, 0, limits()), expected);
    let mut manager = FolderManager::new();
    let id = manager.add_root_folder("/r".to_string(), None);
    for threads in [1, 3] {
        manager.set_max_threads(threads);
        assert_eq!(manager.build_directory_tree_parallel(&id, &sample(), &covers), Ok(expected.clone()));
        assert_eq!(manager.build_tree_recursive_parallel("/r", &sample(), &covers, 0, -1), expected);
    }
}

#[test]
fn only_directories_give_children() {
    let covers = CoverManager::new();
    let d = dir("/r/d", vec![video_file("/r/d/v.mp4")]);
    let child = concurrent_child(&d, &covers, 1, limits()).unwrap();
    assert_eq!(child.path, "/r/d");
    assert_eq!(child.video_count, 1);
    assert!(concurrent_child(&plain_file("/r/f"), &covers, 1, limits()).is_none());
    assert!(concurrent_child(&video_file("/r/f.mp4"), &covers, 1, limits()).is_none());
    let other = SourceEntry { path: "/r/o".to_string(), kind: SourceKind::Other };
    assert!(concurrent_child(&other, &covers, 1, limits()).is_none());
}

#[test]
fn the_concurrent_walk_keeps_every_subdirectory_once() {
    let mut entries = Vec::new();
    for i in 0..200 {
        let d = format!("/r/d{}", i);
        entries.push(dir(&d, vec![video_file(&format!("{}/v.mp4", d))]));
        entries.push(plain_file(&format!("/r/f{}.txt", i)));
    }
    let listing = Listing::Entries(entries);
    let covers = CoverManager::new();
    let tree = build_node("/r", &listing, &covers, 0, limits(), true);
    assert_eq!(tree.children.len(), 200);
    for (i, c) in tree.children.iter().enumerate() {
        assert_eq!(c.path, format!("/r/d{}", i));
        assert_eq!(c.video_count, 1);
    }
    assert_eq!(tree.video_count, 200);
    assert_eq!(tree, build_node("/r", &listing, &covers, 0, limits(), false));
}

#[test]
fn own_videos_decide_the_cover() {
    // The first video has a cover: that cover stands for the directory,
    // whatever the children hold.
    let listing = Listing::Entries(vec![
        dir("/d/sub", vec![video_file("/d/sub/x.mp4"), plain_file("/d/sub/x.jpg")]),
        video_file("/d/v1.mp4"),
        plain_file("/d/v1.png"),
        video_file("/d/v2.mp4"),
        plain_file("/d/v2.jpg"),
    ]);
    let sub = Listing::Entries(vec![video_file("/d/sub/x.mp4"), plain_file("/d/sub/x.jpg")]);
    let covers = covers_of(vec![&listing, &sub]);
    let tree = build_node("/d", &listing, &covers, 0, limits(), false);
    assert_eq!(tree.cover_path, Some("/d/v1.png".to_string()));
    assert_eq!(tree.children[0].cover_path, Some("/d/sub/x.jpg".to_string()));
    assert_eq!((tree.video_count, tree.cover_count), (3, 3));
}

#[test]
fn a_first_video_without_cover_leaves_the_directory_without_cover() {
    let listing = Listing::Entries(vec![
        video_file("/d/v1.mp4"),
        video_file("/d/v2.mp4"),
        plain_file("/d/v2.jpg"),
        dir("/d/sub", vec![video_file("/d/sub/x.mp4"), plain_file("/d/sub/x.jpg")]),
    ]);
    let sub = Listing::Entries(vec![video_file("/d/sub/x.mp4"), plain_file("/d/sub/x.jpg")]);
    let covers = covers_of(vec![&listing, &sub]);
    let tree = build_node("/d", &listing, &covers, 0, limits(), false);
    assert_eq!(tree.cover_path, None);
    assert_eq!((tree.video_count, tree.cover_count), (3, 2));
}

#[test]
fn without_own_videos_the_children_are_searched_depth_first() {
    let c1 = create_empty_directory_node("/d/c1");
    let c2 = create_directory_node("/d/c2", vec![], vec![], 0, 0, Some("/d/c2/x.jpg".to_string()));
    assert_eq!(c1.cover_path, None);
    assert!(c1.children.is_empty());
    assert_eq!(find_first_cover_in_children(&vec![c1, c2]), Some("/d/c2/x.jpg".to_string()));

    // A cover below the first child comes before the second child's own.
    let inner = create_directory_node("/d/c1/in", vec![], vec![], 0, 0, Some("inner.jpg".to_string()));
    let c1 = create_directory_node("/d/c1", vec![inner], vec![], 0, 0, None);
    let c2 = create_directory_node("/d/c2", vec![], vec![], 0, 0, Some("second.jpg".to_string()));
    assert_eq!(find_first_cover_in_children(&vec![c1, c2]), Some("inner.jpg".to_string()));

    // A child's own cover comes before anything below it.
    let inner = create_directory_node("/d/c1/in", vec![], vec![], 0, 0, Some("inner.jpg".to_string()));
    let c1 = create_directory_node("/d/c1", vec![inner], vec![], 0, 0, Some("own.jpg".to_string()));
    assert_eq!(find_first_cover_in_children(&vec![c1]), Some("own.jpg".to_string()));
    assert_eq!(find_first_cover_in_children(&vec![]), None);
}

#[test]
fn a_directory_without_videos_takes_the_cover_of_its_children() {
    let covers = sample_covers();
    let tree = build_node("/r", &sample(), &covers, 0, limits(), false);
    // `/r/a` has own videos and its first has a cover.
    assert_eq!(tree.children[0].cover_path, Some("/r/a/one.jpg".to_string()));
    assert_eq!(tree.cover_path, Some("/r/a/one.jpg".to_string()));

    let listing = Listing::Entries(vec![
        dir("/p/c1", vec![]),
        dir("/p/c2", vec![video_file("/p/c2/x.mp4"), plain_file("/p/c2/x.jpg")]),
    ]);
    let c2 = Listing::Entries(vec![video_file("/p/c2/x.mp4"), plain_file("/p/c2/x.jpg")]);
    let covers = covers_of(vec![&c2]);
    let tree = build_node("/p", &listing, &covers, 0, limits(), false);
    assert_eq!(tree.children[0].cover_path, None);
    assert_eq!(tree.cover_path, Some("/p/c2/x.jpg".to_string()));
}

#[test]
fn a_movie_with_its_cover() {
    let listing = Listing::Entries(vec![video_file("/d/movie.mp4"), plain_file("/d/movie.jpg")]);
    let mut covers = CoverManager::new();
    covers.scan_covers(&listing);
    let mut manager = FolderManager::new();
    let id = manager.add_root_folder("/d".to_string(), None);
    for parallel in [true, false] {
        manager.set_parallel_scan_enabled(parallel);
        let tree = manager.build_directory_tree(&id, &listing, &covers).unwrap();
        assert_eq!(tree.video_count, 1);
        assert_eq!(tree.cover_count, 1);
        assert_eq!(tree.videos.len(), 1);
        assert_eq!(tree.videos[0].path, "/d/movie.mp4");
        assert_eq!(tree.cover_path, Some("/d/movie.jpg".to_string()));
        assert!(tree.children.is_empty());
    }
    assert_eq!(covers.find_cover_for_video("/d/movie.mp4").unwrap().path, "/d/movie.jpg");
    let existing = vec!["/d/movie.mp4".to_string(), "/d/movie.jpg".to_string()];
    assert_eq!(covers.get_video_cover_path("/d/movie.mp4", &existing), Some("/d/movie.jpg".to_string()));
}

#[test]
fn an_unreadable_subdirectory_gives_an_empty_node() {
    let listing = Listing::Entries(vec![
        dir("/r/ok", vec![video_file("/r/ok/v.mp4")]),
        dir("/r/mid", vec![unreadable("/r/mid/locked")]),
    ]);
    let covers = CoverManager::new();
    let mut manager = FolderManager::new();
    let id = manager.add_root_folder("/r".to_string(), None);
    let tree = manager.build_directory_tree(&id, &listing, &covers).unwrap();
    let locked = &tree.children[1].children[0];
    assert_eq!(locked.path, "/r/mid/locked");
    assert_eq!(locked.name, "locked");
    assert_eq!(locked.video_count, 0);
    assert_eq!(locked.cover_count, 0);
    assert!(locked.children.is_empty());
    assert!(locked.videos.is_empty());
    assert_eq!(locked.cover_path, None);
    assert_eq!(tree.video_count, 1);
    assert_eq!(*locked, create_empty_directory_node("/r/mid/locked"));
}

#[test]
fn an_unreadable_root_gives_an_empty_tree() {
    let covers = CoverManager::new();
    let tree = build_node("/r", &Listing::Unreadable, &covers, 0, limits(), false);
    assert_eq!(tree, create_empty_directory_node("/r"));
}

#[test]
fn a_depth_limit_of_zero_reads_nothing() {
    let covers = sample_covers();
    let mut manager = FolderManager::new();
    let id = manager.add_root_folder("/r".to_string(), None);
    manager.set_max_depth(&id, 0);
    for parallel in [true, false] {
        manager.set_parallel_scan_enabled(parallel);
        let tree = manager.build_directory_tree(&id, &sample(), &covers).unwrap();
        assert!(tree.children.is_empty());
        assert!(tree.videos.is_empty());
        assert_eq!(tree.video_count, 0);
        assert_eq!(tree.cover_count, 0);
        assert_eq!(tree.cover_path, None);
        assert_eq!(tree.path, "/r");
    }
}

#[test]
fn the_depth_limit_cuts_the_tree() {
    let covers = sample_covers();
    let manager = FolderManager::new();
    let tree = manager.build_tree_recursive("/r", &sample(), &covers, 0, 1);
    assert_eq!(tree.children.len(), 4);
    assert!(tree.children.iter().all(|c| c.children.is_empty() && c.video_count == 0));
    assert_eq!(tree.video_count, 0);

    let tree = manager.build_tree_recursive("/r", &sample(), &covers, 0, 2);
    assert_eq!(tree.video_count, 3);
    assert_eq!(tree.children[0].children.len(), 1);
    assert_eq!(tree.children[0].children[0].video_count, 0);

    let tree = manager.build_tree_recursive_parallel("/r", &sample(), &covers, 0, 3);
    assert_eq!(tree.video_count, 4);
    assert_eq!(tree, manager.build_tree_recursive("/r", &sample(), &covers, 0, -1));
    // A walk that starts at the limit reads nothing.
    let tree = manager.build_tree_recursive("/r", &sample(), &covers, 5, 5);
    assert_eq!(tree, create_empty_directory_node("/r"));
}

#[test]
fn the_ceiling_stops_both_walks() {
    let covers = CoverManager::new();
    let listing = Listing::Entries(vec![dir("/r/a", vec![dir("/r/a/b", vec![video_file("/r/a/b/v.mp4")])])]);
    let mut manager = FolderManager::new();
    // By default directories down to depth 100 are read.
    assert_eq!(manager.build_tree_recursive("/r", &listing, &covers, 0, -1).video_count, 1);
    assert_eq!(manager.build_tree_recursive("/r", &listing, &covers, 98, -1).video_count, 1);
    assert_eq!(manager.build_tree_recursive("/r", &listing, &covers, 99, -1).video_count, 0);
    assert_eq!(
        manager.build_tree_recursive("/r", &listing, &covers, 101, -1),
        create_empty_directory_node("/r")
    );
    manager.set_max_scan_depth(1);
    // Depth 0 and 1 are read, depth 2 lies beyond the ceiling.
    for tree in [
        manager.build_tree_recursive("/r", &listing, &covers, 0, -1),
        manager.build_tree_recursive_parallel("/r", &listing, &covers, 0, -1),
    ] {
        assert_eq!(tree.children[0].children.len(), 1);
        assert_eq!(tree.children[0].children[0].video_count, 0);
        assert_eq!(tree.video_count, 0);
    }
    for depth in [2, 3, 100, i32::MAX] {
        assert_eq!(
            manager.build_tree_recursive("/r", &listing, &covers, depth, -1),
            create_empty_directory_node("/r")
        );
        assert_eq!(
            manager.build_tree_recursive_parallel("/r", &listing, &covers, depth, -1),
            create_empty_directory_node("/r")
        );
    }
}

#[test]
fn switching_the_concurrent_scan_changes_no_tree() {
    let covers = sample_covers();
    let mut manager = FolderManager::new();
    let id = manager.add_root_folder("/r".to_string(), None);
    for (ceiling, limit, cap) in [(100, -1, 10000), (1, -1, 10000), (0, -1, 3), (5, 2, 2), (-1, -1, 9)] {
        manager.set_max_scan_depth(ceiling);
        manager.set_max_depth(&id, limit);
        manager.set_max_files_per_dir(cap);
        manager.set_parallel_scan_enabled(true);
        let concurrent = manager.build_directory_tree(&id, &sample(), &covers).unwrap();
        manager.set_parallel_scan_enabled(false);
        let sequential = manager.build_directory_tree(&id, &sample(), &covers).unwrap();
        assert_eq!(concurrent, sequential, "ceiling {} limit {} cap {}", ceiling, limit, cap);
        for depth in [0, 1, 2, 100] {
            assert_eq!(
                manager.build_tree_recursive("/r", &sample(), &covers, depth, limit),
                manager.build_tree_recursive_parallel("/r", &sample(), &covers, depth, limit)
            );
        }
    }
}

#[test]
fn a_movie_with_its_cover_in_a_directory_of_any_spelling() {
    for d in [".", "./", "/a//b", "/cwd/./videos", "/a/b/.", "/a/b/", "videos", "/"] {
        let video_path = std::path::Path::new(d).join("movie.mp4").to_string_lossy().to_string();
        let cover_path = std::path::Path::new(d).join("movie.jpg").to_string_lossy().to_string();
        let listing = Listing::Entries(vec![video_file(&video_path), plain_file(&cover_path)]);
        let mut covers = CoverManager::new();
        let found = covers.scan_covers(&listing);
        assert_eq!(found.len(), 1, "in {:?}", d);
        let cover = covers.find_cover_for_video(&video_path).unwrap();
        assert_eq!(cover.path, cover_path, "in {:?}", d);
        let mut manager = FolderManager::new();
        let id = manager.add_root_folder(d.to_string(), None);
        for parallel in [true, false] {
            manager.set_parallel_scan_enabled(parallel);
            let tree = manager.build_directory_tree(&id, &listing, &covers).unwrap();
            assert_eq!((tree.video_count, tree.cover_count), (1, 1), "in {:?}", d);
            assert_eq!(tree.videos.len(), 1);
            assert_eq!(tree.videos[0].name, "movie.mp4");
            assert!(tree.children.is_empty());
            assert_eq!(tree.cover_path, Some(cover_path.clone()), "in {:?}", d);
        }
        let existing = vec![video_path.clone(), cover_path.clone()];
        assert_eq!(covers.get_video_cover_path(&video_path, &existing), Some(cover_path.clone()));
        assert_eq!(CoverManager::new().get_video_cover_path(&video_path, &existing).is_some(), true);
    }
}

#[test]
fn entries_beyond_the_cap_are_ignored() {
    let covers = CoverManager::new();
    let listing = Listing::Entries(vec![
        video_file("/r/1.mp4"),
        dir("/r/a", vec![video_file("/r/a/x.mp4"), video_file("/r/a/y.mp4")]),
        video_file("/r/2.mp4"),
        dir("/r/b", vec![]),
    ]);
    let mut manager = FolderManager::new();
    manager.set_max_files_per_dir(2);
    for tree in [
        manager.build_tree_recursive("/r", &listing, &covers, 0, -1),
        manager.build_tree_recursive_parallel("/r", &listing, &covers, 0, -1),
    ] {
        assert_eq!(tree.videos.len(), 1);
        assert_eq!(tree.children.len(), 1);
        assert_eq!(tree.children[0].videos.len(), 2);
        assert_eq!(tree.video_count, 3);
    }
    manager.set_max_files_per_dir(0);
    let tree = manager.build_tree_recursive("/r", &listing, &covers, 0, -1);
    assert_eq!(tree.video_count, 0);
    assert!(tree.children.is_empty());
}

#[test]
fn only_probed_video_files_count() {
    let entries = vec![
        video_file("/r/a.mp4"),
        plain_file("/r/b.mp4"),
        SourceEntry {
            path: "/r/c.txt".to_string(),
            kind: SourceKind::File { size: 1, video: Some(video("/r/c.txt")) },
        },
        video_file("/r/D.MKV"),
        SourceEntry { path: "/r/e.mp4".to_string(), kind: SourceKind::Other },
        dir("/r/f.mp4", vec![]),
    ];
    let videos = process_video_files(&entries, entries.len());
    let paths: Vec<&str> = videos.iter().map(|v| v.path.as_str()).collect();
    assert_eq!(paths, vec!["/r/a.mp4", "/r/D.MKV"]);
    assert_eq!(process_video_files(&entries, 1).len(), 1);
    assert_eq!(process_video_files(&entries, 0).len(), 0);

    let mut covers = CoverManager::new();
    covers.scan_covers(&Listing::Entries(vec![plain_file("/r/a.jpg"), video_file("/r/a.mp4")]));
    assert_eq!(count_covered(&videos, &covers), 1);
    assert_eq!(count_covered(&Vec::new(), &covers), 0);
}

#[test]
fn a_build_is_kept_until_it_is_cleared() {
    let covers = sample_covers();
    let mut manager = FolderManager::new();
    let id = manager.add_root_folder("/r".to_string(), None);
    let other = manager.add_root_folder("/o".to_string(), None);
    assert!(manager.get_directory_tree(&id).is_none());

    let tree = manager.build_directory_tree(&id, &sample(), &covers).unwrap();
    assert_eq!(manager.get_directory_tree(&id), Some(&tree));
    assert!(manager.get_directory_tree(&other).is_none());

    // A new build replaces the old tree.
    let smaller = manager.build_directory_tree_parallel(&id, &Listing::Entries(vec![]), &covers).unwrap();
    assert_eq!(smaller, create_empty_directory_node("/r"));
    assert_eq!(manager.get_directory_tree(&id), Some(&smaller));

    manager.build_directory_tree(&other, &Listing::Unreadable, &covers).unwrap();
    manager.clear_directory_tree(&id);
    assert!(manager.get_directory_tree(&id).is_none());
    assert!(manager.get_directory_tree(&other).is_some());
    manager.clear_directory_tree(&id);

    manager.build_directory_tree(&id, &sample(), &covers).unwrap();
    manager.clear_cache();
    assert!(manager.get_directory_tree(&id).is_none());
    assert!(manager.get_directory_tree(&other).is_none());
    assert_eq!(manager.get_all_root_folders().len(), 2);
}

#[test]
fn unknown_and_disabled_folders_are_not_built() {
    let covers = CoverManager::new();
    let mut manager = FolderManager::new();
    assert_eq!(manager.build_directory_tree("nope", &sample(), &covers), Err(BuildError::NotFound));
    assert_eq!(
        manager.build_directory_tree_parallel("nope", &sample(), &covers),
        Err(BuildError::NotFound)
    );
    let id = manager.add_root_folder("/r".to_string(), None);
    manager.set_folder_enabled(&id, false);
    assert_eq!(manager.build_directory_tree(&id, &sample(), &covers), Err(BuildError::Disabled));
    assert_eq!(
        manager.build_directory_tree_parallel(&id, &sample(), &covers),
        Err(BuildError::Disabled)
    );
    assert!(manager.get_directory_tree(&id).is_none());
    manager.set_folder_enabled(&id, true);
    assert!(manager.build_directory_tree(&id, &sample(), &covers).is_ok());
}

#[test]
fn the_checked_build_does_what_the_build_does() {
    let covers = sample_covers();
    let mut manager = FolderManager::new();
    assert_eq!(
        manager.build_directory_tree_checked("nope", &sample(), &covers),
        Some(Err(BuildError::NotFound))
    );
    let id = manager.add_root_folder("/r".to_string(), None);
    let tree = manager.build_directory_tree_checked(&id, &sample(), &covers).unwrap().unwrap();
    assert_eq!(tree.video_count, 4);
    assert_eq!(manager.get_directory_tree(&id), Some(&tree));
    assert_eq!(tree, manager.build_directory_tree(&id, &sample(), &covers).unwrap());
}

#[test]
fn entries_are_counted() {
    assert_eq!(sample().count_entries(), Some(14));
    assert_eq!(Listing::Unreadable.count_entries(), Some(0));
    assert_eq!(Listing::Entries(vec![]).count_entries(), Some(0));
}

#[test]
fn a_copy_of_a_tree_equals_it() {
    let covers = sample_covers();
    let tree = build_node("/r", &sample(), &covers, 0, limits(), false);
    assert_eq!(tree.clone(), tree);
}

#[test]
fn a_video_record_is_put_together_from_its_parts() {
    let metadata = VideoMetadata {
        duration: Some(90_500_000_000),
        width: Some(1920),
        height: Some(1080),
        video_codec: Some("h264".to_string()),
        audio_codec: Some("aac".to_string()),
        container_format: "MP4".to_string(),
        frame_rate: Some(FrameRate { numerator: 30000, denominator: 1001 }),
        bit_rate: Some(4_000_000),
        has_video: true,
        has_audio: true,
    };
    let info = VideoProcessor::new().create_video_info(
        "/d/film.mp4".to_string(),
        FileFacts { size: 77, created: Some(10), modified: Some(20) },
        Some(metadata),
    );
    assert_eq!(info.path, "/d/film.mp4");
    assert_eq!(info.name, "film.mp4");
    assert_eq!(info.size, 77);
    assert_eq!(info.duration, Some(90_500_000_000));
    assert_eq!(info.resolution, Some((1920, 1080)));
    assert_eq!(info.codec, Some("h264".to_string()));
    assert_eq!(info.audio_codec, Some("aac".to_string()));
    assert_eq!(info.created_time, Some(10));
    assert_eq!(info.modified_time, Some(20));
    assert_eq!(info.container_format, Some("MP4".to_string()));
    assert_eq!(info.frame_rate, Some(FrameRate { numerator: 30000, denominator: 1001 }));
    assert_eq!(info.bit_rate, Some(4_000_000));

    let bare = video("/");
    assert_eq!(bare.name, "Unknown");
    assert_eq!(bare.container_format, Some(String::new()));
    assert_eq!(bare.resolution, None);
    assert_eq!(bare.duration, None);
    assert_eq!(VideoMetadata::default().container_format, "");
}
