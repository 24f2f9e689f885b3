use crate::cover::{
    cover_of_entry, detected_format, entry_places, first_existing_sibling, format_of_extension,
    scanned_index, video_extensions, CoverFormat, CoverIndex,
};
use crate::path::{
    child, last_dot, name_extension, name_stem, parent, path_extension, path_stem, place, sibling,
};
use crate::path_laws::{is_plain_name, lemma_name_in_directory, lemma_one_place};
use crate::source::{EntryView, KindView, ListingView};
use crate::text::lowercase;
use crate::tree::{
    child_nodes, considered, covered, out_of_bounds, own_videos, total_covers, total_videos,
    tree_of, video_of_entry, NodeView, ScanBounds,
};
use crate::video::{is_video_extension, is_video_path, VideoInfoView};
use vstd::prelude::*;

verus! {

/// The name made of a stem, a `.` and an extension.
pub open spec fn file_named(stem: Seq<char>, extension: Seq<char>) -> Seq<char> {
    stem + seq!['.'] + extension
}

/// A name made of a stem that is not empty, a `.` and an extension without
/// a `.` has that extension and that stem.
pub proof fn lemma_name_parts(stem: Seq<char>, extension: Seq<char>)
    requires
        stem.len() > 0,
        forall|i: int| 0 <= i < extension.len() ==> extension[i] != '.',
    ensures
        last_dot(file_named(stem, extension)) == stem.len(),
        name_extension(file_named(stem, extension)) == Some(extension),
        name_stem(file_named(stem, extension)) == stem,
    decreases extension.len(),
{
    let name = file_named(stem, extension);
    if extension.len() == 0 {
        assert(name.last() == '.');
    } else {
        lemma_name_parts(stem, extension.drop_last());
        assert(name.drop_last() =~= file_named(stem, extension.drop_last()));
        assert(name.last() == extension.last());
    }
    assert(name.skip(stem.len() as int + 1) =~= extension);
    assert(name.take(stem.len() as int) =~= stem);
}

/// The listing of a directory that holds a video `stem.mp4`, with the record
/// `video`, and an image `stem.jpg`, and nothing else.
pub open spec fn movie_and_cover(
    dir: Seq<char>,
    stem: Seq<char>,
    video: VideoInfoView,
    video_size: u64,
    cover_size: u64,
) -> Seq<EntryView> {
    seq![
        EntryView {
            path: child(dir, file_named(stem, "mp4"@)),
            kind: KindView::File { size: video_size, video: Some(video) },
        },
        EntryView {
            path: child(dir, file_named(stem, "jpg"@)),
            kind: KindView::File { size: cover_size, video: None },
        },
    ]
}

/// A directory that holds exactly a video and an image of the same stem, the
/// one with the extension `mp4` and the other with `jpg`: once the directory
/// was scanned for covers, the cover of the video is the image, and the tree
/// of the directory counts one video and one cover, has the video as its only
/// own video, no children, and the image as its cover. This holds of every
/// directory, however its path is spelled.
///
/// It is stated for the lowercase forms that `mp4` and `jpg` have: themselves.
pub proof fn lemma_movie_with_cover(
    dir: Seq<char>,
    stem: Seq<char>,
    video: VideoInfoView,
    video_size: u64,
    cover_size: u64,
    depth: int,
    bounds: ScanBounds,
)
    requires
        stem.len() > 0,
        forall|i: int| 0 <= i < stem.len() ==> stem[i] != '/',
        video.path == child(dir, file_named(stem, "mp4"@)),
        lowercase("mp4"@) == "mp4"@,
        lowercase("jpg"@) == "jpg"@,
        !out_of_bounds(depth, bounds),
        bounds.max_entries >= 2,
    ensures
        ({
            let entries = movie_and_cover(dir, stem, video, video_size, cover_size);
            let cover = child(dir, file_named(stem, "jpg"@));
            let index = scanned_index(CoverIndex::empty(), entries, 2, entry_places(entries));
            let tree = tree_of(dir, ListingView::Entries(entries), index, depth, bounds);
            &&& index.cover_for(video.path) is Some
            &&& index.cover_for(video.path)->0.path == cover
            &&& index.cover_for(video.path)->0.format == CoverFormat::JPG
            &&& tree.video_count == 1
            &&& tree.cover_count == 1
            &&& tree.videos == seq![video]
            &&& tree.children.len() == 0
            &&& tree.cover_path == Some(cover)
        }),
{
    reveal_strlit("mp4");
    reveal_strlit("jpg");
    reveal_strlit("jpeg");
    reveal_strlit("png");
    reveal_strlit("bmp");
    reveal_strlit("webp");
    reveal_strlit("avi");
    reveal_strlit("mov");
    reveal_strlit("mkv");
    reveal_strlit("wmv");
    reveal_strlit("flv");
    reveal_strlit("webm");
    let mp4 = "mp4"@;
    let jpg = "jpg"@;
    let video_name = file_named(stem, mp4);
    let cover_name = file_named(stem, jpg);
    let video_path = child(dir, video_name);
    let cover = child(dir, cover_name);
    let entries = movie_and_cover(dir, stem, video, video_size, cover_size);
    let existing = entry_places(entries);
    // The two names and what they are made of.
    lemma_name_parts(stem, mp4);
    lemma_name_parts(stem, jpg);
    assert(is_plain_name(video_name)) by {
        assert(video_name.len() == stem.len() + 4);
    }
    assert(is_plain_name(cover_name)) by {
        assert(cover_name.len() == stem.len() + 4);
    }
    lemma_name_in_directory(dir, video_name);
    lemma_name_in_directory(dir, cover_name);
    assert(path_extension(video_path) == Some(mp4));
    assert(path_extension(cover) == Some(jpg));
    assert(path_stem(cover) == Some(stem));
    // Which of the two is a video and which a cover.
    assert(mp4[0] == 'm' && jpg[0] == 'j');
    assert(is_video_extension(mp4));
    assert(!is_video_extension(jpg)) by {
        assert("mp4"@[0] != 'j' && "avi"@[0] != 'j' && "mov"@[0] != 'j' && "mkv"@[0] != 'j');
        assert("wmv"@[0] != 'j' && "flv"@[0] != 'j' && "webm"@[0] != 'j');
    }
    assert(format_of_extension(mp4) is None) by {
        assert("jpg"@[0] != 'm' && "jpeg"@[0] != 'm' && "png"@[0] != 'm' && "bmp"@[0] != 'm'
            && "webp"@[0] != 'm');
    }
    assert(format_of_extension(jpg) == Some(CoverFormat::JPG));
    assert(is_video_path(video_path));
    assert(!is_video_path(cover));
    assert(detected_format(video_path) is None);
    assert(detected_format(cover) == Some(CoverFormat::JPG));
    // The video beside the image is at the place of the video.
    let beside = parent(cover)->0;
    let found = child(beside, video_name);
    assert(sibling(cover, mp4) == Some(found));
    lemma_name_in_directory(beside, video_name);
    lemma_one_place(found, video_path);
    assert(entries[0].path == video_path);
    assert(existing.contains(place(video_path)));
    assert(video_extensions()[0] == mp4);
    assert(first_existing_sibling(cover, video_extensions(), existing) == Some(found));
    // What the scan files.
    let info = cover_of_entry(entries[1], existing)->0;
    assert(cover_of_entry(entries[0], existing) is None);
    assert(cover_of_entry(entries[1], existing) is Some);
    assert(info.path == cover);
    assert(info.associated_video == Some(found));
    let empty = CoverIndex::empty();
    assert(scanned_index(empty, entries, 0, existing) == empty);
    assert(scanned_index(empty, entries, 1, existing) == empty);
    let index = scanned_index(empty, entries, 2, existing);
    assert(index == empty.with_cover(info));
    assert(index.links.contains_key(place(video_path)));
    assert(index.links[place(video_path)] == cover);
    assert(index.covers.contains_key(place(cover)));
    assert(index.cover_for(video_path) == Some(info));
    // The tree.
    assert(considered(2, bounds) == 2);
    assert(video_of_entry(entries[0]) == Some(video));
    assert(video_of_entry(entries[1]) is None);
    assert(own_videos(entries, 0) =~= Seq::<VideoInfoView>::empty());
    assert(own_videos(entries, 1) =~= seq![video]);
    assert(own_videos(entries, 2) =~= seq![video]);
    assert(child_nodes(entries, 0, index, depth + 1, bounds) =~= Seq::<NodeView>::empty());
    assert(child_nodes(entries, 1, index, depth + 1, bounds) =~= Seq::<NodeView>::empty());
    assert(child_nodes(entries, 2, index, depth + 1, bounds) =~= Seq::<NodeView>::empty());
    let videos = seq![video];
    assert(videos.drop_last() =~= Seq::<VideoInfoView>::empty());
    assert(covered(videos.drop_last(), index) == 0);
    assert(covered(videos, index) == 1);
    assert(total_videos(Seq::<NodeView>::empty()) == 0);
    assert(total_covers(Seq::<NodeView>::empty()) == 0);
}

} // verus!
