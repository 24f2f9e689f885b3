use crate::cover::CoverIndex;
use crate::source::{
    entries_weight, entry_total, lemma_weight_monotonic, EntryView, KindView, ListingView,
};
use crate::video::{display_name, is_video_path, VideoInfoView};
use vstd::prelude::*;

verus! {

/// The mathematical value of a directory node.
pub ghost struct NodeView {
    pub name: Seq<char>,
    pub path: Seq<char>,
    pub is_directory: bool,
    pub children: Seq<NodeView>,
    pub videos: Seq<VideoInfoView>,
    pub cover_count: nat,
    pub video_count: nat,
    pub cover_path: Option<Seq<char>>,
}

/// The limits of a scan.
pub ghost struct ScanBounds {
    /// Directories at this depth or deeper are not read; negative for no
    /// limit.
    pub depth_limit: int,
    /// Directories deeper than this are never read.
    pub ceiling: int,
    /// The number of entries of a directory that are looked at.
    pub max_entries: nat,
}

/// The sum of the video counts of `nodes`.
pub open spec fn total_videos(nodes: Seq<NodeView>) -> nat
    decreases nodes.len(),
{
    if nodes.len() == 0 {
        0
    } else {
        total_videos(nodes.drop_last()) + nodes.last().video_count
    }
}

/// The sum of the cover counts of `nodes`.
pub open spec fn total_covers(nodes: Seq<NodeView>) -> nat
    decreases nodes.len(),
{
    if nodes.len() == 0 {
        0
    } else {
        total_covers(nodes.drop_last()) + nodes.last().cover_count
    }
}

/// The number of `videos` for which the index holds a cover.
pub open spec fn covered(videos: Seq<VideoInfoView>, index: CoverIndex) -> nat
    decreases videos.len(),
{
    if videos.len() == 0 {
        0
    } else {
        covered(videos.drop_last(), index) + if index.cover_for(videos.last().path) is Some {
            1nat
        } else {
            0nat
        }
    }
}

/// The first cover found in `nodes`, searched in order and depth first: a
/// node's own cover counts before anything below it, and its children are
/// searched only where it has none.
pub open spec fn first_cover(nodes: Seq<NodeView>) -> Option<Seq<char>>
    decreases nodes,
{
    if nodes.len() == 0 {
        None
    } else {
        match nodes[0].cover_path {
            Some(cover) => Some(cover),
            None => match first_cover(nodes[0].children) {
                Some(cover) => Some(cover),
                None => first_cover(nodes.drop_first()),
            },
        }
    }
}

/// The cover that stands for a directory: that of its first own video where
/// it has videos, else the first cover found among its children.
pub open spec fn representative_cover(
    videos: Seq<VideoInfoView>,
    children: Seq<NodeView>,
    index: CoverIndex,
) -> Option<Seq<char>> {
    if videos.len() > 0 {
        match index.cover_for(videos[0].path) {
            Some(info) => Some(info.path),
            None => None,
        }
    } else {
        first_cover(children)
    }
}

/// The node of a directory that was not looked into.
pub open spec fn empty_node(path: Seq<char>) -> NodeView {
    NodeView {
        name: display_name(path),
        path,
        is_directory: true,
        children: Seq::empty(),
        videos: Seq::empty(),
        cover_count: 0,
        video_count: 0,
        cover_path: None,
    }
}

/// The node of a directory with the given children and own videos.
pub open spec fn assembled_node(
    path: Seq<char>,
    children: Seq<NodeView>,
    videos: Seq<VideoInfoView>,
    index: CoverIndex,
) -> NodeView {
    NodeView {
        name: display_name(path),
        path,
        is_directory: true,
        children,
        videos,
        cover_count: covered(videos, index) + total_covers(children),
        video_count: videos.len() + total_videos(children),
        cover_path: representative_cover(videos, children, index),
    }
}

/// The video that a directory entry contributes: the record of a regular
/// file with a video's extension, where the prober made one.
pub open spec fn video_of_entry(entry: EntryView) -> Option<VideoInfoView> {
    match entry.kind {
        KindView::File { size, video: Some(v) } => if is_video_path(entry.path) {
            Some(v)
        } else {
            None
        },
        _ => None,
    }
}

/// The videos that the first `n` of `entries` contribute, in order.
pub open spec fn own_videos(entries: Seq<EntryView>, n: nat) -> Seq<VideoInfoView>
    decreases n,
{
    if n == 0 || n > entries.len() {
        Seq::empty()
    } else {
        let before = own_videos(entries, (n - 1) as nat);
        match video_of_entry(entries[n - 1]) {
            Some(v) => before.push(v),
            None => before,
        }
    }
}

/// Whether a directory at `depth` is left unread.
pub open spec fn out_of_bounds(depth: int, bounds: ScanBounds) -> bool {
    depth > bounds.ceiling || (bounds.depth_limit >= 0 && depth >= bounds.depth_limit)
}

/// How many of the `len` entries of a listing are looked at: all of them, up
/// to the cap.
pub open spec fn considered(len: nat, bounds: ScanBounds) -> nat {
    if bounds.max_entries < len {
        bounds.max_entries
    } else {
        len
    }
}

/// The nodes of the directories among the first `n` of `entries`, in order,
/// each at `depth`.
pub open spec fn child_nodes(
    entries: Seq<EntryView>,
    n: nat,
    index: CoverIndex,
    depth: int,
    bounds: ScanBounds,
) -> Seq<NodeView>
    decreases entries, n,
{
    if n == 0 || n > entries.len() {
        Seq::empty()
    } else {
        let before = child_nodes(entries, (n - 1) as nat, index, depth, bounds);
        match entries[n - 1].kind {
            KindView::Directory(listing) => before.push(
                tree_of(entries[n - 1].path, listing, index, depth, bounds),
            ),
            _ => before,
        }
    }
}

/// The tree of the directory at `path`, which lies at `depth` and was listed
/// as `listing`.
///
/// A directory out of bounds, or one that could not be read, gives an empty
/// node. Otherwise the entries beyond the cap are ignored; the regular files
/// with a video's extension and a record are the directory's own videos; every
/// subdirectory gives a child, one level deeper, in listing order; and the
/// counts and the cover are aggregated from both.
pub open spec fn tree_of(
    path: Seq<char>,
    listing: ListingView,
    index: CoverIndex,
    depth: int,
    bounds: ScanBounds,
) -> NodeView
    decreases listing, 0nat,
{
    if out_of_bounds(depth, bounds) {
        empty_node(path)
    } else {
        match listing {
            ListingView::Unreadable => empty_node(path),
            ListingView::Entries(entries) => {
                let n = considered(entries.len(), bounds);
                assembled_node(
                    path,
                    child_nodes(entries, n, index, depth + 1, bounds),
                    own_videos(entries, n),
                    index,
                )
            },
        }
    }
}

/// The aggregation law, at a node and at every node below it: the video count
/// is the number of own videos plus the children's video counts, and the cover
/// count is the number of own videos with a cover plus the children's cover
/// counts.
pub open spec fn aggregates(node: NodeView, index: CoverIndex) -> bool
    decreases node,
{
    &&& node.video_count == node.videos.len() + total_videos(node.children)
    &&& node.cover_count == covered(node.videos, index) + total_covers(node.children)
    &&& forall|i: int| 0 <= i < node.children.len() ==> aggregates(#[trigger] node.children[i], index)
}

/// No more videos have a cover than there are videos.
pub proof fn lemma_covered_bound(videos: Seq<VideoInfoView>, index: CoverIndex)
    ensures
        covered(videos, index) <= videos.len(),
    decreases videos.len(),
{
    if videos.len() > 0 {
        lemma_covered_bound(videos.drop_last(), index);
    }
}

/// Every node of a tree built from a listing obeys the aggregation law, holds
/// no more covers than videos, and no more videos than the listing has
/// entries.
pub proof fn lemma_tree_of(
    path: Seq<char>,
    listing: ListingView,
    index: CoverIndex,
    depth: int,
    bounds: ScanBounds,
)
    ensures
        aggregates(tree_of(path, listing, index, depth, bounds), index),
        tree_of(path, listing, index, depth, bounds).cover_count <= tree_of(
            path,
            listing,
            index,
            depth,
            bounds,
        ).video_count,
        tree_of(path, listing, index, depth, bounds).video_count <= entry_total(listing),
    decreases listing, 0nat,
{
    if !out_of_bounds(depth, bounds) {
        match listing {
            ListingView::Unreadable => {},
            ListingView::Entries(entries) => {
                let n = considered(entries.len(), bounds);
                lemma_child_nodes(entries, n, index, depth + 1, bounds);
                lemma_covered_bound(own_videos(entries, n), index);
                lemma_weight_monotonic(entries, n, entries.len());
            },
        }
    }
}

/// What `lemma_tree_of` says, of the children of a directory and of their
/// sums.
pub proof fn lemma_child_nodes(
    entries: Seq<EntryView>,
    n: nat,
    index: CoverIndex,
    depth: int,
    bounds: ScanBounds,
)
    requires
        n <= entries.len(),
    ensures
        forall|i: int|
            0 <= i < child_nodes(entries, n, index, depth, bounds).len() ==> aggregates(
                #[trigger] child_nodes(entries, n, index, depth, bounds)[i],
                index,
            ),
        total_covers(child_nodes(entries, n, index, depth, bounds)) <= total_videos(
            child_nodes(entries, n, index, depth, bounds),
        ),
        own_videos(entries, n).len() + total_videos(child_nodes(entries, n, index, depth, bounds))
            <= entries_weight(entries, n),
    decreases entries, n,
{
    if n > 0 {
        let before = child_nodes(entries, (n - 1) as nat, index, depth, bounds);
        lemma_child_nodes(entries, (n - 1) as nat, index, depth, bounds);
        match entries[n - 1].kind {
            KindView::Directory(listing) => {
                let node = tree_of(entries[n - 1].path, listing, index, depth, bounds);
                lemma_tree_of(entries[n - 1].path, listing, index, depth, bounds);
                assert(before.push(node).drop_last() =~= before);
            },
            _ => {},
        }
    }
}

/// A directory with videos of its own is represented by the cover of the
/// first of them, whatever its children are.
pub proof fn lemma_first_video_decides_cover(
    path: Seq<char>,
    children: Seq<NodeView>,
    videos: Seq<VideoInfoView>,
    index: CoverIndex,
)
    requires
        videos.len() > 0,
    ensures
        assembled_node(path, children, videos, index).cover_path == match index.cover_for(
            videos[0].path,
        ) {
            Some(info) => Some(info.path),
            None => None,
        },
{
}

/// A directory without videos of its own, whose first child has neither a
/// cover nor children and whose second child has the cover `cover`, is
/// represented by `cover`.
pub proof fn lemma_cover_falls_back_to_children(
    path: Seq<char>,
    first: NodeView,
    second: NodeView,
    cover: Seq<char>,
    index: CoverIndex,
)
    requires
        first.cover_path is None,
        first.children.len() == 0,
        second.cover_path == Some(cover),
    ensures
        assembled_node(path, seq![first, second], Seq::empty(), index).cover_path == Some(cover),
{
    let children = seq![first, second];
    assert(children.drop_first() =~= seq![second]);
    assert(first_cover(first.children) is None);
    assert(first_cover(seq![second]) == Some(cover));
    assert(first_cover(children) == Some(cover));
}

/// The search for a cover among children goes depth first: where the first
/// child has no cover of its own but one below it, that one is found, whatever
/// the later children hold.
pub proof fn lemma_cover_search_is_depth_first(first: NodeView, rest: Seq<NodeView>)
    requires
        first.cover_path is None,
        first_cover(first.children) is Some,
    ensures
        first_cover(seq![first] + rest) == first_cover(first.children),
{
    assert((seq![first] + rest)[0] == first);
}

/// A directory that could not be read gives a node without children, videos
/// or cover, and with both counts zero.
pub proof fn lemma_unreadable_is_empty(
    path: Seq<char>,
    index: CoverIndex,
    depth: int,
    bounds: ScanBounds,
)
    ensures
        tree_of(path, ListingView::Unreadable, index, depth, bounds) == empty_node(path),
        empty_node(path).children.len() == 0,
        empty_node(path).video_count == 0,
        empty_node(path).cover_count == 0,
        empty_node(path).cover_path is None,
{
}

/// A directory at or below the depth limit is not looked into: with a limit
/// of zero the root itself gives an empty node, whatever lies in it.
pub proof fn lemma_depth_limit_stops_walk(
    path: Seq<char>,
    listing: ListingView,
    index: CoverIndex,
    depth: int,
    bounds: ScanBounds,
)
    requires
        bounds.depth_limit >= 0,
        depth >= bounds.depth_limit,
    ensures
        tree_of(path, listing, index, depth, bounds) == empty_node(path),
{
}

/// A subdirectory that could not be read takes nothing from its parent: the
/// parent still has a child for it, an empty one.
pub proof fn lemma_unreadable_child_is_kept(
    entries: Seq<EntryView>,
    n: nat,
    index: CoverIndex,
    depth: int,
    bounds: ScanBounds,
)
    requires
        0 < n <= entries.len(),
        entries[n - 1].kind == KindView::Directory(ListingView::Unreadable),
    ensures
        child_nodes(entries, n, index, depth, bounds) == child_nodes(
            entries,
            (n - 1) as nat,
            index,
            depth,
            bounds,
        ).push(empty_node(entries[n - 1].path)),
{
    lemma_unreadable_is_empty(entries[n - 1].path, index, depth, bounds);
}

/// The number of directories among the first `n` of `entries`.
pub open spec fn directory_count(entries: Seq<EntryView>, n: nat) -> nat
    decreases n,
{
    if n == 0 || n > entries.len() {
        0
    } else {
        directory_count(entries, (n - 1) as nat) + if entries[n - 1].kind is Directory {
            1nat
        } else {
            0nat
        }
    }
}

/// Every subdirectory that is looked at has exactly one node among the
/// children, and nothing else has one.
pub proof fn lemma_one_child_for_each_directory(
    entries: Seq<EntryView>,
    n: nat,
    index: CoverIndex,
    depth: int,
    bounds: ScanBounds,
)
    requires
        n <= entries.len(),
    ensures
        child_nodes(entries, n, index, depth, bounds).len() == directory_count(entries, n),
    decreases n,
{
    if n > 0 {
        lemma_one_child_for_each_directory(entries, (n - 1) as nat, index, depth, bounds);
    }
}

/// The path of a tree's root is the path that was walked, and its name the
/// last component of that path.
pub proof fn lemma_root_of_tree(
    path: Seq<char>,
    listing: ListingView,
    index: CoverIndex,
    depth: int,
    bounds: ScanBounds,
)
    ensures
        tree_of(path, listing, index, depth, bounds).path == path,
        tree_of(path, listing, index, depth, bounds).name == display_name(path),
        tree_of(path, listing, index, depth, bounds).is_directory,
{
}

} // verus!
