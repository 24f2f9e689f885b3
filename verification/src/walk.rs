use crate::cover::{CoverIndex, CoverManager};
use crate::node::{
    create_directory_node, create_empty_directory_node, find_first_cover_in_children, node_views,
    sum_counts, DirectoryNode,
};
use crate::source::{
    entry_total, entry_views, lemma_listing_entries, lemma_weight_monotonic, EntryView, KindView,
    Listing, SourceEntry, SourceKind,
};
use crate::tree::{
    aggregates, child_nodes, considered, covered, lemma_child_nodes, lemma_covered_bound,
    lemma_tree_of, out_of_bounds, own_videos, tree_of, NodeView, ScanBounds,
};
use crate::video::{is_video_file, video_views, VideoInfo};
use rayon::iter::{IndexedParallelIterator, IntoParallelRefIterator, ParallelIterator};
use vstd::prelude::*;

verus! {

/// The limits of a scan.
#[derive(Clone, Copy, Debug, PartialEq, Eq)]
pub struct ScanLimits {
    /// Directories at this depth or deeper are not read; negative for no
    /// limit.
    pub depth_limit: i32,
    /// Directories deeper than this are never read.
    pub ceiling: i32,
    /// The number of entries of a directory that are looked at.
    pub max_entries: usize,
}

impl View for ScanLimits {
    type V = ScanBounds;

    open spec fn view(&self) -> ScanBounds {
        ScanBounds {
            depth_limit: self.depth_limit as int,
            ceiling: self.ceiling as int,
            max_entries: self.max_entries as nat,
        }
    }
}

impl ScanLimits {
    /// Whether a directory at `depth` is left unread.
    pub fn excludes(&self, depth: i64) -> (r: bool)
        ensures
            r == out_of_bounds(depth as int, self@),
    {
        depth > self.ceiling as i64 || (self.depth_limit >= 0 && depth >= self.depth_limit as i64)
    }

    /// How many of `len` entries are looked at.
    pub fn considered(&self, len: usize) -> (r: usize)
        ensures
            r == considered(len as nat, self@),
    {
        if self.max_entries < len {
            self.max_entries
        } else {
            len
        }
    }
}

/// The node that a directory entry gives rise to, at `depth`: that of its
/// directory, where it is one.
pub open spec fn child_of(
    entry: EntryView,
    index: CoverIndex,
    depth: int,
    bounds: ScanBounds,
) -> Option<NodeView> {
    match entry.kind {
        KindView::Directory(listing) => Some(tree_of(entry.path, listing, index, depth, bounds)),
        _ => None,
    }
}

/// The view of an optional node.
pub open spec fn node_of(value: Option<DirectoryNode>) -> Option<NodeView> {
    match value {
        Some(node) => Some(node@),
        None => None,
    }
}

/// A depth that the walk can reach.
pub open spec fn depth_in_range(depth: int) -> bool {
    i32::MIN <= depth <= i32::MAX + 1
}

/// The videos that the first `n` of `entries` contribute, in order.
pub fn process_video_files(entries: &Vec<SourceEntry>, n: usize) -> (r: Vec<VideoInfo>)
    requires
        n <= entries.len(),
    ensures
        video_views(r@) == own_videos(entry_views(entries@), n as nat),
{
    let ghost views = entry_views(entries@);
    let mut r: Vec<VideoInfo> = Vec::new();
    let mut i: usize = 0;
    assert(video_views(r@) =~= Seq::empty());
    while i < n
        invariant
            i <= n <= entries.len(),
            views == entry_views(entries@),
            video_views(r@) == own_videos(views, i as nat),
        decreases n - i,
    {
        let entry = &entries[i];
        let ghost before = video_views(r@);
        assert(views[i as int] == entry@);
        match &entry.kind {
            SourceKind::File { size, video: Some(v) } => {
                if is_video_file(entry.path.as_str()) {
                    let copy = v.clone();
                    r.push(copy);
                    assert(video_views(r@) =~= before.push(v@));
                }
            },
            _ => {},
        }
        i += 1;
    }
    r
}

/// The number of `videos` for which `covers` holds a cover.
pub fn count_covered(videos: &Vec<VideoInfo>, covers: &CoverManager) -> (r: usize)
    ensures
        r == covered(video_views(videos@), covers@),
{
    let ghost views = video_views(videos@);
    let mut r: usize = 0;
    let mut i: usize = 0;
    assert(views.take(0) =~= Seq::empty());
    while i < videos.len()
        invariant
            i <= videos.len(),
            views == video_views(videos@),
            r == covered(views.take(i as int), covers@),
            r <= i,
        decreases videos.len() - i,
    {
        proof {
            assert(views.take(i + 1).drop_last() =~= views.take(i as int));
            assert(views.take(i + 1).last() == videos@[i as int]@);
        }
        if covers.find_cover_for_video(videos[i].path.as_str()).is_some() {
            r += 1;
        }
        i += 1;
    }
    assert(views.take(videos.len() as int) =~= views);
    r
}

/// Runs `concurrent_child` on the first `n` of `entries` through rayon's
/// `par_iter`, `take`, `map` and `collect`, which hand the entries to the
/// worker pool and wait for all of them. The contract claims that the result
/// holds, for each of those entries and in their order, what `concurrent_child`
/// returns for it.
#[verifier::external_body]
fn scan_subdirectories_parallel(
    entries: &Vec<SourceEntry>,
    n: usize,
    covers: &CoverManager,
    depth: i64,
    limits: ScanLimits,
) -> (r: Vec<Option<DirectoryNode>>)
    requires
        n <= entries.len(),
        depth_in_range(depth as int),
        forall|i: int| 0 <= i < n ==> entry_fits((#[trigger] entries[i])@),
    ensures
        r@.len() == n,
        forall|i: int|
            0 <= i < n ==> node_of(#[trigger] r@[i]) == child_of(
                entries[i]@,
                covers@,
                depth as int,
                limits@,
            ),
{
    entries.par_iter().take(n).map(|entry| concurrent_child(entry, covers, depth, limits)).collect()
}

/// An entry whose directory, where it is one, holds no more entries than can
/// be counted.
pub open spec fn entry_fits(entry: EntryView) -> bool {
    match entry.kind {
        KindView::Directory(listing) => entry_total(listing) <= usize::MAX,
        _ => true,
    }
}

/// The node that a directory entry gives rise to, at `depth`.
pub fn child_of_entry(
    entry: &SourceEntry,
    covers: &CoverManager,
    depth: i64,
    limits: ScanLimits,
    parallel: bool,
) -> (r: Option<DirectoryNode>)
    requires
        entry_fits(entry@),
        depth_in_range(depth as int),
    ensures
        node_of(r) == child_of(entry@, covers@, depth as int, limits@),
    decreases entry,
{
    match &entry.kind {
        SourceKind::Directory(listing) => Some(
            build_node(entry.path.as_str(), listing, covers, depth, limits, parallel),
        ),
        _ => None,
    }
}

/// The node that a directory entry gives rise to, at `depth`, with the
/// directories below it handed to the worker pool.
pub fn concurrent_child(
    entry: &SourceEntry,
    covers: &CoverManager,
    depth: i64,
    limits: ScanLimits,
) -> (r: Option<DirectoryNode>)
    requires
        entry_fits(entry@),
        depth_in_range(depth as int),
    ensures
        node_of(r) == child_of(entry@, covers@, depth as int, limits@),
{
    child_of_entry(entry, covers, depth, limits, true)
}

/// The nodes among `found`, in order.
fn present_nodes(found: Vec<Option<DirectoryNode>>) -> (r: Vec<DirectoryNode>)
    ensures
        node_views(r@) == present(found@, found@.len()),
{
    let mut r: Vec<DirectoryNode> = Vec::new();
    let ghost all = found@;
    let mut found = found;
    let mut i: usize = 0;
    assert(node_views(r@) =~= Seq::<NodeView>::empty());
    while i < found.len()
        invariant
            i <= found.len(),
            found@.len() == all.len(),
            forall|j: int| i <= j < found@.len() ==> found@[j] == all[j],
            node_views(r@) == present(all, i as nat),
        decreases found.len() - i,
    {
        let ghost before = node_views(r@);
        let mut slot: Option<DirectoryNode> = None;
        core::mem::swap(&mut slot, &mut found[i]);
        match slot {
            Some(node) => {
                r.push(node);
                assert(node_views(r@) =~= before.push(node@));
            },
            None => {},
        }
        i += 1;
    }
    r
}

/// The views of the nodes among the first `n` of `found`, in order.
pub open spec fn present(found: Seq<Option<DirectoryNode>>, n: nat) -> Seq<NodeView>
    decreases n,
{
    if n == 0 || n > found.len() {
        Seq::empty()
    } else {
        match found[n - 1] {
            Some(node) => present(found, (n - 1) as nat).push(node@),
            None => present(found, (n - 1) as nat),
        }
    }
}

/// Where each of `found` is what the entry at its place gives rise to, the
/// nodes among them are the children of the directory.
proof fn lemma_present_children(
    found: Seq<Option<DirectoryNode>>,
    entries: Seq<EntryView>,
    n: nat,
    index: CoverIndex,
    depth: int,
    bounds: ScanBounds,
)
    requires
        n <= found.len(),
        n <= entries.len(),
        forall|i: int| 0 <= i < n ==> node_of(#[trigger] found[i]) == child_of(entries[i], index, depth, bounds),
    ensures
        present(found, n) == child_nodes(entries, n, index, depth, bounds),
    decreases n,
{
    if n > 0 {
        lemma_present_children(found, entries, (n - 1) as nat, index, depth, bounds);
        assert(node_of(found[n - 1]) == child_of(entries[n - 1], index, depth, bounds));
    }
}

/// The tree of the directory at `path`, which lies at `depth` and was listed
/// as `listing`. With `parallel`, the subdirectories are handed to the worker
/// pool; without it they are walked one after the other. The tree is the same.
pub fn build_node(
    path: &str,
    listing: &Listing,
    covers: &CoverManager,
    depth: i64,
    limits: ScanLimits,
    parallel: bool,
) -> (r: DirectoryNode)
    requires
        entry_total(listing@) <= usize::MAX,
        depth_in_range(depth as int),
    ensures
        r@ == tree_of(path@, listing@, covers@, depth as int, limits@),
        aggregates(r@, covers@),
    decreases listing,
{
    proof {
        lemma_tree_of(path@, listing@, covers@, depth as int, limits@);
    }
    if limits.excludes(depth) {
        return create_empty_directory_node(path);
    }
    match listing {
        Listing::Unreadable => create_empty_directory_node(path),
        Listing::Entries(entries) => {
            let n = limits.considered(entries.len());
            let ghost index = covers@;
            let ghost bounds = limits@;
            let ghost views = entry_views(entries@);
            proof {
                lemma_listing_entries(*entries);
                lemma_weight_monotonic(views, n as nat, views.len());
                lemma_child_nodes(views, n as nat, index, depth + 1, bounds);
                lemma_fits(views, n as nat);
                assert forall|i: int| 0 <= i < n implies entry_fits((#[trigger] entries@[i])@) by {
                    assert(views[i] == entries@[i]@);
                }
            }
            let videos = process_video_files(entries, n);
            let children = if parallel {
                let found = scan_subdirectories_parallel(entries, n, covers, depth + 1, limits);
                proof {
                    assert forall|i: int| 0 <= i < n implies node_of(#[trigger] found@[i]) == child_of(
                        views[i],
                        index,
                        depth + 1,
                        bounds,
                    ) by {
                        assert(views[i] == entries@[i]@);
                    }
                    lemma_present_children(found@, views, n as nat, index, depth + 1, bounds);
                }
                present_nodes(found)
            } else {
                let mut children: Vec<DirectoryNode> = Vec::new();
                let mut i: usize = 0;
                assert(node_views(children@) =~= Seq::<NodeView>::empty());
                while i < n
                    invariant
                        i <= n <= entries.len(),
                        *listing is Entries,
                        listing->Entries_0 == *entries,
                        depth_in_range(depth + 1),
                        index == covers@,
                        bounds == limits@,
                        views == entry_views(entries@),
                        forall|j: int| 0 <= j < n ==> entry_fits((#[trigger] entries[j])@),
                        node_views(children@) == child_nodes(views, i as nat, index, depth + 1, bounds),
                    decreases n - i,
                {
                    let ghost before = node_views(children@);
                    assert(views[i as int] == entries@[i as int]@);
                    match child_of_entry(&entries[i], covers, depth + 1, limits, false) {
                        Some(child) => {
                            children.push(child);
                            assert(node_views(children@) =~= before.push(child@));
                        },
                        None => {},
                    }
                    i += 1;
                }
                children
            };
            proof {
                lemma_covered_bound(video_views(videos@), index);
            }
            let own_covers = count_covered(&videos, covers);
            let (child_videos, child_covers) = sum_counts(&children);
            let cover_path = if videos.len() > 0 {
                match covers.find_cover_for_video(videos[0].path.as_str()) {
                    Some(info) => Some(info.path.clone()),
                    None => None,
                }
            } else {
                find_first_cover_in_children(&children)
            };
            let video_count = videos.len() + child_videos;
            let cover_count = own_covers + child_covers;
            create_directory_node(path, children, videos, cover_count, video_count, cover_path)
        },
    }
}

/// The tree of the directory at `path`, built with the subdirectories of
/// each directory handed to the worker pool.
pub fn walk_concurrently(
    path: &str,
    listing: &Listing,
    covers: &CoverManager,
    depth: i64,
    limits: ScanLimits,
) -> (r: DirectoryNode)
    requires
        entry_total(listing@) <= usize::MAX,
        depth_in_range(depth as int),
    ensures
        r@ == tree_of(path@, listing@, covers@, depth as int, limits@),
        aggregates(r@, covers@),
{
    build_node(path, listing, covers, depth, limits, true)
}

/// Makes a worker pool of `threads` threads with rayon's
/// `ThreadPoolBuilder::new`, `num_threads` and `build`, and runs
/// `walk_concurrently` in it with `ThreadPool::install`, which hands back what
/// the function returned once it is done. Zero threads ask rayon for its
/// default. The contract claims that a tree, where one comes back, is the one
/// that `walk_concurrently` built; none comes back where the pool could not be
/// made.
#[verifier::external_body]
fn walk_in_pool(
    threads: usize,
    path: &str,
    listing: &Listing,
    covers: &CoverManager,
    depth: i64,
    limits: ScanLimits,
) -> (r: Option<DirectoryNode>)
    requires
        entry_total(listing@) <= usize::MAX,
        depth_in_range(depth as int),
    ensures
        r is Some ==> r->0@ == tree_of(path@, listing@, covers@, depth as int, limits@),
{
    match rayon::ThreadPoolBuilder::new().num_threads(threads).build() {
        Ok(pool) => Some(pool.install(|| walk_concurrently(path, listing, covers, depth, limits))),
        Err(_) => None,
    }
}

/// The tree of the directory at `path`, built concurrently in a worker pool
/// of `threads` threads; where no such pool can be had, in the pool that all
/// share.
pub fn build_in_bounded_pool(
    threads: usize,
    path: &str,
    listing: &Listing,
    covers: &CoverManager,
    depth: i64,
    limits: ScanLimits,
) -> (r: DirectoryNode)
    requires
        entry_total(listing@) <= usize::MAX,
        depth_in_range(depth as int),
    ensures
        r@ == tree_of(path@, listing@, covers@, depth as int, limits@),
        aggregates(r@, covers@),
{
    proof {
        lemma_tree_of(path@, listing@, covers@, depth as int, limits@);
    }
    match walk_in_pool(threads, path, listing, covers, depth, limits) {
        Some(tree) => tree,
        None => walk_concurrently(path, listing, covers, depth, limits),
    }
}

/// Where the first `n` entries weigh no more than can be counted, each of
/// them fits.
proof fn lemma_fits(entries: Seq<EntryView>, n: nat)
    requires
        n <= entries.len(),
        crate::source::entries_weight(entries, n) <= usize::MAX,
    ensures
        forall|i: int| 0 <= i < n ==> entry_fits(#[trigger] entries[i]),
    decreases n,
{
    if n > 0 {
        lemma_fits(entries, (n - 1) as nat);
    }
}

} // verus!
