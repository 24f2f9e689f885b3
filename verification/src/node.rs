use crate::path::text_of;
use crate::tree::{empty_node, first_cover, total_covers, total_videos, NodeView};
use crate::video::{copy_text, display_name_of, video_views, VideoInfo};
use vstd::prelude::*;

verus! {

/// One directory of a scanned tree.
#[derive(Debug, PartialEq, Eq)]
pub struct DirectoryNode {
    /// The directory's name.
    pub name: String,
    /// The directory's path.
    pub path: String,
    /// Always true: every node stands for a directory.
    pub is_directory: bool,
    /// The nodes of the subdirectories.
    pub children: Vec<DirectoryNode>,
    /// The videos in the directory itself.
    pub videos: Vec<VideoInfo>,
    /// The number of videos with a cover, here and below.
    pub cover_count: usize,
    /// The number of videos, here and below.
    pub video_count: usize,
    /// The cover that stands for the directory.
    pub cover_path: Option<String>,
}

/// The mathematical value of a node.
pub open spec fn node_view(node: DirectoryNode) -> NodeView
    decreases node,
{
    NodeView {
        name: node.name@,
        path: node.path@,
        is_directory: node.is_directory,
        children: Seq::new(
            node.children@.len(),
            |i: int|
                if 0 <= i < node.children@.len() {
                    node_view(node.children@[i])
                } else {
                    arbitrary()
                },
        ),
        videos: video_views(node.videos@),
        cover_count: node.cover_count as nat,
        video_count: node.video_count as nat,
        cover_path: text_of(node.cover_path),
    }
}

impl View for DirectoryNode {
    type V = NodeView;

    open spec fn view(&self) -> NodeView {
        node_view(*self)
    }
}

/// The views of a list of nodes.
pub open spec fn node_views(nodes: Seq<DirectoryNode>) -> Seq<NodeView> {
    Seq::new(nodes.len(), |i: int| nodes[i]@)
}

/// The children of a node's view are the views of its children.
pub proof fn lemma_children_views(node: DirectoryNode)
    ensures
        node@.children == node_views(node.children@),
{
    assert(node@.children =~= node_views(node.children@));
}

impl Clone for DirectoryNode {
    fn clone(&self) -> (r: Self)
        ensures
            r@ == self@,
        decreases self,
    {
        let mut children: Vec<DirectoryNode> = Vec::new();
        let mut i: usize = 0;
        while i < self.children.len()
            invariant
                i <= self.children.len(),
                children@.len() == i,
                forall|j: int| 0 <= j < i ==> (#[trigger] children@[j])@ == self.children@[j]@,
            decreases self.children.len() - i,
        {
            let child = self.children[i].clone();
            children.push(child);
            i += 1;
        }
        let mut videos: Vec<VideoInfo> = Vec::new();
        let mut k: usize = 0;
        while k < self.videos.len()
            invariant
                k <= self.videos.len(),
                videos@.len() == k,
                forall|j: int| 0 <= j < k ==> (#[trigger] videos@[j])@ == self.videos@[j]@,
            decreases self.videos.len() - k,
        {
            let video = self.videos[k].clone();
            videos.push(video);
            k += 1;
        }
        let r = DirectoryNode {
            name: self.name.clone(),
            path: self.path.clone(),
            is_directory: self.is_directory,
            children,
            videos,
            cover_count: self.cover_count,
            video_count: self.video_count,
            cover_path: copy_text(&self.cover_path),
        };
        proof {
            lemma_children_views(r);
            lemma_children_views(*self);
            assert(node_views(r.children@) =~= node_views(self.children@));
            assert(video_views(r.videos@) =~= video_views(self.videos@));
        }
        r
    }
}

/// The node of a directory that was not looked into.
pub fn create_empty_directory_node(path: &str) -> (r: DirectoryNode)
    ensures
        r@ == empty_node(path@),
{
    let r = DirectoryNode {
        name: display_name_of(path),
        path: path.to_string(),
        is_directory: true,
        children: Vec::new(),
        videos: Vec::new(),
        cover_count: 0,
        video_count: 0,
        cover_path: None,
    };
    proof {
        lemma_children_views(r);
        assert(node_views(r.children@) =~= Seq::<NodeView>::empty());
        assert(video_views(r.videos@) =~= Seq::empty());
    }
    r
}

/// The node of the directory at `path` with the given parts.
pub fn create_directory_node(
    path: &str,
    children: Vec<DirectoryNode>,
    videos: Vec<VideoInfo>,
    cover_count: usize,
    video_count: usize,
    cover_path: Option<String>,
) -> (r: DirectoryNode)
    ensures
        r@ == (NodeView {
            name: crate::video::display_name(path@),
            path: path@,
            is_directory: true,
            children: node_views(children@),
            videos: video_views(videos@),
            cover_count: cover_count as nat,
            video_count: video_count as nat,
            cover_path: text_of(cover_path),
        }),
{
    let r = DirectoryNode {
        name: display_name_of(path),
        path: path.to_string(),
        is_directory: true,
        children,
        videos,
        cover_count,
        video_count,
        cover_path,
    };
    proof {
        lemma_children_views(r);
    }
    r
}

/// The first cover found in `children`, searched in order and depth first.
pub fn find_first_cover_in_children(children: &Vec<DirectoryNode>) -> (r: Option<String>)
    ensures
        text_of(r) == first_cover(node_views(children@)),
    decreases children@,
{
    let ghost views = node_views(children@);
    let mut i: usize = 0;
    assert(views.skip(0) =~= views);
    while i < children.len()
        invariant
            i <= children.len(),
            views == node_views(children@),
            first_cover(views) == first_cover(views.skip(i as int)),
        decreases children.len() - i,
    {
        let child = &children[i];
        proof {
            assert(views.skip(i as int)[0] == child@);
            assert(views.skip(i as int).drop_first() =~= views.skip(i + 1));
            lemma_children_views(*child);
        }
        match &child.cover_path {
            Some(cover) => {
                return Some(cover.clone());
            },
            None => {
                if child.children.len() > 0 {
                    let found = find_first_cover_in_children(&child.children);
                    if found.is_some() {
                        return found;
                    }
                } else {
                    assert(child@.children.len() == 0);
                }
            },
        }
        i += 1;
    }
    None
}

/// The sums of the video counts and of the cover counts of `children`.
pub(crate) fn sum_counts(children: &Vec<DirectoryNode>) -> (r: (usize, usize))
    requires
        total_videos(node_views(children@)) <= usize::MAX,
        total_covers(node_views(children@)) <= usize::MAX,
    ensures
        r.0 == total_videos(node_views(children@)),
        r.1 == total_covers(node_views(children@)),
{
    let ghost views = node_views(children@);
    let mut videos: usize = 0;
    let mut covers: usize = 0;
    let mut i: usize = 0;
    assert(views.take(0) =~= Seq::<NodeView>::empty());
    while i < children.len()
        invariant
            i <= children.len(),
            views == node_views(children@),
            total_videos(views) <= usize::MAX,
            total_covers(views) <= usize::MAX,
            videos == total_videos(views.take(i as int)),
            covers == total_covers(views.take(i as int)),
        decreases children.len() - i,
    {
        proof {
            assert(views.take(i + 1).drop_last() =~= views.take(i as int));
            assert(views.take(i + 1).last() == children@[i as int]@);
            lemma_totals_monotonic(views, i + 1);
        }
        videos = videos + children[i].video_count;
        covers = covers + children[i].cover_count;
        i += 1;
    }
    assert(views.take(children.len() as int) =~= views);
    (videos, covers)
}

/// The sums over the first `n` nodes are no more than the sums over all.
pub proof fn lemma_totals_monotonic(nodes: Seq<NodeView>, n: int)
    requires
        0 <= n <= nodes.len(),
    ensures
        total_videos(nodes.take(n)) <= total_videos(nodes),
        total_covers(nodes.take(n)) <= total_covers(nodes),
    decreases nodes.len(),
{
    if n == nodes.len() {
        assert(nodes.take(n) =~= nodes);
    } else {
        lemma_totals_monotonic(nodes.drop_last(), n);
        assert(nodes.drop_last().take(n) =~= nodes.take(n));
    }
}

} // verus!
