use crate::video::{VideoInfo, VideoInfoView};
use vstd::prelude::*;

verus! {

/// What was found at one entry of a directory.
pub enum SourceKind {
    /// A regular file of `size` bytes. `video` is the record that the video
    /// prober made of it, where it was asked and succeeded.
    File { size: u64, video: Option<VideoInfo> },
    /// A directory, with what was found inside.
    Directory(Listing),
    /// An entry whose metadata could not be read, or that is neither a file
    /// nor a directory.
    Other,
}

/// One entry of a directory.
pub struct SourceEntry {
    pub path: String,
    pub kind: SourceKind,
}

/// The outcome of reading a directory.
pub enum Listing {
    /// The entries, in the order in which they were listed.
    Entries(Vec<SourceEntry>),
    /// The directory could not be read, or was not read.
    Unreadable,
}

/// The mathematical value of a `SourceKind`.
pub ghost enum KindView {
    File { size: u64, video: Option<VideoInfoView> },
    Directory(ListingView),
    Other,
}

/// The mathematical value of a `SourceEntry`.
pub ghost struct EntryView {
    pub path: Seq<char>,
    pub kind: KindView,
}

/// The mathematical value of a `Listing`.
pub ghost enum ListingView {
    Entries(Seq<EntryView>),
    Unreadable,
}

/// The value of a listing.
pub open spec fn listing_view(listing: Listing) -> ListingView
    decreases listing,
{
    match listing {
        Listing::Entries(entries) => ListingView::Entries(
            Seq::new(
                entries@.len(),
                |i: int|
                    if 0 <= i < entries@.len() {
                        entry_view(entries@[i])
                    } else {
                        arbitrary()
                    },
            ),
        ),
        Listing::Unreadable => ListingView::Unreadable,
    }
}

/// The value of an entry.
pub open spec fn entry_view(entry: SourceEntry) -> EntryView
    decreases entry,
{
    EntryView {
        path: entry.path@,
        kind: match entry.kind {
            SourceKind::File { size, video } => KindView::File {
                size,
                video: match video {
                    Some(v) => Some(v@),
                    None => None,
                },
            },
            SourceKind::Directory(listing) => KindView::Directory(listing_view(listing)),
            SourceKind::Other => KindView::Other,
        },
    }
}

impl View for Listing {
    type V = ListingView;

    open spec fn view(&self) -> ListingView {
        listing_view(*self)
    }
}

impl View for SourceEntry {
    type V = EntryView;

    open spec fn view(&self) -> EntryView {
        entry_view(*self)
    }
}

/// The values of a list of entries.
pub open spec fn entry_views(entries: Seq<SourceEntry>) -> Seq<EntryView> {
    Seq::new(entries.len(), |i: int| entries[i]@)
}

/// The value of a listing with entries holds the values of the entries.
pub proof fn lemma_listing_entries(entries: Vec<SourceEntry>)
    ensures
        Listing::Entries(entries)@ == ListingView::Entries(entry_views(entries@)),
{
    assert(Listing::Entries(entries)@->Entries_0 =~= entry_views(entries@));
}

/// The number of entries in the first `n` of `entries` and in all the
/// directories below them.
pub open spec fn entries_weight(entries: Seq<EntryView>, n: nat) -> nat
    decreases entries, n,
{
    if n == 0 || n > entries.len() {
        0
    } else {
        entries_weight(entries, (n - 1) as nat) + 1 + match entries[n - 1].kind {
            KindView::Directory(inner) => entry_total(inner),
            _ => 0,
        }
    }
}

/// The number of entries in a listing and in all the directories below it.
pub open spec fn entry_total(listing: ListingView) -> nat
    decreases listing, 0nat,
{
    match listing {
        ListingView::Entries(entries) => entries_weight(entries, entries.len()),
        ListingView::Unreadable => 0,
    }
}

/// The weight grows with the number of entries counted.
pub proof fn lemma_weight_monotonic(entries: Seq<EntryView>, m: nat, n: nat)
    requires
        m <= n <= entries.len(),
    ensures
        entries_weight(entries, m) <= entries_weight(entries, n),
    decreases n,
{
    if m < n {
        lemma_weight_monotonic(entries, m, (n - 1) as nat);
    }
}

impl Listing {
    /// Counts the entries of the listing and of all directories below it;
    /// `None` where the count does not fit.
    pub fn count_entries(&self) -> (r: Option<usize>)
        ensures
            match r {
                Some(n) => n == entry_total(self@),
                None => entry_total(self@) > usize::MAX,
            },
        decreases self,
    {
        match self {
            Listing::Unreadable => Some(0),
            Listing::Entries(entries) => {
                let mut total: usize = 0;
                let mut i: usize = 0;
                let ghost views = entry_views(entries@);
                proof {
                    lemma_listing_entries(*entries);
                }
                while i < entries.len()
                    invariant
                        i <= entries.len(),
                        *self is Entries,
                        self->Entries_0 == *entries,
                        views == entry_views(entries@),
                        self@ == ListingView::Entries(views),
                        total == entries_weight(views, i as nat),
                    decreases entries.len() - i,
                {
                    proof {
                        lemma_weight_monotonic(views, (i + 1) as nat, views.len());
                        assert(views[i as int] == entries@[i as int]@);
                    }
                    let inner: usize = match &entries[i].kind {
                        SourceKind::Directory(listing) => match listing.count_entries() {
                            Some(n) => n,
                            None => {
                                return None;
                            },
                        },
                        _ => 0,
                    };
                    assert(entries_weight(views, (i + 1) as nat) == total + 1 + inner);
                    if inner == usize::MAX {
                        return None;
                    }
                    match total.checked_add(inner + 1) {
                        Some(sum) => {
                            total = sum;
                        },
                        None => {
                            return None;
                        },
                    }
                    i += 1;
                }
                Some(total)
            },
        }
    }
}

} // verus!
