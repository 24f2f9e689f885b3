use crate::path::{extension_of, path_extension, place, place_of, sibling, sibling_of, text_of};
use crate::source::{
    entry_views, lemma_listing_entries, EntryView, KindView, Listing, ListingView, SourceEntry,
    SourceKind,
};
use crate::table::Table;
use crate::text::{lowercase, same_text, to_lowercase};
use crate::video::copy_text;
use vstd::hash_map::StringHashMap;
use vstd::hash_set::StringHashSet;
use vstd::prelude::*;

verus! {

/// The image formats that a cover can have.
#[derive(Clone, Copy, Debug, PartialEq, Eq)]
pub enum CoverFormat {
    JPG,
    PNG,
    BMP,
    WebP,
}

/// What is known of a cover image.
#[derive(Debug, PartialEq, Eq)]
pub struct CoverInfo {
    pub path: String,
    pub name: String,
    /// The file's size in bytes.
    pub size: u64,
    pub format: CoverFormat,
    /// Width and height in pixels, where something measured them.
    pub dimensions: Option<(u32, u32)>,
    /// The video that the cover belongs to.
    pub associated_video: Option<String>,
}

/// The mathematical value of a `CoverInfo`.
pub ghost struct CoverInfoView {
    pub path: Seq<char>,
    pub name: Seq<char>,
    pub size: u64,
    pub format: CoverFormat,
    pub dimensions: Option<(u32, u32)>,
    pub associated_video: Option<Seq<char>>,
}

impl View for CoverInfo {
    type V = CoverInfoView;

    open spec fn view(&self) -> CoverInfoView {
        CoverInfoView {
            path: self.path@,
            name: self.name@,
            size: self.size,
            format: self.format,
            dimensions: self.dimensions,
            associated_video: text_of(self.associated_video),
        }
    }
}

impl Clone for CoverInfo {
    fn clone(&self) -> (r: Self)
        ensures
            r@ == self@,
    {
        CoverInfo {
            path: self.path.clone(),
            name: self.name.clone(),
            size: self.size,
            format: self.format,
            dimensions: self.dimensions,
            associated_video: copy_text(&self.associated_video),
        }
    }
}

/// Why no cover record could be made.
#[derive(Clone, Copy, Debug, PartialEq, Eq)]
pub enum CoverError {
    /// The file's extension is not that of a cover image.
    UnsupportedFormat,
}

impl CoverError {
    /// The error in words.
    pub fn message(&self) -> (r: String)
        ensures
            r@ == "unsupported image format"@,
    {
        "unsupported image format".to_string()
    }
}

/// The format that a lowercase extension stands for.
pub open spec fn format_of_extension(extension: Seq<char>) -> Option<CoverFormat> {
    if extension == "jpg"@ || extension == "jpeg"@ {
        Some(CoverFormat::JPG)
    } else if extension == "png"@ {
        Some(CoverFormat::PNG)
    } else if extension == "bmp"@ {
        Some(CoverFormat::BMP)
    } else if extension == "webp"@ {
        Some(CoverFormat::WebP)
    } else {
        None
    }
}

/// The format of the file at `path`, told by its extension without regard to
/// case.
pub open spec fn detected_format(path: Seq<char>) -> Option<CoverFormat> {
    match path_extension(path) {
        Some(extension) => format_of_extension(lowercase(extension)),
        None => None,
    }
}

/// The name under which a cover without a final path component goes.
pub open spec fn unknown_cover_name() -> Seq<char> {
    "未知文件"@
}

/// The record of a cover at `path` of `size` bytes and the given format.
pub open spec fn cover_info_of(path: Seq<char>, size: u64, format: CoverFormat) -> CoverInfoView {
    CoverInfoView {
        path,
        name: match crate::path::file_name(path) {
            Some(name) => name,
            None => unknown_cover_name(),
        },
        size,
        format,
        dimensions: None,
        associated_video: None,
    }
}

/// The extensions of video files, in the order in which a cover's video is
/// looked for.
pub open spec fn video_extensions() -> Seq<Seq<char>> {
    seq!["mp4"@, "avi"@, "mkv"@, "mov"@, "wmv"@, "flv"@, "webm"@]
}

/// The extensions of cover files, in the order in which a video's cover is
/// looked for.
pub open spec fn cover_extensions() -> Seq<Seq<char>> {
    seq!["jpg"@, "jpeg"@, "png"@, "bmp"@, "webp"@]
}

/// The places of the paths in a list. Two spellings of one path have one
/// place.
pub open spec fn places_in(list: Seq<String>) -> Set<Seq<char>> {
    Set::new(|p: Seq<char>| exists|i: int| 0 <= i < list.len() && place((#[trigger] list[i])@) == p)
}

/// The first sibling of `path` with one of `extensions`, tried in order,
/// whose place is among `existing`.
pub open spec fn first_existing_sibling(
    path: Seq<char>,
    extensions: Seq<Seq<char>>,
    existing: Set<Seq<char>>,
) -> Option<Seq<char>>
    decreases extensions.len(),
{
    if extensions.len() == 0 {
        None
    } else {
        match sibling(path, extensions[0]) {
            None => None,
            Some(candidate) => if existing.contains(place(candidate)) {
                Some(candidate)
            } else {
                first_existing_sibling(path, extensions.drop_first(), existing)
            },
        }
    }
}

/// A cover that exists: a path with a cover's extension whose place is among
/// `existing`.
pub open spec fn is_existing_cover(path: Seq<char>, existing: Set<Seq<char>>) -> bool {
    existing.contains(place(path)) && detected_format(path) is Some
}

/// The first sibling of `path` with one of `extensions`, tried in order, that
/// is an existing cover.
pub open spec fn first_cover_sibling(
    path: Seq<char>,
    extensions: Seq<Seq<char>>,
    existing: Set<Seq<char>>,
) -> Option<Seq<char>>
    decreases extensions.len(),
{
    if extensions.len() == 0 {
        None
    } else {
        match sibling(path, extensions[0]) {
            None => None,
            Some(candidate) => if is_existing_cover(candidate, existing) {
                Some(candidate)
            } else {
                first_cover_sibling(path, extensions.drop_first(), existing)
            },
        }
    }
}

/// What a cover manager knows: the covers by the place of their path, the
/// order in which those places were first seen, and the cover path recorded
/// for the place of each video. A lookup goes by place, so every spelling of a
/// path finds what was filed under any other.
pub ghost struct CoverIndex {
    pub covers: Map<Seq<char>, CoverInfoView>,
    pub order: Seq<Seq<char>>,
    pub links: Map<Seq<char>, Seq<char>>,
}

impl CoverIndex {
    /// The index that knows nothing.
    pub open spec fn empty() -> CoverIndex {
        CoverIndex { covers: Map::empty(), order: Seq::empty(), links: Map::empty() }
    }

    /// The cover recorded for a video, from what is cached alone.
    pub open spec fn cover_for(self, video: Seq<char>) -> Option<CoverInfoView> {
        if self.links.contains_key(place(video)) && self.covers.contains_key(
            place(self.links[place(video)]),
        ) {
            Some(self.covers[place(self.links[place(video)])])
        } else {
            None
        }
    }

    /// The index after a cover record was added.
    pub open spec fn with_cover(self, info: CoverInfoView) -> CoverIndex {
        CoverIndex {
            covers: self.covers.insert(place(info.path), info),
            order: if self.covers.contains_key(place(info.path)) {
                self.order
            } else {
                self.order.push(place(info.path))
            },
            links: match info.associated_video {
                Some(video) => self.links.insert(place(video), info.path),
                None => self.links,
            },
        }
    }

    /// The cover of a video as a live lookup finds it: the recorded one where
    /// it still exists, else the first existing cover beside the video.
    pub open spec fn live_cover(self, video: Seq<char>, existing: Set<Seq<char>>) -> Option<
        Seq<char>,
    > {
        if self.links.contains_key(place(video)) && is_existing_cover(
            self.links[place(video)],
            existing,
        ) {
            Some(self.links[place(video)])
        } else {
            first_cover_sibling(video, cover_extensions(), existing)
        }
    }
}

/// The cover record that a directory entry gives rise to: that of a regular
/// file with a cover's extension, tied to the first existing video beside it.
pub open spec fn cover_of_entry(entry: EntryView, existing: Set<Seq<char>>) -> Option<
    CoverInfoView,
> {
    match (entry.kind, detected_format(entry.path)) {
        (KindView::File { size, video }, Some(format)) => Some(
            CoverInfoView {
                associated_video: first_existing_sibling(entry.path, video_extensions(), existing),
                ..cover_info_of(entry.path, size, format)
            },
        ),
        _ => None,
    }
}

/// The index after the first `n` of `entries` were scanned.
pub open spec fn scanned_index(
    index: CoverIndex,
    entries: Seq<EntryView>,
    n: nat,
    existing: Set<Seq<char>>,
) -> CoverIndex
    decreases n,
{
    if n == 0 || n > entries.len() {
        index
    } else {
        let before = scanned_index(index, entries, (n - 1) as nat, existing);
        match cover_of_entry(entries[n - 1], existing) {
            Some(info) => before.with_cover(info),
            None => before,
        }
    }
}

/// The cover records that the first `n` of `entries` give rise to, in order.
pub open spec fn scanned_covers(entries: Seq<EntryView>, n: nat, existing: Set<Seq<char>>) -> Seq<
    CoverInfoView,
>
    decreases n,
{
    if n == 0 || n > entries.len() {
        Seq::empty()
    } else {
        let before = scanned_covers(entries, (n - 1) as nat, existing);
        match cover_of_entry(entries[n - 1], existing) {
            Some(info) => before.push(info),
            None => before,
        }
    }
}

/// The places of a listing's entries.
pub open spec fn entry_places(entries: Seq<EntryView>) -> Set<Seq<char>> {
    Set::new(
        |p: Seq<char>| exists|i: int| 0 <= i < entries.len() && place((#[trigger] entries[i]).path) == p,
    )
}

/// The views of a list of cover records.
pub open spec fn cover_views(list: Seq<CoverInfo>) -> Seq<CoverInfoView> {
    Seq::new(list.len(), |i: int| list[i]@)
}

/// The views of a list of string slices.
pub open spec fn texts(list: Seq<&'static str>) -> Seq<Seq<char>> {
    Seq::new(list.len(), |i: int| list[i]@)
}

fn video_extension_list() -> (r: Vec<&'static str>)
    ensures
        texts(r@) == video_extensions(),
{
    let r = vec!["mp4", "avi", "mkv", "mov", "wmv", "flv", "webm"];
    assert(texts(r@) =~= video_extensions());
    r
}

fn cover_extension_list() -> (r: Vec<&'static str>)
    ensures
        texts(r@) == cover_extensions(),
{
    let r = vec!["jpg", "jpeg", "png", "bmp", "webp"];
    assert(texts(r@) =~= cover_extensions());
    r
}

/// The set of the places of the paths in `list`.
pub fn path_set(list: &Vec<String>) -> (r: StringHashSet)
    ensures
        r@ == places_in(list@),
{
    let mut r = StringHashSet::new();
    let mut i: usize = 0;
    while i < list.len()
        invariant
            i <= list.len(),
            r@ == places_in(list@.take(i as int)),
        decreases list.len() - i,
    {
        r.insert(place_of(list[i].as_str()));
        proof {
            let before = list@.take(i as int);
            let after = list@.take(i + 1);
            assert forall|p: Seq<char>| places_in(after).contains(p) <==> (places_in(before).contains(
                p,
            ) || p == place(list@[i as int]@)) by {
                if places_in(after).contains(p) {
                    let j = choose|j: int| 0 <= j < after.len() && place((#[trigger] after[j])@) == p;
                    if j < i {
                        assert(place(before[j]@) == p);
                    }
                }
                if places_in(before).contains(p) {
                    let j = choose|j: int|
                        0 <= j < before.len() && place((#[trigger] before[j])@) == p;
                    assert(place(after[j]@) == p);
                }
                if p == place(list@[i as int]@) {
                    assert(place(after[i as int]@) == p);
                }
            }
            assert(r@ =~= places_in(after));
        }
        i += 1;
    }
    assert(list@.take(list.len() as int) =~= list@);
    r
}

/// The set of the places of `entries`.
pub fn entry_path_set(entries: &Vec<SourceEntry>) -> (r: StringHashSet)
    ensures
        r@ == entry_places(entry_views(entries@)),
{
    let ghost views = entry_views(entries@);
    let mut r = StringHashSet::new();
    let mut i: usize = 0;
    while i < entries.len()
        invariant
            i <= entries.len(),
            views == entry_views(entries@),
            r@ == entry_places(views.take(i as int)),
        decreases entries.len() - i,
    {
        r.insert(place_of(entries[i].path.as_str()));
        proof {
            let before = views.take(i as int);
            let after = views.take(i + 1);
            assert(views[i as int].path == entries@[i as int].path@);
            assert forall|p: Seq<char>| entry_places(after).contains(p) <==> (entry_places(
                before,
            ).contains(p) || p == place(views[i as int].path)) by {
                if entry_places(after).contains(p) {
                    let j = choose|j: int|
                        0 <= j < after.len() && place((#[trigger] after[j]).path) == p;
                    if j < i {
                        assert(place(before[j].path) == p);
                    }
                }
                if entry_places(before).contains(p) {
                    let j = choose|j: int|
                        0 <= j < before.len() && place((#[trigger] before[j]).path) == p;
                    assert(place(after[j].path) == p);
                }
                if p == place(views[i as int].path) {
                    assert(place(after[i as int].path) == p);
                }
            }
            assert(r@ =~= entry_places(after));
        }
        i += 1;
    }
    assert(views.take(entries.len() as int) =~= views);
    r
}

/// The format that a lowercase extension stands for.
pub fn format_for_extension(extension: &str) -> (r: Option<CoverFormat>)
    ensures
        r == format_of_extension(extension@),
{
    if same_text(extension, "jpg") || same_text(extension, "jpeg") {
        Some(CoverFormat::JPG)
    } else if same_text(extension, "png") {
        Some(CoverFormat::PNG)
    } else if same_text(extension, "bmp") {
        Some(CoverFormat::BMP)
    } else if same_text(extension, "webp") {
        Some(CoverFormat::WebP)
    } else {
        None
    }
}

/// The format of the file at `path`, told by its extension.
pub fn format_of_path(path: &str) -> (r: Option<CoverFormat>)
    ensures
        r == detected_format(path@),
{
    match extension_of(path) {
        Some(extension) => {
            let lower = to_lowercase(extension.as_str());
            format_for_extension(lower.as_str())
        },
        None => None,
    }
}

fn find_video_sibling(path: &str, existing: &StringHashSet) -> (r: Option<String>)
    ensures
        text_of(r) == first_existing_sibling(path@, video_extensions(), existing@),
{
    let extensions = video_extension_list();
    let ghost all = video_extensions();
    let mut i: usize = 0;
    assert(all.skip(0) =~= all);
    while i < extensions.len()
        invariant
            i <= extensions.len(),
            texts(extensions@) == all,
            all == video_extensions(),
            first_existing_sibling(path@, all, existing@) == first_existing_sibling(
                path@,
                all.skip(i as int),
                existing@,
            ),
        decreases extensions.len() - i,
    {
        proof {
            assert(all.skip(i as int)[0] == extensions@[i as int]@);
            assert(all.skip(i as int).drop_first() =~= all.skip(i + 1));
        }
        match sibling_of(path, extensions[i]) {
            None => {
                return None;
            },
            Some(candidate) => {
                if existing.contains(place_of(candidate.as_str()).as_str()) {
                    return Some(candidate);
                }
            },
        }
        i += 1;
    }
    None
}

fn find_cover_sibling(path: &str, existing: &StringHashSet) -> (r: Option<String>)
    ensures
        text_of(r) == first_cover_sibling(path@, cover_extensions(), existing@),
{
    let extensions = cover_extension_list();
    let ghost all = cover_extensions();
    let mut i: usize = 0;
    assert(all.skip(0) =~= all);
    while i < extensions.len()
        invariant
            i <= extensions.len(),
            texts(extensions@) == all,
            all == cover_extensions(),
            first_cover_sibling(path@, all, existing@) == first_cover_sibling(
                path@,
                all.skip(i as int),
                existing@,
            ),
        decreases extensions.len() - i,
    {
        proof {
            assert(all.skip(i as int)[0] == extensions@[i as int]@);
            assert(all.skip(i as int).drop_first() =~= all.skip(i + 1));
        }
        match sibling_of(path, extensions[i]) {
            None => {
                return None;
            },
            Some(candidate) => {
                if existing.contains(place_of(candidate.as_str()).as_str()) && format_of_path(
                    candidate.as_str(),
                ).is_some() {
                    return Some(candidate);
                }
            },
        }
        i += 1;
    }
    None
}

/// Finds cover images and remembers which video each belongs to.
pub struct CoverManager {
    /// The covers seen, by path.
    covers: Table<CoverInfo>,
    /// The cover path recorded for each video path.
    video_to_cover: StringHashMap<String>,
}

impl View for CoverManager {
    type V = CoverIndex;

    closed spec fn view(&self) -> CoverIndex {
        CoverIndex {
            covers: self.covers@.map_values(|c: CoverInfo| c@),
            order: self.covers.keys(),
            links: self.video_to_cover@.map_values(|s: String| s@),
        }
    }
}

impl CoverManager {
    /// Every cover is filed under the place of its own path, and the order
    /// lists each place once.
    pub closed spec fn wf(&self) -> bool {
        &&& self.covers.wf()
        &&& forall|k: Seq<char>| #[trigger]
            self.covers@.contains_key(k) ==> place(self.covers@[k].path@) == k
    }

    /// In a well-formed manager each cover is filed under the place of its
    /// path, and the order holds exactly those places, each once.
    pub proof fn lemma_wf(&self)
        requires
            self.wf(),
        ensures
            forall|k: Seq<char>| #[trigger]
                self@.covers.contains_key(k) ==> place(self@.covers[k].path) == k,
            forall|k: Seq<char>| self@.covers.contains_key(k) <==> self@.order.contains(k),
            self@.order.no_duplicates(),
    {
        self.covers.lemma_keys();
        assert forall|k: Seq<char>| #[trigger] self@.covers.contains_key(k) implies place(
            self@.covers[k].path,
        ) == k by {
            assert(self.covers@.contains_key(k));
        }
    }

    pub fn new() -> (r: Self)
        ensures
            r.wf(),
            r@ == CoverIndex::empty(),
    {
        let r = CoverManager { covers: Table::new(), video_to_cover: StringHashMap::new() };
        assert(r@.covers =~= Map::<Seq<char>, CoverInfoView>::empty());
        assert(r@.links =~= Map::<Seq<char>, Seq<char>>::empty());
        r
    }

    /// The image format that the extension of `path` stands for.
    pub fn detect_format(&self, path: &str) -> (r: Option<CoverFormat>)
        ensures
            r == detected_format(path@),
    {
        format_of_path(path)
    }

    /// Whether `path` has the extension of a cover image.
    pub fn is_cover_file(&self, path: &str) -> (r: bool)
        ensures
            r == (detected_format(path@) is Some),
    {
        self.detect_format(path).is_some()
    }

    /// The record of the cover at `path`, a file of `size` bytes. Fails where
    /// the extension is not that of a cover image.
    pub fn create_cover_info(&self, path: String, size: u64) -> (r: Result<CoverInfo, CoverError>)
        ensures
            match r {
                Ok(info) => detected_format(path@) is Some && info@ == cover_info_of(
                    path@,
                    size,
                    detected_format(path@)->0,
                ),
                Err(e) => detected_format(path@) is None && e == CoverError::UnsupportedFormat,
            },
    {
        match self.detect_format(path.as_str()) {
            None => Err(CoverError::UnsupportedFormat),
            Some(format) => {
                let name = match crate::path::file_name_of(path.as_str()) {
                    Some(name) => name,
                    None => "未知文件".to_string(),
                };
                Ok(CoverInfo { path, name, size, format, dimensions: None, associated_video: None })
            },
        }
    }

    /// The video that a cover belongs to: the first path beside the cover,
    /// with its stem and a video extension, that leads to the place of one of
    /// `existing`. It is spelled as the cover's directory is.
    pub fn find_associated_video(&self, cover_path: &str, existing: &Vec<String>) -> (r: Option<
        String,
    >)
        ensures
            text_of(r) == first_existing_sibling(cover_path@, video_extensions(), places_in(existing@)),
    {
        let set = path_set(existing);
        find_video_sibling(cover_path, &set)
    }

    /// The cover filed under the place of `path`.
    pub fn get_cover(&self, path: &str) -> (r: Option<&CoverInfo>)
        ensures
            match r {
                Some(info) => self@.covers.contains_key(place(path@)) && info@ == self@.covers[place(
                    path@,
                )],
                None => !self@.covers.contains_key(place(path@)),
            },
    {
        self.covers.get(place_of(path).as_str())
    }

    /// All covers, in the order in which their places were first seen.
    pub fn get_all_covers(&self) -> (r: Vec<&CoverInfo>)
        requires
            self.wf(),
        ensures
            r@.len() == self@.order.len(),
            forall|i: int|
                0 <= i < r@.len() ==> self@.covers.contains_key(#[trigger] self@.order[i]) && r@[i]@
                    == self@.covers[self@.order[i]],
    {
        let mut r: Vec<&CoverInfo> = Vec::new();
        let mut i: usize = 0;
        let ghost index = self@;
        proof {
            self.covers.lemma_keys();
        }
        while i < self.covers.len()
            invariant
                i <= self.covers.keys().len(),
                r@.len() == i,
                index == self@,
                forall|k: Seq<char>| self.covers@.contains_key(k) <==> self.covers.keys().contains(k),
                forall|j: int|
                    0 <= j < i ==> index.covers.contains_key(#[trigger] index.order[j]) && r@[j]@
                        == index.covers[index.order[j]],
            decreases self.covers.keys().len() - i,
        {
            let key = self.covers.key_at(i);
            assert(self.covers.keys().contains(key@));
            match self.covers.get(key.as_str()) {
                Some(info) => {
                    r.push(info);
                    assert(index.order[i as int] == key@);
                    assert(index.covers.contains_key(key@));
                    assert(index.covers[key@] == self.covers@[key@]@);
                },
                None => {
                    assert(false);
                },
            }
            i += 1;
        }
        r
    }

    /// The cover recorded for a video, from what is cached alone.
    pub fn find_cover_for_video(&self, video_path: &str) -> (r: Option<&CoverInfo>)
        ensures
            match r {
                Some(info) => self@.cover_for(video_path@) == Some(info@),
                None => self@.cover_for(video_path@) is None,
            },
    {
        match self.video_to_cover.get(place_of(video_path).as_str()) {
            Some(cover_path) => self.covers.get(place_of(cover_path.as_str()).as_str()),
            None => None,
        }
    }

    /// Whether `cover_path` has a cover's extension and its place is that of
    /// one of `existing`.
    pub fn cover_exists(&self, cover_path: &str, existing: &Vec<String>) -> (r: bool)
        ensures
            r == is_existing_cover(cover_path@, places_in(existing@)),
    {
        let set = path_set(existing);
        set.contains(place_of(cover_path).as_str()) && self.is_cover_file(cover_path)
    }

    /// The cover of a video, looked up afresh: the recorded cover where its
    /// place is still that of one of `existing`, else the first path beside the
    /// video, with its stem and a cover extension, of which that holds.
    pub fn get_video_cover_path(&self, video_path: &str, existing: &Vec<String>) -> (r: Option<
        String,
    >)
        ensures
            text_of(r) == self@.live_cover(video_path@, places_in(existing@)),
            r is Some ==> places_in(existing@).contains(place(r->0@)),
    {
        let set = path_set(existing);
        match self.video_to_cover.get(place_of(video_path).as_str()) {
            Some(cover_path) => {
                if set.contains(place_of(cover_path.as_str()).as_str()) && self.is_cover_file(
                    cover_path.as_str(),
                ) {
                    return Some(cover_path.clone());
                }
            },
            None => {},
        }
        let r = find_cover_sibling(video_path, &set);
        proof {
            lemma_cover_sibling_exists(video_path@, cover_extensions(), set@);
        }
        r
    }

    /// Files a cover record under the place of its path and, where it names a
    /// video, links the place of that video to it.
    fn record(&mut self, info: CoverInfo)
        requires
            old(self).wf(),
        ensures
            final(self).wf(),
            final(self)@ == old(self)@.with_cover(info@),
    {
        let ghost before = self@;
        let ghost value = info@;
        let key = place_of(info.path.as_str());
        match &info.associated_video {
            Some(video) => {
                self.video_to_cover.insert(place_of(video.as_str()), info.path.clone());
            },
            None => {},
        }
        self.covers.insert(key, info);
        proof {
            assert(self@.covers =~= before.covers.insert(place(value.path), value));
            assert(self@.links =~= before.with_cover(value).links);
            assert(before.covers.contains_key(place(value.path)) == old(self).covers@.contains_key(
                place(value.path),
            ));
            assert forall|k: Seq<char>| #[trigger]
                self.covers@.contains_key(k) implies place(self.covers@[k].path@) == k by {
                if k != place(value.path) {
                    assert(old(self).covers@.contains_key(k));
                }
            }
        }
    }

    /// Scans one directory for covers: every regular file of the listing
    /// with a cover's extension gets a record, tied to the first video of the
    /// same stem in the listing, and is filed. A directory that could not be
    /// read yields nothing and changes nothing.
    pub fn scan_covers(&mut self, listing: &Listing) -> (r: Vec<CoverInfo>)
        requires
            old(self).wf(),
        ensures
            final(self).wf(),
            match listing@ {
                ListingView::Entries(entries) => {
                    &&& final(self)@ == scanned_index(
                        old(self)@,
                        entries,
                        entries.len(),
                        entry_places(entries),
                    )
                    &&& cover_views(r@) == scanned_covers(entries, entries.len(), entry_places(entries))
                },
                ListingView::Unreadable => final(self)@ == old(self)@ && r@.len() == 0,
            },
    {
        let mut r: Vec<CoverInfo> = Vec::new();
        match listing {
            Listing::Unreadable => {},
            Listing::Entries(entries) => {
                let existing = entry_path_set(entries);
                let ghost views = entry_views(entries@);
                proof {
                    lemma_listing_entries(*entries);
                }
                let mut i: usize = 0;
                assert(cover_views(r@) =~= Seq::<CoverInfoView>::empty());
                while i < entries.len()
                    invariant
                        i <= entries.len(),
                        self.wf(),
                        views == entry_views(entries@),
                        existing@ == entry_places(views),
                        self@ == scanned_index(old(self)@, views, i as nat, existing@),
                        cover_views(r@) == scanned_covers(views, i as nat, existing@),
                    decreases entries.len() - i,
                {
                    let entry = &entries[i];
                    let ghost found = cover_views(r@);
                    assert(views[i as int] == entry@);
                    match &entry.kind {
                        SourceKind::File { size, video } => {
                            match format_of_path(entry.path.as_str()) {
                                Some(format) => {
                                    let made = self.create_cover_info(entry.path.clone(), *size);
                                    match made {
                                        Ok(mut info) => {
                                            info.associated_video = find_video_sibling(
                                                entry.path.as_str(),
                                                &existing,
                                            );
                                            assert(Some(info@) == cover_of_entry(entry@, existing@));
                                            self.record(info.clone());
                                            r.push(info);
                                            assert(cover_views(r@) =~= found.push(info@));
                                        },
                                        Err(_) => {},
                                    }
                                },
                                None => {},
                            }
                        },
                        _ => {},
                    }
                    i += 1;
                }
            },
        }
        r
    }

    /// Forgets every cover and every link.
    pub fn clear_cache(&mut self)
        ensures
            final(self).wf(),
            final(self)@ == CoverIndex::empty(),
    {
        self.covers.clear();
        self.video_to_cover.clear();
        assert(self@.covers =~= Map::<Seq<char>, CoverInfoView>::empty());
        assert(self@.links =~= Map::<Seq<char>, Seq<char>>::empty());
    }
}

/// A cover found beside a video is an existing cover.
pub proof fn lemma_cover_sibling_exists(
    path: Seq<char>,
    extensions: Seq<Seq<char>>,
    existing: Set<Seq<char>>,
)
    ensures
        first_cover_sibling(path, extensions, existing) is Some ==> is_existing_cover(
            first_cover_sibling(path, extensions, existing)->0,
            existing,
        ),
    decreases extensions.len(),
{
    if extensions.len() > 0 {
        lemma_cover_sibling_exists(path, extensions.drop_first(), existing);
    }
}

} // verus!
