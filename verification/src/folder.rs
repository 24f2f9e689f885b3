use crate::cover::{CoverIndex, CoverManager};
use crate::identity::{generate_deterministic_root_id, is_uuid_text, random_uuid, root_key, url_uuid_v5};
use crate::node::DirectoryNode;
use crate::path::text_of;
use crate::listing::{listed_entries, listed_views, parse_listing, ListedEntry};
use crate::source::{entry_total, Listing, ListingView};
use crate::table::Table;
use crate::tree::{aggregates, tree_of, NodeView, ScanBounds};
use crate::video::{display_name, display_name_of};
use crate::walk::{build_in_bounded_pool, build_node, ScanLimits};
use vstd::hash_map::StringHashMap;
use vstd::prelude::*;

verus! {

/// The depth beyond which a scan reads no directory, unless it is set
/// otherwise.
pub const HARD_DEPTH_CEILING: i32 = 100;

/// The number of entries of a directory that a scan looks at by default.
pub const DEFAULT_MAX_FILES_PER_DIR: usize = 10000;

/// The settings of the concurrent scan.
#[derive(Clone, Copy, Debug, PartialEq, Eq)]
pub struct ParallelScanConfig {
    /// The size of the worker pool.
    pub max_threads: usize,
    /// The number of entries of a directory that are looked at.
    pub max_files_per_dir: usize,
    /// The depth beyond which no directory is read.
    pub max_depth: i32,
    /// Whether directories are scanned concurrently.
    pub enabled: bool,
}

/// Calls `num_cpus::get`, the number of processors that the machine offers
/// to this process. Its documentation promises at least one.
#[verifier::external_body]
fn available_processors() -> (r: usize)
    ensures
        r >= 1,
{
    num_cpus::get()
}

/// Calls `chrono::Utc::now` and `timestamp_millis` on it: the time of the
/// call in milliseconds since the Unix epoch. Nothing is claimed of it. The
/// call panics where the system's clock stands before the epoch.
#[verifier::external_body]
fn current_time_millis() -> (r: i64) {
    chrono::Utc::now().timestamp_millis()
}

/// The worker pool size for a request: the request itself, or, for a request
/// of zero, the number of processors at hand.
pub open spec fn thread_count(requested: usize, available: usize) -> usize {
    if requested == 0 {
        available
    } else {
        requested
    }
}

/// The worker pool size for a request of `requested` threads on a machine
/// with `available` processors.
pub fn resolve_thread_count(requested: usize, available: usize) -> (r: usize)
    ensures
        r == thread_count(requested, available),
{
    if requested == 0 {
        available
    } else {
        requested
    }
}

impl ParallelScanConfig {
    /// The default settings on a machine with `processors` processors.
    pub open spec fn default_for(processors: usize) -> ParallelScanConfig {
        ParallelScanConfig {
            max_threads: processors,
            max_files_per_dir: DEFAULT_MAX_FILES_PER_DIR,
            max_depth: HARD_DEPTH_CEILING,
            enabled: true,
        }
    }

    /// The default settings on a machine with `processors` processors.
    pub fn with_processors(processors: usize) -> (r: Self)
        ensures
            r == Self::default_for(processors),
    {
        ParallelScanConfig {
            max_threads: processors,
            max_files_per_dir: DEFAULT_MAX_FILES_PER_DIR,
            max_depth: HARD_DEPTH_CEILING,
            enabled: true,
        }
    }
}

impl Default for ParallelScanConfig {
    /// The default settings on this machine: one worker for each processor.
    fn default() -> (r: Self)
        ensures
            r == Self::default_for(r.max_threads),
            r.max_threads >= 1,
    {
        ParallelScanConfig::with_processors(available_processors())
    }
}

/// A directory registered for scanning.
#[derive(Debug, PartialEq, Eq)]
pub struct RootFolder {
    pub id: String,
    pub path: String,
    pub name: String,
    /// Whether the folder may be scanned.
    pub enabled: bool,
    /// How deep a scan goes; -1 for no limit.
    pub max_depth: i32,
    /// When the folder was last scanned, in milliseconds since the Unix epoch.
    pub last_scan: Option<i64>,
}

/// The mathematical value of a root folder.
pub ghost struct RootFolderView {
    pub id: Seq<char>,
    pub path: Seq<char>,
    pub name: Seq<char>,
    pub enabled: bool,
    pub max_depth: i32,
    pub last_scan: Option<i64>,
}

impl View for RootFolder {
    type V = RootFolderView;

    open spec fn view(&self) -> RootFolderView {
        RootFolderView {
            id: self.id@,
            path: self.path@,
            name: self.name@,
            enabled: self.enabled,
            max_depth: self.max_depth,
            last_scan: self.last_scan,
        }
    }
}

impl Clone for RootFolder {
    fn clone(&self) -> (r: Self)
        ensures
            r@ == self@,
    {
        RootFolder {
            id: self.id.clone(),
            path: self.path.clone(),
            name: self.name.clone(),
            enabled: self.enabled,
            max_depth: self.max_depth,
            last_scan: self.last_scan,
        }
    }
}

/// The folder as it is when first registered: enabled, without a depth limit,
/// never scanned, and named after the last component of its path unless a
/// name is given.
pub open spec fn registered_folder(
    id: Seq<char>,
    path: Seq<char>,
    name: Option<Seq<char>>,
) -> RootFolderView {
    RootFolderView {
        id,
        path,
        name: match name {
            Some(n) => n,
            None => display_name(path),
        },
        enabled: true,
        max_depth: -1i32,
        last_scan: None,
    }
}

/// Why a tree was not built.
#[derive(Clone, Copy, Debug, PartialEq, Eq)]
pub enum BuildError {
    /// No folder is registered under the id.
    NotFound,
    /// The folder is registered, but scanning it is switched off.
    Disabled,
}

impl BuildError {
    /// The error in words.
    pub fn message(&self) -> (r: String)
        ensures
            r@ == match *self {
                BuildError::NotFound => "root folder not found"@,
                BuildError::Disabled => "root folder is disabled"@,
            },
    {
        match self {
            BuildError::NotFound => "root folder not found".to_string(),
            BuildError::Disabled => "root folder is disabled".to_string(),
        }
    }
}

/// What a folder manager holds: the registered folders by id, the order in
/// which their ids were first registered, the last tree built for each id,
/// and the scan settings.
pub ghost struct ManagerView {
    pub roots: Map<Seq<char>, RootFolderView>,
    pub order: Seq<Seq<char>>,
    pub trees: Map<Seq<char>, NodeView>,
    pub config: ParallelScanConfig,
}

impl ManagerView {
    /// The manager after a folder was registered.
    pub open spec fn with_root(self, folder: RootFolderView) -> ManagerView {
        ManagerView {
            roots: self.roots.insert(folder.id, folder),
            order: if self.roots.contains_key(folder.id) {
                self.order
            } else {
                self.order.push(folder.id)
            },
            ..self
        }
    }

    /// The manager after the folder under `id` was replaced by `folder`.
    pub open spec fn with_changed(self, id: Seq<char>, folder: RootFolderView) -> ManagerView {
        ManagerView { roots: self.roots.insert(id, folder), ..self }
    }

    /// The manager after the folder under `id` was removed.
    pub open spec fn without_root(self, id: Seq<char>) -> ManagerView {
        ManagerView {
            roots: self.roots.remove(id),
            order: if self.roots.contains_key(id) {
                self.order.remove(self.order.index_of(id))
            } else {
                self.order
            },
            ..self
        }
    }

    /// The limits of a scan of a folder with the depth limit `max_depth`. They
    /// are the same for the concurrent walk and for the sequential one.
    pub open spec fn bounds(self, max_depth: i32, parallel: bool) -> ScanBounds {
        ScanBounds {
            depth_limit: max_depth as int,
            ceiling: self.config.max_depth as int,
            max_entries: self.config.max_files_per_dir as nat,
        }
    }
}

/// What a build of the folder under `id` does to a manager and returns:
/// without such a folder `NotFound`, for a disabled one `Disabled`, both with
/// the manager unchanged; else the tree of the folder's path from depth 0
/// within the folder's limits, kept as the last tree of `id`.
pub open spec fn built(
    before: ManagerView,
    after: ManagerView,
    id: Seq<char>,
    listing: ListingView,
    index: CoverIndex,
    parallel: bool,
    result: Result<DirectoryNode, BuildError>,
) -> bool {
    if !before.roots.contains_key(id) {
        result == Err::<DirectoryNode, BuildError>(BuildError::NotFound) && after == before
    } else if !before.roots[id].enabled {
        result == Err::<DirectoryNode, BuildError>(BuildError::Disabled) && after == before
    } else {
        &&& result is Ok
        &&& result->Ok_0@ == tree_of(
            before.roots[id].path,
            listing,
            index,
            0,
            before.bounds(before.roots[id].max_depth, parallel),
        )
        &&& aggregates(result->Ok_0@, index)
        &&& after == (ManagerView { trees: before.trees.insert(id, result->Ok_0@), ..before })
    }
}

/// Keeps the registered root folders, the scan settings and the last tree
/// built for each folder.
pub struct FolderManager {
    /// The registered folders, by id.
    root_folders: Table<RootFolder>,
    /// The last tree built for each id.
    directory_trees: StringHashMap<DirectoryNode>,
    /// The scan settings.
    parallel_config: ParallelScanConfig,
}

impl View for FolderManager {
    type V = ManagerView;

    closed spec fn view(&self) -> ManagerView {
        ManagerView {
            roots: self.root_folders@.map_values(|f: RootFolder| f@),
            order: self.root_folders.keys(),
            trees: self.directory_trees@.map_values(|n: DirectoryNode| n@),
            config: self.parallel_config,
        }
    }
}

impl FolderManager {
    /// Every folder is filed under its own id, and the order lists each
    /// registered id once.
    pub closed spec fn wf(&self) -> bool {
        &&& self.root_folders.wf()
        &&& forall|k: Seq<char>| #[trigger]
            self.root_folders@.contains_key(k) ==> self.root_folders@[k].id@ == k
    }

    /// In a well-formed manager each folder is filed under its id, and the
    /// order holds exactly the registered ids, each once.
    pub proof fn lemma_wf(&self)
        requires
            self.wf(),
        ensures
            forall|k: Seq<char>| #[trigger] self@.roots.contains_key(k) ==> self@.roots[k].id == k,
            forall|k: Seq<char>| self@.roots.contains_key(k) <==> self@.order.contains(k),
            self@.order.no_duplicates(),
    {
        self.root_folders.lemma_keys();
        assert forall|k: Seq<char>| #[trigger] self@.roots.contains_key(k) implies self@.roots[k].id
            == k by {
            assert(self.root_folders@.contains_key(k));
        }
    }

    /// A manager without folders or trees, with the default settings of this
    /// machine.
    pub fn new() -> (r: Self)
        ensures
            r.wf(),
            r@.roots == Map::<Seq<char>, RootFolderView>::empty(),
            r@.order == Seq::<Seq<char>>::empty(),
            r@.trees == Map::<Seq<char>, NodeView>::empty(),
            r@.config == ParallelScanConfig::default_for(r@.config.max_threads),
            r@.config.max_threads >= 1,
    {
        let r = FolderManager {
            root_folders: Table::new(),
            directory_trees: StringHashMap::new(),
            parallel_config: ParallelScanConfig::default(),
        };
        assert(r@.roots =~= Map::<Seq<char>, RootFolderView>::empty());
        assert(r@.trees =~= Map::<Seq<char>, NodeView>::empty());
        r
    }

    /// Files `folder` under its id.
    fn store(&mut self, folder: RootFolder)
        requires
            old(self).wf(),
        ensures
            final(self).wf(),
            final(self)@ == old(self)@.with_root(folder@),
    {
        let ghost before = self@;
        let ghost value = folder@;
        let key = folder.id.clone();
        self.root_folders.insert(key, folder);
        proof {
            assert(self@.roots =~= before.roots.insert(value.id, value));
            assert(before.roots.contains_key(value.id) == old(self).root_folders@.contains_key(
                value.id,
            ));
            assert forall|k: Seq<char>| #[trigger]
                self.root_folders@.contains_key(k) implies self.root_folders@[k].id@ == k by {
                if k != value.id {
                    assert(old(self).root_folders@.contains_key(k));
                }
            }
        }
    }

    /// Registers the folder at `path` under `id`, replacing what was
    /// registered under it, and returns the id.
    pub fn add_root_folder_with_id(&mut self, id: String, path: String, name: Option<String>) -> (r:
        String)
        requires
            old(self).wf(),
        ensures
            final(self).wf(),
            r@ == id@,
            final(self)@ == old(self)@.with_root(registered_folder(id@, path@, text_of(name))),
    {
        let folder_name = match name {
            Some(n) => n,
            None => display_name_of(path.as_str()),
        };
        let folder = RootFolder {
            id: id.clone(),
            path,
            name: folder_name,
            enabled: true,
            max_depth: -1,
            last_scan: None,
        };
        self.store(folder);
        id
    }

    /// Registers the folder at `path` under a fresh random id and returns the
    /// id.
    pub fn add_root_folder(&mut self, path: String, name: Option<String>) -> (r: String)
        requires
            old(self).wf(),
        ensures
            final(self).wf(),
            is_uuid_text(r@),
            final(self)@ == old(self)@.with_root(registered_folder(r@, path@, text_of(name))),
    {
        let id = random_uuid();
        self.add_root_folder_with_id(id, path, name)
    }

    /// Registers the folder at `path`, which lies on the volume with the key
    /// `volume_key`, under the id that the two determine, and returns the id.
    pub fn add_root_folder_deterministic(
        &mut self,
        path: String,
        name: Option<String>,
        volume_key: &str,
    ) -> (r: String)
        requires
            old(self).wf(),
        ensures
            final(self).wf(),
            r@ == url_uuid_v5(root_key(volume_key@, path@)),
            final(self)@ == old(self)@.with_root(registered_folder(r@, path@, text_of(name))),
    {
        let id = generate_deterministic_root_id(path.as_str(), volume_key);
        self.add_root_folder_with_id(id, path, name)
    }

    /// Removes the folder registered under `id` and says whether there was
    /// one.
    pub fn remove_root_folder(&mut self, id: &str) -> (r: bool)
        requires
            old(self).wf(),
        ensures
            final(self).wf(),
            r == old(self)@.roots.contains_key(id@),
            final(self)@ == old(self)@.without_root(id@),
    {
        let ghost before = self@;
        let r = self.root_folders.remove(id);
        proof {
            assert(self@.roots =~= before.roots.remove(id@));
            assert(before.roots.contains_key(id@) == old(self).root_folders@.contains_key(id@));
            assert forall|k: Seq<char>| #[trigger]
                self.root_folders@.contains_key(k) implies self.root_folders@[k].id@ == k by {
                assert(old(self).root_folders@.contains_key(k));
            }
        }
        r
    }

    /// The folder registered under `id`.
    pub fn get_root_folder(&self, id: &str) -> (r: Option<&RootFolder>)
        ensures
            match r {
                Some(folder) => self@.roots.contains_key(id@) && folder@ == self@.roots[id@],
                None => !self@.roots.contains_key(id@),
            },
    {
        self.root_folders.get(id)
    }

    /// All registered folders, in the order in which their ids were first
    /// registered.
    pub fn get_all_root_folders(&self) -> (r: Vec<RootFolder>)
        requires
            self.wf(),
        ensures
            r@.len() == self@.order.len(),
            forall|i: int|
                0 <= i < r@.len() ==> self@.roots.contains_key(#[trigger] self@.order[i]) && r@[i]@
                    == self@.roots[self@.order[i]],
    {
        let mut r: Vec<RootFolder> = Vec::new();
        let mut i: usize = 0;
        let ghost view = self@;
        proof {
            self.root_folders.lemma_keys();
        }
        while i < self.root_folders.len()
            invariant
                i <= self.root_folders.keys().len(),
                r@.len() == i,
                view == self@,
                forall|k: Seq<char>|
                    self.root_folders@.contains_key(k) <==> self.root_folders.keys().contains(k),
                forall|j: int|
                    0 <= j < i ==> view.roots.contains_key(#[trigger] view.order[j]) && r@[j]@
                        == view.roots[view.order[j]],
            decreases self.root_folders.keys().len() - i,
        {
            let key = self.root_folders.key_at(i);
            assert(self.root_folders.keys().contains(key@));
            match self.root_folders.get(key.as_str()) {
                Some(folder) => {
                    r.push(folder.clone());
                    assert(view.order[i as int] == key@);
                    assert(view.roots.contains_key(key@));
                    assert(view.roots[key@] == self.root_folders@[key@]@);
                },
                None => {
                    assert(false);
                },
            }
            i += 1;
        }
        r
    }

    /// Replaces the folder registered under the id of `folder` by `folder`.
    fn replace(&mut self, folder: RootFolder)
        requires
            old(self).wf(),
            old(self)@.roots.contains_key(folder.id@),
        ensures
            final(self).wf(),
            final(self)@ == old(self)@.with_changed(folder.id@, folder@),
    {
        self.store(folder);
    }

    /// Switches scanning of the folder under `id` on or off, and says whether
    /// there is such a folder.
    pub fn set_folder_enabled(&mut self, id: &str, enabled: bool) -> (r: bool)
        requires
            old(self).wf(),
        ensures
            final(self).wf(),
            r == old(self)@.roots.contains_key(id@),
            final(self)@ == if r {
                old(self)@.with_changed(id@, RootFolderView { enabled, ..old(self)@.roots[id@] })
            } else {
                old(self)@
            },
    {
        proof {
            self.lemma_wf();
        }
        match self.root_folders.get(id) {
            Some(folder) => {
                let mut changed = folder.clone();
                changed.enabled = enabled;
                self.replace(changed);
                true
            },
            None => false,
        }
    }

    /// Sets the depth limit of the folder under `id`, and says whether there
    /// is such a folder.
    pub fn set_max_depth(&mut self, id: &str, max_depth: i32) -> (r: bool)
        requires
            old(self).wf(),
        ensures
            final(self).wf(),
            r == old(self)@.roots.contains_key(id@),
            final(self)@ == if r {
                old(self)@.with_changed(id@, RootFolderView { max_depth, ..old(self)@.roots[id@] })
            } else {
                old(self)@
            },
    {
        proof {
            self.lemma_wf();
        }
        match self.root_folders.get(id) {
            Some(folder) => {
                let mut changed = folder.clone();
                changed.max_depth = max_depth;
                self.replace(changed);
                true
            },
            None => false,
        }
    }

    /// Records that the folder under `id` was scanned at `timestamp`, and
    /// says whether there is such a folder.
    pub fn set_scan_time(&mut self, id: &str, timestamp: i64) -> (r: bool)
        requires
            old(self).wf(),
        ensures
            final(self).wf(),
            r == old(self)@.roots.contains_key(id@),
            final(self)@ == if r {
                old(self)@.with_changed(
                    id@,
                    RootFolderView { last_scan: Some(timestamp), ..old(self)@.roots[id@] },
                )
            } else {
                old(self)@
            },
    {
        proof {
            self.lemma_wf();
        }
        match self.root_folders.get(id) {
            Some(folder) => {
                let mut changed = folder.clone();
                changed.last_scan = Some(timestamp);
                self.replace(changed);
                true
            },
            None => false,
        }
    }

    /// Records that the folder under `id` was scanned now, and says whether
    /// there is such a folder.
    pub fn update_scan_time(&mut self, id: &str) -> (r: bool)
        requires
            old(self).wf(),
        ensures
            final(self).wf(),
            r == old(self)@.roots.contains_key(id@),
            r ==> final(self)@.roots.contains_key(id@) && final(self)@.roots[id@].last_scan is Some
                && final(self)@ == old(self)@.with_changed(
                id@,
                RootFolderView {
                    last_scan: final(self)@.roots[id@].last_scan,
                    ..old(self)@.roots[id@]
                },
            ),
            !r ==> final(self)@ == old(self)@,
    {
        let now = current_time_millis();
        self.set_scan_time(id, now)
    }

    /// The last tree built for `root_id`.
    pub fn get_directory_tree(&self, root_id: &str) -> (r: Option<&DirectoryNode>)
        ensures
            match r {
                Some(tree) => self@.trees.contains_key(root_id@) && tree@ == self@.trees[root_id@],
                None => !self@.trees.contains_key(root_id@),
            },
    {
        self.directory_trees.get(root_id)
    }

    /// Forgets the tree built for `root_id`, so that the next build starts
    /// afresh.
    pub fn clear_directory_tree(&mut self, root_id: &str)
        requires
            old(self).wf(),
        ensures
            final(self).wf(),
            final(self)@ == (ManagerView { trees: old(self)@.trees.remove(root_id@), ..old(self)@ }),
    {
        self.directory_trees.remove(root_id);
        assert(self@.trees =~= old(self)@.trees.remove(root_id@));
    }

    /// Forgets every tree.
    pub fn clear_cache(&mut self)
        requires
            old(self).wf(),
        ensures
            final(self).wf(),
            final(self)@ == (ManagerView { trees: Map::empty(), ..old(self)@ }),
    {
        self.directory_trees.clear();
        assert(self@.trees =~= Map::<Seq<char>, NodeView>::empty());
    }

    /// The scan settings.
    pub fn get_parallel_config(&self) -> (r: &ParallelScanConfig)
        ensures
            *r == self@.config,
    {
        &self.parallel_config
    }

    /// Replaces the scan settings.
    pub fn update_parallel_config(&mut self, config: ParallelScanConfig)
        requires
            old(self).wf(),
        ensures
            final(self).wf(),
            final(self)@ == (ManagerView { config, ..old(self)@ }),
    {
        self.parallel_config = config;
    }

    /// Sets the size of the worker pool to `max_threads`.
    fn set_thread_count(&mut self, max_threads: usize)
        requires
            old(self).wf(),
        ensures
            final(self).wf(),
            final(self)@ == (ManagerView {
                config: ParallelScanConfig { max_threads, ..old(self)@.config },
                ..old(self)@
            }),
    {
        self.parallel_config.max_threads = max_threads;
    }

    /// Sets the size of the worker pool; zero asks for one worker for each
    /// processor of this machine.
    pub fn set_max_threads(&mut self, max_threads: usize)
        requires
            old(self).wf(),
        ensures
            final(self).wf(),
            final(self)@ == (ManagerView {
                config: ParallelScanConfig {
                    max_threads: final(self)@.config.max_threads,
                    ..old(self)@.config
                },
                ..old(self)@
            }),
            max_threads != 0 ==> final(self)@.config.max_threads == max_threads,
            final(self)@.config.max_threads >= 1,
    {
        let count = if max_threads == 0 {
            resolve_thread_count(max_threads, available_processors())
        } else {
            resolve_thread_count(max_threads, 0)
        };
        self.set_thread_count(count);
    }

    /// Sets the number of entries of a directory that a scan looks at.
    pub fn set_max_files_per_dir(&mut self, max_files: usize)
        requires
            old(self).wf(),
        ensures
            final(self).wf(),
            final(self)@ == (ManagerView {
                config: ParallelScanConfig { max_files_per_dir: max_files, ..old(self)@.config },
                ..old(self)@
            }),
    {
        self.parallel_config.max_files_per_dir = max_files;
    }

    /// Sets the depth beyond which a scan reads no directory.
    pub fn set_max_scan_depth(&mut self, max_depth: i32)
        requires
            old(self).wf(),
        ensures
            final(self).wf(),
            final(self)@ == (ManagerView {
                config: ParallelScanConfig { max_depth, ..old(self)@.config },
                ..old(self)@
            }),
    {
        self.parallel_config.max_depth = max_depth;
    }

    /// The entries of the directory `dir` as read from `output`, the long
    /// listing that the listing utility printed of it when the directory could
    /// not be read directly; no more of them than a scan looks at.
    pub fn scan_directory_entries_fallback(&self, dir: &str, output: &str) -> (r: Vec<ListedEntry>)
        ensures
            listed_views(r@) == listed_entries(
                dir@,
                output@,
                self@.config.max_files_per_dir as nat,
            ),
            r@.len() <= self@.config.max_files_per_dir,
    {
        parse_listing(dir, output, self.parallel_config.max_files_per_dir)
    }

    /// The limits of a scan of a folder with the depth limit `max_depth`.
    pub fn scan_limits(&self, max_depth: i32, parallel: bool) -> (r: ScanLimits)
        ensures
            r@ == self@.bounds(max_depth, parallel),
    {
        ScanLimits {
            depth_limit: max_depth,
            ceiling: self.parallel_config.max_depth,
            max_entries: self.parallel_config.max_files_per_dir,
        }
    }

    /// The tree of the directory at `path`, which lies at `current_depth`
    /// and was listed as `listing`, walked one directory after the other.
    pub fn build_tree_recursive(
        &self,
        path: &str,
        listing: &Listing,
        covers: &CoverManager,
        current_depth: i32,
        max_depth: i32,
    ) -> (r: DirectoryNode)
        requires
            entry_total(listing@) <= usize::MAX,
        ensures
            r@ == tree_of(
                path@,
                listing@,
                covers@,
                current_depth as int,
                self@.bounds(max_depth, false),
            ),
            aggregates(r@, covers@),
    {
        let limits = self.scan_limits(max_depth, false);
        build_node(path, listing, covers, current_depth as i64, limits, false)
    }

    /// The tree of the directory at `path`, which lies at `current_depth`
    /// and was listed as `listing`, with the subdirectories of each directory
    /// handed to a worker pool of the configured size.
    pub fn build_tree_recursive_parallel(
        &self,
        path: &str,
        listing: &Listing,
        covers: &CoverManager,
        current_depth: i32,
        max_depth: i32,
    ) -> (r: DirectoryNode)
        requires
            entry_total(listing@) <= usize::MAX,
        ensures
            r@ == tree_of(
                path@,
                listing@,
                covers@,
                current_depth as int,
                self@.bounds(max_depth, true),
            ),
            aggregates(r@, covers@),
    {
        let limits = self.scan_limits(max_depth, true);
        build_in_bounded_pool(
            self.parallel_config.max_threads,
            path,
            listing,
            covers,
            current_depth as i64,
            limits,
        )
    }

    /// Builds the tree of the folder under `root_id` with the chosen walk,
    /// keeps it as the folder's last tree and returns it.
    fn build_and_store(
        &mut self,
        root_id: &str,
        listing: &Listing,
        covers: &CoverManager,
        parallel: bool,
    ) -> (r: Result<DirectoryNode, BuildError>)
        requires
            old(self).wf(),
            entry_total(listing@) <= usize::MAX,
        ensures
            final(self).wf(),
            built(old(self)@, final(self)@, root_id@, listing@, covers@, parallel, r),
    {
        let (path, max_depth) = match self.root_folders.get(root_id) {
            None => {
                return Err(BuildError::NotFound);
            },
            Some(folder) => {
                if !folder.enabled {
                    return Err(BuildError::Disabled);
                }
                (folder.path.clone(), folder.max_depth)
            },
        };
        let limits = self.scan_limits(max_depth, parallel);
        let tree = if parallel {
            build_in_bounded_pool(
                self.parallel_config.max_threads,
                path.as_str(),
                listing,
                covers,
                0,
                limits,
            )
        } else {
            build_node(path.as_str(), listing, covers, 0, limits, false)
        };
        self.directory_trees.insert(root_id.to_string(), tree.clone());
        assert(self@.trees =~= old(self)@.trees.insert(root_id@, tree@));
        Ok(tree)
    }

    /// Builds the tree of the folder under `root_id` from what was listed of
    /// it, with the concurrent walk where that is switched on and the
    /// sequential walk where it is not, keeps it as the folder's last tree and
    /// returns it. Fails, and changes nothing, where no folder is registered
    /// under the id or the folder is disabled.
    pub fn build_directory_tree(
        &mut self,
        root_id: &str,
        listing: &Listing,
        covers: &CoverManager,
    ) -> (r: Result<DirectoryNode, BuildError>)
        requires
            old(self).wf(),
            entry_total(listing@) <= usize::MAX,
        ensures
            final(self).wf(),
            built(
                old(self)@,
                final(self)@,
                root_id@,
                listing@,
                covers@,
                old(self)@.config.enabled,
                r,
            ),
    {
        let parallel = self.parallel_config.enabled;
        self.build_and_store(root_id, listing, covers, parallel)
    }

    /// As `build_directory_tree`, for any listing: where the listing holds
    /// more entries than can be counted, nothing is built or changed and the
    /// result is `None`.
    pub fn build_directory_tree_checked(
        &mut self,
        root_id: &str,
        listing: &Listing,
        covers: &CoverManager,
    ) -> (r: Option<Result<DirectoryNode, BuildError>>)
        requires
            old(self).wf(),
        ensures
            final(self).wf(),
            match r {
                Some(result) => entry_total(listing@) <= usize::MAX && built(
                    old(self)@,
                    final(self)@,
                    root_id@,
                    listing@,
                    covers@,
                    old(self)@.config.enabled,
                    result,
                ),
                None => entry_total(listing@) > usize::MAX && final(self)@ == old(self)@,
            },
    {
        match listing.count_entries() {
            Some(_) => Some(self.build_directory_tree(root_id, listing, covers)),
            None => None,
        }
    }

    /// As `build_directory_tree`, always with the concurrent walk.
    pub fn build_directory_tree_parallel(
        &mut self,
        root_id: &str,
        listing: &Listing,
        covers: &CoverManager,
    ) -> (r: Result<DirectoryNode, BuildError>)
        requires
            old(self).wf(),
            entry_total(listing@) <= usize::MAX,
        ensures
            final(self).wf(),
            built(old(self)@, final(self)@, root_id@, listing@, covers@, true, r),
    {
        self.build_and_store(root_id, listing, covers, true)
    }

    /// Switches the concurrent scan on or off.
    pub fn set_parallel_scan_enabled(&mut self, enabled: bool)
        requires
            old(self).wf(),
        ensures
            final(self).wf(),
            final(self)@ == (ManagerView {
                config: ParallelScanConfig { enabled, ..old(self)@.config },
                ..old(self)@
            }),
    {
        self.parallel_config.enabled = enabled;
    }
}

/// The two walks work within the same limits, and so build the same tree of
/// the same listing.
pub proof fn lemma_walks_agree(
    manager: ManagerView,
    path: Seq<char>,
    listing: ListingView,
    index: CoverIndex,
    depth: int,
    max_depth: i32,
)
    ensures
        manager.bounds(max_depth, true) == manager.bounds(max_depth, false),
        tree_of(path, listing, index, depth, manager.bounds(max_depth, true)) == tree_of(
            path,
            listing,
            index,
            depth,
            manager.bounds(max_depth, false),
        ),
{
}

} // verus!
