use crate::text::{
    append_chars, chars_of, copy_chars, join_range, join_with, lemma_split_nonempty, rows,
    same_chars, split, split_chars, string_of, string_of_range,
};
use vstd::prelude::*;

verus! {

/// The separator between the segments of a path.
pub const SEPARATOR: char = '/';

/// The segment that stands for the directory itself.
pub open spec fn current_dir() -> Seq<char> {
    seq!['.']
}

/// The segment that stands for the enclosing directory.
pub open spec fn parent_dir() -> Seq<char> {
    seq!['.', '.']
}

/// The pieces of a path between its separators, as spelled: empty pieces and
/// `.` pieces included.
pub open spec fn segments(path: Seq<char>) -> Seq<Seq<char>> {
    split(path, '/')
}

/// A path that starts at the root of the file system.
pub open spec fn is_rooted(path: Seq<char>) -> bool {
    path.len() > 0 && path[0] == '/'
}

/// A path that is not rooted and whose first segment is `.`.
pub open spec fn leads_with_cur_dir(path: Seq<char>) -> bool {
    !is_rooted(path) && segments(path)[0] == current_dir()
}

/// The number of the first segment of the body of a path: the segments after
/// the root, or after a `.` at the front.
pub open spec fn body_start(path: Seq<char>) -> int {
    if is_rooted(path) || leads_with_cur_dir(path) {
        1
    } else {
        0
    }
}

/// A segment of the body that is a component: empty segments (from repeated
/// or trailing separators) and `.` segments are none.
pub open spec fn is_name(segment: Seq<char>) -> bool {
    segment.len() > 0 && segment != current_dir()
}

/// The numbers of the segments among `segs[from..upto]` that are components,
/// in order.
pub open spec fn naming_indices(segs: Seq<Seq<char>>, from: int, upto: int) -> Seq<int>
    decreases upto - from,
{
    if upto <= from {
        Seq::empty()
    } else if is_name(segs[upto - 1]) {
        naming_indices(segs, from, upto - 1).push(upto - 1)
    } else {
        naming_indices(segs, from, upto - 1)
    }
}

/// The numbers of the segments of a path's body that are components.
pub open spec fn body_indices(path: Seq<char>) -> Seq<int> {
    naming_indices(segments(path), body_start(path), segments(path).len() as int)
}

/// What stands before the body of a path: `/` for a rooted path, `.` for one
/// that leads with it, and nothing else.
pub open spec fn lead_text(path: Seq<char>) -> Seq<char> {
    if is_rooted(path) {
        seq!['/']
    } else if leads_with_cur_dir(path) {
        current_dir()
    } else {
        Seq::empty()
    }
}

/// The components of the body of a path, in order.
pub open spec fn body_names(path: Seq<char>) -> Seq<Seq<char>> {
    Seq::new(body_indices(path).len(), |k: int| segments(path)[body_indices(path)[k]])
}

/// The components of a path. The root of the file system is a component,
/// written `/`; so is a `.` at the front of a path that is not rooted. After
/// them come the segments of the body that name something, `..` among them.
/// Repeated separators and `.` segments in the body are no components.
pub open spec fn components(path: Seq<char>) -> Seq<Seq<char>> {
    if lead_text(path).len() > 0 {
        seq![lead_text(path)] + body_names(path)
    } else {
        body_names(path)
    }
}

/// Two paths that lead to one place: their components are the same.
pub open spec fn same_place(p: Seq<char>, q: Seq<char>) -> bool {
    components(p) == components(q)
}

/// The one spelling that stands for all paths to the place of `path`: its
/// components with single separators between them.
pub open spec fn place(path: Seq<char>) -> Seq<char> {
    if is_rooted(path) {
        seq!['/'] + join_with(body_names(path), '/')
    } else {
        join_with(components(path), '/')
    }
}

/// The text of a path up to the end of its segment number `i`, as spelled.
pub open spec fn spelled_to(path: Seq<char>, i: int) -> Seq<char> {
    join_with(segments(path).take(i + 1), '/')
}

/// The final component of a path, unless the path has none in its body or
/// ends in `..`.
pub open spec fn file_name(path: Seq<char>) -> Option<Seq<char>> {
    let names = body_names(path);
    if names.len() == 0 || names.last() == parent_dir() {
        None
    } else {
        Some(names.last())
    }
}

/// The position of the last `.` in `name`, or -1 where it has none.
pub open spec fn last_dot(name: Seq<char>) -> int
    decreases name.len(),
{
    if name.len() == 0 {
        -1
    } else if name.last() == '.' {
        name.len() - 1
    } else {
        last_dot(name.drop_last())
    }
}

/// What follows the last `.` of a file name; a name without a `.`, or whose
/// only `.` is its first character, has no extension.
pub open spec fn name_extension(name: Seq<char>) -> Option<Seq<char>> {
    let dot = last_dot(name);
    if dot <= 0 {
        None
    } else {
        Some(name.skip(dot + 1))
    }
}

/// What precedes the extension of a file name: the whole name where it has no
/// extension.
pub open spec fn name_stem(name: Seq<char>) -> Seq<char> {
    let dot = last_dot(name);
    if dot <= 0 {
        name
    } else {
        name.take(dot)
    }
}

/// The extension of the final component of a path.
pub open spec fn path_extension(path: Seq<char>) -> Option<Seq<char>> {
    match file_name(path) {
        Some(name) => name_extension(name),
        None => None,
    }
}

/// The stem of the final component of a path.
pub open spec fn path_stem(path: Seq<char>) -> Option<Seq<char>> {
    match file_name(path) {
        Some(name) => Some(name_stem(name)),
        None => None,
    }
}

/// The path without its final component, spelled as the path itself is up
/// to the component before the final one. A path whose body has one component
/// has what stands before the body as its parent. A path without a component
/// in its body has no parent, unless it leads with `.`, whose parent is
/// empty.
pub open spec fn parent(path: Seq<char>) -> Option<Seq<char>> {
    let ix = body_indices(path);
    if ix.len() == 0 {
        if leads_with_cur_dir(path) {
            Some(Seq::empty())
        } else {
            None
        }
    } else if ix.len() == 1 {
        Some(lead_text(path))
    } else {
        Some(spelled_to(path, ix[ix.len() - 2]))
    }
}

/// The path of `name` inside `dir`. A rooted `name` stands for itself.
pub open spec fn child(dir: Seq<char>, name: Seq<char>) -> Seq<char> {
    if is_rooted(name) {
        name
    } else if dir.len() == 0 || dir.last() == '/' {
        dir + name
    } else {
        dir + seq!['/'] + name
    }
}

/// The file beside `path` whose name is the stem of `path` followed by `.` and
/// `extension`: that name inside the parent of `path`.
pub open spec fn sibling(path: Seq<char>, extension: Seq<char>) -> Option<Seq<char>> {
    match (path_stem(path), parent(path)) {
        (Some(stem), Some(dir)) => Some(child(dir, stem + seq!['.'] + extension)),
        _ => None,
    }
}

/// What is left of `path` once the components of `root` are taken from its
/// front, spelled as `path` itself is from the first component left to the
/// last. There is none where the components of `root` are not the first
/// components of `path`.
pub open spec fn relative_to(root: Seq<char>, path: Seq<char>) -> Option<Seq<char>> {
    let base = components(root);
    let all = components(path);
    let ix = body_indices(path);
    if !base.is_prefix_of(all) {
        None
    } else if base.len() == all.len() {
        Some(Seq::empty())
    } else if base.len() == 0 {
        if ix.len() == 0 {
            Some(lead_text(path))
        } else {
            Some(spelled_to(path, ix.last()))
        }
    } else {
        let first = base.len() - (all.len() - ix.len());
        Some(join_with(segments(path).subrange(ix[first], ix.last() + 1), '/'))
    }
}

/// The numbers in `ix`, as integers.
pub open spec fn index_values(ix: Seq<usize>) -> Seq<int> {
    Seq::new(ix.len(), |k: int| ix[k] as int)
}

/// A path taken apart.
pub struct PathParts {
    /// The segments of the path.
    pub segments: Vec<Vec<char>>,
    /// Whether the path is rooted.
    pub rooted: bool,
    /// Whether the path leads with `.`.
    pub cur_dir: bool,
    /// The numbers of the segments of the body that are components.
    pub indices: Vec<usize>,
}

impl PathParts {
    /// The parts are those of `path`.
    pub open spec fn of(&self, path: Seq<char>) -> bool {
        &&& rows(self.segments@) == segments(path)
        &&& self.segments@.len() >= 1
        &&& self.rooted == is_rooted(path)
        &&& self.cur_dir == leads_with_cur_dir(path)
        &&& index_values(self.indices@) == body_indices(path)
        &&& forall|k: int|
            0 <= k < self.indices@.len() ==> body_start(path) <= (#[trigger] self.indices@[k])
                < self.segments@.len()
        &&& forall|k: int, l: int|
            0 <= k < l < self.indices@.len() ==> self.indices@[k] < self.indices@[l]
    }
}

fn is_current_dir(segment: &Vec<char>) -> (r: bool)
    ensures
        r == (segment@ == current_dir()),
{
    let r = segment.len() == 1 && segment[0] == '.';
    assert(r ==> segment@ =~= current_dir());
    r
}

fn is_parent_dir(segment: &Vec<char>) -> (r: bool)
    ensures
        r == (segment@ == parent_dir()),
{
    let r = segment.len() == 2 && segment[0] == '.' && segment[1] == '.';
    assert(r ==> segment@ =~= parent_dir());
    r
}

/// Takes a path apart.
pub fn parse_path(path: &Vec<char>) -> (parts: PathParts)
    ensures
        parts.of(path@),
{
    let segs = split_chars(path, SEPARATOR);
    proof {
        lemma_split_nonempty(path@, '/');
    }
    let ghost all = rows(segs@);
    assert(all[0] == segs@[0]@);
    let rooted = path.len() > 0 && path[0] == SEPARATOR;
    let cur_dir = !rooted && is_current_dir(&segs[0]);
    let start: usize = if rooted || cur_dir {
        1
    } else {
        0
    };
    let mut indices: Vec<usize> = Vec::new();
    let mut i: usize = start;
    assert(index_values(indices@) =~= naming_indices(all, start as int, start as int));
    while i < segs.len()
        invariant
            start <= i <= segs.len(),
            rows(segs@) == all,
            index_values(indices@) == naming_indices(all, start as int, i as int),
            forall|k: int| 0 <= k < indices@.len() ==> start <= (#[trigger] indices@[k]) < i,
            forall|k: int, l: int| 0 <= k < l < indices@.len() ==> indices@[k] < indices@[l],
        decreases segs.len() - i,
    {
        let segment = &segs[i];
        assert(all[i as int] == segment@);
        if segment.len() > 0 && !is_current_dir(segment) {
            let ghost before = index_values(indices@);
            indices.push(i);
            assert(index_values(indices@) =~= before.push(i as int));
        }
        i += 1;
    }
    PathParts { segments: segs, rooted, cur_dir, indices }
}

/// The view of an optional string.
pub open spec fn text_of(value: Option<String>) -> Option<Seq<char>> {
    match value {
        Some(s) => Some(s@),
        None => None,
    }
}

/// The components of a path that was taken apart.
fn component_list(parts: &PathParts, path: Ghost<Seq<char>>) -> (r: Vec<Vec<char>>)
    requires
        parts.of(path@),
    ensures
        rows(r@) == components(path@),
{
    let mut r: Vec<Vec<char>> = Vec::new();
    if parts.rooted {
        let mut lead: Vec<char> = Vec::new();
        lead.push(SEPARATOR);
        assert(lead@ =~= lead_text(path@));
        r.push(lead);
    } else if parts.cur_dir {
        let mut lead: Vec<char> = Vec::new();
        lead.push('.');
        assert(lead@ =~= lead_text(path@));
        r.push(lead);
    }
    let ghost head = rows(r@);
    let ghost ix = body_indices(path@);
    let ghost segs = segments(path@);
    assert(head =~= if lead_text(path@).len() > 0 {
        seq![lead_text(path@)]
    } else {
        Seq::empty()
    });
    let mut k: usize = 0;
    while k < parts.indices.len()
        invariant
            k <= parts.indices.len(),
            parts.of(path@),
            ix == body_indices(path@),
            segs == segments(path@),
            rows(r@) == head + Seq::new(k as nat, |t: int| segs[ix[t]]),
        decreases parts.indices.len() - k,
    {
        let ghost before = rows(r@);
        let at = parts.indices[k];
        assert(index_values(parts.indices@)[k as int] == at);
        assert(rows(parts.segments@)[at as int] == parts.segments@[at as int]@);
        r.push(copy_chars(&parts.segments[at]));
        assert(rows(r@) =~= before.push(segs[ix[k as int]]));
        k += 1;
        assert(rows(r@) =~= head + Seq::new(k as nat, |t: int| segs[ix[t]]));
    }
    assert(Seq::new(parts.indices.len() as nat, |t: int| segs[ix[t]]) =~= body_names(path@));
    assert(rows(r@) =~= components(path@));
    r
}

/// Finds the last `.` of a file name.
pub fn find_last_dot(name: &Vec<char>) -> (r: Option<usize>)
    ensures
        match r {
            Some(dot) => last_dot(name@) == dot && dot < name.len(),
            None => last_dot(name@) == -1,
        },
{
    let mut i: usize = name.len();
    assert(name@.take(i as int) =~= name@);
    while i > 0
        invariant
            i <= name.len(),
            last_dot(name@) == last_dot(name@.take(i as int)),
        decreases i,
    {
        proof {
            assert(name@.take(i as int).drop_last() =~= name@.take(i - 1));
            assert(name@.take(i as int).last() == name@[i - 1]);
        }
        if name[i - 1] == '.' {
            return Some(i - 1);
        }
        i -= 1;
    }
    None
}

/// The final component of `path`.
pub fn file_name_of(path: &str) -> (r: Option<String>)
    ensures
        text_of(r) == file_name(path@),
{
    let chars = chars_of(path);
    let parts = parse_path(&chars);
    let n = parts.indices.len();
    if n == 0 {
        return None;
    }
    let at = parts.indices[n - 1];
    proof {
        assert(index_values(parts.indices@)[n - 1] == at);
        assert(rows(parts.segments@)[at as int] == parts.segments@[at as int]@);
        assert(body_names(path@).last() == segments(path@)[at as int]);
    }
    let last = &parts.segments[at];
    if is_parent_dir(last) {
        None
    } else {
        Some(string_of(last))
    }
}

/// The extension of the final component of `path`.
pub fn extension_of(path: &str) -> (r: Option<String>)
    ensures
        text_of(r) == path_extension(path@),
{
    match file_name_of(path) {
        None => None,
        Some(name) => {
            let chars = chars_of(name.as_str());
            match find_last_dot(&chars) {
                None => None,
                Some(dot) => {
                    if dot == 0 {
                        None
                    } else {
                        assert(chars@.skip(dot + 1) =~= chars@.subrange(dot + 1, chars.len() as int));
                        Some(string_of_range(&chars, dot + 1, chars.len()))
                    }
                },
            }
        },
    }
}

/// The stem of the final component of `path`.
pub fn stem_of(path: &str) -> (r: Option<String>)
    ensures
        text_of(r) == path_stem(path@),
{
    match file_name_of(path) {
        None => None,
        Some(name) => {
            let chars = chars_of(name.as_str());
            match find_last_dot(&chars) {
                None => Some(name),
                Some(dot) => {
                    if dot == 0 {
                        Some(name)
                    } else {
                        assert(chars@.take(dot as int) =~= chars@.subrange(0, dot as int));
                        Some(string_of_range(&chars, 0, dot))
                    }
                },
            }
        },
    }
}

/// What stands before the body of a path that was taken apart.
fn lead_of(parts: &PathParts, path: Ghost<Seq<char>>) -> (r: Vec<char>)
    requires
        parts.of(path@),
    ensures
        r@ == lead_text(path@),
{
    let mut r: Vec<char> = Vec::new();
    if parts.rooted {
        r.push(SEPARATOR);
    } else if parts.cur_dir {
        r.push('.');
    }
    assert(r@ =~= lead_text(path@));
    r
}

/// The path of the directory that holds the final component of `path`, as
/// `path` spells it.
pub fn parent_of(path: &str) -> (r: Option<String>)
    ensures
        text_of(r) == parent(path@),
{
    let chars = chars_of(path);
    let parts = parse_path(&chars);
    let n = parts.indices.len();
    if n == 0 {
        if parts.cur_dir {
            return Some(String::new());
        }
        return None;
    }
    if n == 1 {
        return Some(string_of(&lead_of(&parts, Ghost(path@))));
    }
    let at = parts.indices[n - 2];
    proof {
        assert(index_values(parts.indices@)[n - 2] == at);
        assert(rows(parts.segments@).subrange(0, at + 1) =~= segments(path@).take(at + 1));
    }
    let text = join_range(&parts.segments, 0, at + 1, SEPARATOR);
    Some(string_of(&text))
}

/// The path of `name` inside `dir`.
pub fn child_of(dir: &str, name: &str) -> (r: String)
    ensures
        r@ == child(dir@, name@),
{
    let d = chars_of(dir);
    let n = chars_of(name);
    if n.len() > 0 && n[0] == SEPARATOR {
        return string_of(&n);
    }
    let mut out = copy_chars(&d);
    if d.len() > 0 && d[d.len() - 1] != SEPARATOR {
        out.push(SEPARATOR);
    }
    append_chars(&mut out, &n);
    proof {
        if d.len() == 0 || d@.last() == '/' {
            assert(out@ =~= d@ + n@);
        } else {
            assert(out@ =~= d@ + seq!['/'] + n@);
        }
    }
    string_of(&out)
}

/// The file beside `path` with the same stem and the given extension.
pub fn sibling_of(path: &str, extension: &str) -> (r: Option<String>)
    ensures
        text_of(r) == sibling(path@, extension@),
{
    let stem = stem_of(path);
    let dir = parent_of(path);
    match (stem, dir) {
        (Some(stem), Some(dir)) => {
            let mut name = chars_of(stem.as_str());
            name.push('.');
            let ext = chars_of(extension);
            append_chars(&mut name, &ext);
            assert(name@ =~= stem@ + seq!['.'] + extension@);
            let name = string_of(&name);
            Some(child_of(dir.as_str(), name.as_str()))
        },
        _ => None,
    }
}

/// Whether the rows of `base` are the first rows of `names`.
fn starts_with_names(names: &Vec<Vec<char>>, base: &Vec<Vec<char>>) -> (r: bool)
    ensures
        r == rows(base@).is_prefix_of(rows(names@)),
{
    if base.len() > names.len() {
        return false;
    }
    let mut i: usize = 0;
    while i < base.len()
        invariant
            i <= base.len() <= names.len(),
            forall|j: int| 0 <= j < i ==> (#[trigger] base@[j])@ == names@[j]@,
        decreases base.len() - i,
    {
        if !same_chars(&base[i], &names[i]) {
            assert(rows(base@)[i as int] != rows(names@)[i as int]);
            return false;
        }
        i += 1;
    }
    assert(rows(base@) =~= rows(names@).subrange(0, base.len() as int));
    true
}

/// Strips the components of `root` from the front of `path`.
pub fn strip_root(root: &str, path: &str) -> (r: Option<String>)
    ensures
        text_of(r) == relative_to(root@, path@),
{
    let base_parts = parse_path(&chars_of(root));
    let parts = parse_path(&chars_of(path));
    let base = component_list(&base_parts, Ghost(root@));
    let all = component_list(&parts, Ghost(path@));
    if !starts_with_names(&all, &base) {
        return None;
    }
    if base.len() == all.len() {
        return Some(String::new());
    }
    let n = parts.indices.len();
    proof {
        assert(body_names(path@).len() == n);
        assert(all@.len() == lead_text(path@).len() + n) by {
            assert(rows(all@).len() == all@.len());
        }
    }
    if base.len() == 0 {
        if n == 0 {
            return Some(string_of(&lead_of(&parts, Ghost(path@))));
        }
        let last = parts.indices[n - 1];
        proof {
            assert(index_values(parts.indices@)[n - 1] == last);
            assert(rows(parts.segments@).subrange(0, last + 1) =~= segments(path@).take(last + 1));
        }
        let text = join_range(&parts.segments, 0, last + 1, SEPARATOR);
        return Some(string_of(&text));
    }
    let first = base.len() - (all.len() - n);
    let from = parts.indices[first];
    let last = parts.indices[n - 1];
    proof {
        assert(index_values(parts.indices@)[first as int] == from);
        assert(index_values(parts.indices@)[n - 1] == last);
        assert(rows(base@).len() == base@.len());
    }
    let text = join_range(&parts.segments, from, last + 1, SEPARATOR);
    Some(string_of(&text))
}

/// The spelling that stands for the place of `path`.
pub fn place_of(path: &str) -> (r: String)
    ensures
        r@ == place(path@),
{
    let parts = parse_path(&chars_of(path));
    let all = component_list(&parts, Ghost(path@));
    if parts.rooted {
        let mut out: Vec<char> = Vec::new();
        out.push(SEPARATOR);
        proof {
            assert(rows(all@).len() == all@.len());
            assert(components(path@).len() >= 1);
        }
        let names = join_range(&all, 1, all.len(), SEPARATOR);
        proof {
            assert(rows(all@).subrange(1, all@.len() as int) =~= body_names(path@));
        }
        append_chars(&mut out, &names);
        string_of(&out)
    } else {
        let text = join_range(&all, 0, all.len(), SEPARATOR);
        assert(rows(all@).subrange(0, all@.len() as int) =~= components(path@));
        string_of(&text)
    }
}

} // verus!
