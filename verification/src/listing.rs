use crate::path::{child, child_of};
use crate::text::{chars_of, join_range, join_with, lines, rows, split_lines, split_words, string_of, words};
use vstd::prelude::*;

verus! {

/// What kind of thing a listed entry is.
#[derive(Clone, Copy, Debug, PartialEq, Eq)]
pub enum EntryKind {
    File,
    Directory,
    /// Neither a regular file nor a directory.
    Other,
}

/// One entry read from the output of the listing utility.
#[derive(Debug, PartialEq, Eq)]
pub struct ListedEntry {
    pub name: String,
    pub path: String,
    pub kind: EntryKind,
}

/// The mathematical value of a listed entry.
pub ghost struct ListedEntryView {
    pub name: Seq<char>,
    pub path: Seq<char>,
    pub kind: EntryKind,
}

impl View for ListedEntry {
    type V = ListedEntryView;

    open spec fn view(&self) -> ListedEntryView {
        ListedEntryView { name: self.name@, path: self.path@, kind: self.kind }
    }
}

/// The views of a list of listed entries.
pub open spec fn listed_views(list: Seq<ListedEntry>) -> Seq<ListedEntryView> {
    Seq::new(list.len(), |i: int| list[i]@)
}

/// The number of the column of a long listing at which the name begins,
/// counted from zero.
pub const NAME_COLUMN: usize = 8;

/// The kind that the first character of a line of a long listing stands
/// for: `-` a regular file, `d` a directory.
pub open spec fn kind_of_line(line: Seq<char>) -> EntryKind {
    if line.len() > 0 && line[0] == '-' {
        EntryKind::File
    } else if line.len() > 0 && line[0] == 'd' {
        EntryKind::Directory
    } else {
        EntryKind::Other
    }
}

/// The name on a line of a long listing: the ninth word and all that follow
/// it, with single spaces between them. A line of fewer words has none.
pub open spec fn name_of_line(line: Seq<char>) -> Option<Seq<char>> {
    let w = words(line);
    if w.len() > NAME_COLUMN {
        Some(join_with(w.skip(NAME_COLUMN as int), ' '))
    } else {
        None
    }
}

/// The entry that a line of a long listing of `dir` stands for. The entries
/// `.` and `..` are left out.
pub open spec fn entry_of_line(dir: Seq<char>, line: Seq<char>) -> Option<ListedEntryView> {
    match name_of_line(line) {
        Some(name) => if name == seq!['.'] || name == seq!['.', '.'] {
            None
        } else {
            Some(ListedEntryView { name, path: child(dir, name), kind: kind_of_line(line) })
        },
        None => None,
    }
}

/// The entries that the first `n` of `lines` stand for, in order, up to
/// `cap` of them.
pub open spec fn entries_of_lines(
    dir: Seq<char>,
    lines: Seq<Seq<char>>,
    n: nat,
    cap: nat,
) -> Seq<ListedEntryView>
    decreases n,
{
    if n == 0 || n > lines.len() {
        Seq::empty()
    } else {
        let before = entries_of_lines(dir, lines, (n - 1) as nat, cap);
        if before.len() >= cap {
            before
        } else {
            match entry_of_line(dir, lines[n - 1]) {
                Some(entry) => before.push(entry),
                None => before,
            }
        }
    }
}

/// The lines of a long listing that stand for entries: all but the first,
/// which holds the total.
pub open spec fn entry_lines(output: Seq<char>) -> Seq<Seq<char>> {
    let all = lines(output);
    if all.len() > 0 {
        all.skip(1)
    } else {
        all
    }
}

/// The entries of the directory `dir` as its long listing `output` shows
/// them, up to `cap` of them.
pub open spec fn listed_entries(dir: Seq<char>, output: Seq<char>, cap: nat) -> Seq<
    ListedEntryView,
> {
    entries_of_lines(dir, entry_lines(output), entry_lines(output).len(), cap)
}

/// The entry that a line of a long listing of `dir` stands for.
pub fn parse_line(dir: &str, line: &Vec<char>) -> (r: Option<ListedEntry>)
    ensures
        match r {
            Some(entry) => entry_of_line(dir@, line@) == Some(entry@),
            None => entry_of_line(dir@, line@) is None,
        },
{
    assert(line@.subrange(0, line.len() as int) =~= line@);
    let w = split_words(line, 0, line.len());
    if w.len() <= NAME_COLUMN {
        return None;
    }
    let name = join_range(&w, NAME_COLUMN, w.len(), ' ');
    assert(rows(w@).subrange(NAME_COLUMN as int, w.len() as int) =~= words(line@).skip(
        NAME_COLUMN as int,
    ));
    let is_dot = name.len() == 1 && name[0] == '.';
    let is_dots = name.len() == 2 && name[0] == '.' && name[1] == '.';
    assert(is_dot == (name@ == seq!['.'])) by {
        if is_dot {
            assert(name@ =~= seq!['.']);
        }
    }
    assert(is_dots == (name@ == seq!['.', '.'])) by {
        if is_dots {
            assert(name@ =~= seq!['.', '.']);
        }
    }
    if is_dot || is_dots {
        return None;
    }
    let kind = if line.len() > 0 && line[0] == '-' {
        EntryKind::File
    } else if line.len() > 0 && line[0] == 'd' {
        EntryKind::Directory
    } else {
        EntryKind::Other
    };
    let name = string_of(&name);
    let path = child_of(dir, name.as_str());
    Some(ListedEntry { name, path, kind })
}

/// Reads the entries of the directory `dir` from `output`, the long listing
/// that the listing utility printed of it, up to `cap` of them.
pub fn parse_listing(dir: &str, output: &str, cap: usize) -> (r: Vec<ListedEntry>)
    ensures
        listed_views(r@) == listed_entries(dir@, output@, cap as nat),
        r@.len() <= cap,
{
    let all = split_lines(&chars_of(output));
    let ghost body = entry_lines(output@);
    let mut r: Vec<ListedEntry> = Vec::new();
    assert(listed_views(r@) =~= Seq::<ListedEntryView>::empty());
    if all.len() == 0 {
        return r;
    }
    let mut i: usize = 1;
    while i < all.len()
        invariant
            1 <= i <= all.len(),
            rows(all@) == lines(output@),
            body == rows(all@).skip(1),
            listed_views(r@) == entries_of_lines(dir@, body, (i - 1) as nat, cap as nat),
            r@.len() <= cap,
        decreases all.len() - i,
    {
        let ghost before = listed_views(r@);
        assert(body[i - 1] == all@[i as int]@);
        if r.len() < cap {
            match parse_line(dir, &all[i]) {
                Some(entry) => {
                    r.push(entry);
                    assert(listed_views(r@) =~= before.push(entry@));
                },
                None => {},
            }
        }
        i += 1;
    }
    r
}

} // verus!
