use crate::path::{
    body_indices, body_names, body_start, child, components, current_dir, file_name, is_name,
    is_rooted, lead_text, leads_with_cur_dir, naming_indices, parent, parent_dir, place,
    relative_to, same_place, segments, spelled_to,
};
use crate::text::{join_with, lemma_split_nonempty, split};
use vstd::prelude::*;

verus! {

/// A text without the separator is one piece.
pub proof fn lemma_split_whole(y: Seq<char>, sep: char)
    requires
        forall|i: int| 0 <= i < y.len() ==> y[i] != sep,
    ensures
        split(y, sep) == seq![y],
    decreases y.len(),
{
    if y.len() == 0 {
        assert(y =~= Seq::<char>::empty());
    } else {
        lemma_split_whole(y.drop_last(), sep);
        let head = split(y.drop_last(), sep);
        assert(head.drop_last().push(head.last().push(y.last())) =~= seq![y]) by {
            assert(y.drop_last().push(y.last()) =~= y);
        }
    }
}

/// No piece of a split holds the separator.
pub proof fn lemma_pieces_hold_no_separator(s: Seq<char>, sep: char)
    ensures
        forall|k: int, i: int|
            0 <= k < split(s, sep).len() && 0 <= i < split(s, sep)[k].len() ==> #[trigger] split(
                s,
                sep,
            )[k][i] != sep,
    decreases s.len(),
{
    if s.len() > 0 {
        lemma_pieces_hold_no_separator(s.drop_last(), sep);
        lemma_split_nonempty(s.drop_last(), sep);
    }
}

/// The pieces of two texts with a separator between them are the pieces of
/// the first followed by the pieces of the second.
pub proof fn lemma_split_concat(x: Seq<char>, y: Seq<char>, sep: char)
    ensures
        split(x.push(sep) + y, sep) == split(x, sep) + split(y, sep),
    decreases y.len(),
{
    let z = x.push(sep) + y;
    if y.len() == 0 {
        assert(z =~= x.push(sep));
        assert(z.drop_last() =~= x);
        assert(split(x, sep) + split(y, sep) =~= split(x, sep).push(Seq::<char>::empty()));
    } else {
        let shorter = x.push(sep) + y.drop_last();
        lemma_split_concat(x, y.drop_last(), sep);
        lemma_split_nonempty(y.drop_last(), sep);
        assert(z.drop_last() =~= shorter);
        assert(z.last() == y.last());
        let a = split(x, sep);
        let b = split(y.drop_last(), sep);
        let head = a + b;
        if y.last() == sep {
            assert(head.push(Seq::<char>::empty()) =~= a + b.push(Seq::<char>::empty()));
        } else {
            assert(head.last() == b.last());
            assert(head.drop_last() =~= a + b.drop_last());
            assert(head.drop_last().push(head.last().push(y.last())) =~= a + b.drop_last().push(
                b.last().push(y.last()),
            ));
        }
    }
}

/// Pieces without the separator, joined by it and split again, are the same
/// pieces.
pub proof fn lemma_split_join(parts: Seq<Seq<char>>, sep: char)
    requires
        parts.len() >= 1,
        forall|k: int, i: int| 0 <= k < parts.len() && 0 <= i < parts[k].len() ==> parts[k][i] != sep,
    ensures
        split(join_with(parts, sep), sep) == parts,
    decreases parts.len(),
{
    if parts.len() == 1 {
        lemma_split_whole(parts[0], sep);
        assert(seq![parts[0]] =~= parts);
    } else {
        let front = parts.drop_last();
        lemma_split_join(front, sep);
        lemma_split_whole(parts.last(), sep);
        let joined = join_with(front, sep);
        assert(join_with(parts, sep) =~= joined.push(sep) + parts.last());
        lemma_split_concat(joined, parts.last(), sep);
        assert(front + seq![parts.last()] =~= parts);
    }
}

/// The components among `segs[from..upto]`, in order.
pub open spec fn names_between(segs: Seq<Seq<char>>, from: int, upto: int) -> Seq<Seq<char>> {
    Seq::new(
        naming_indices(segs, from, upto).len(),
        |k: int| segs[naming_indices(segs, from, upto)[k]],
    )
}

/// The components among segments are found one segment after the other.
pub proof fn lemma_names_step(segs: Seq<Seq<char>>, from: int, upto: int)
    requires
        from < upto,
    ensures
        names_between(segs, from, upto) == if is_name(segs[upto - 1]) {
            names_between(segs, from, upto - 1).push(segs[upto - 1])
        } else {
            names_between(segs, from, upto - 1)
        },
{
    if is_name(segs[upto - 1]) {
        assert(names_between(segs, from, upto) =~= names_between(segs, from, upto - 1).push(
            segs[upto - 1],
        ));
    }
}

/// The components among segments depend on those segments alone.
pub proof fn lemma_names_of_equal_segments(
    a: Seq<Seq<char>>,
    b: Seq<Seq<char>>,
    from: int,
    upto: int,
    shift: int,
)
    requires
        forall|i: int| from <= i < upto ==> a[i] == b[i + shift],
    ensures
        names_between(a, from, upto) == names_between(b, from + shift, upto + shift),
    decreases upto - from,
{
    if from < upto {
        lemma_names_of_equal_segments(a, b, from, upto - 1, shift);
        lemma_names_step(a, from, upto);
        lemma_names_step(b, from + shift, upto + shift);
        assert(a[upto - 1] == b[upto - 1 + shift]);
    } else {
        assert(names_between(a, from, upto) =~= names_between(b, from + shift, upto + shift));
    }
}

/// The components among segments up to `upto` are those up to `mid` followed
/// by those from `mid` on.
pub proof fn lemma_names_split(segs: Seq<Seq<char>>, from: int, mid: int, upto: int)
    requires
        from <= mid <= upto,
    ensures
        names_between(segs, from, upto) == names_between(segs, from, mid) + names_between(
            segs,
            mid,
            upto,
        ),
    decreases upto - mid,
{
    if mid < upto {
        lemma_names_split(segs, from, mid, upto - 1);
        lemma_names_step(segs, from, upto);
        lemma_names_step(segs, mid, upto);
        let x = names_between(segs, from, mid);
        let y = names_between(segs, mid, upto - 1);
        if is_name(segs[upto - 1]) {
            assert((x + y).push(segs[upto - 1]) =~= x + y.push(segs[upto - 1]));
        }
    } else {
        assert(names_between(segs, mid, upto) =~= Seq::<Seq<char>>::empty());
        assert(names_between(segs, from, upto) =~= names_between(segs, from, mid)
            + Seq::<Seq<char>>::empty());
    }
}

/// The components of a path's body are the components among its segments
/// from the start of the body on.
pub proof fn lemma_body_names(path: Seq<char>)
    ensures
        body_names(path) == names_between(
            segments(path),
            body_start(path),
            segments(path).len() as int,
        ),
        0 <= body_start(path) <= segments(path).len(),
{
    lemma_split_nonempty(path, '/');
    assert(body_names(path) =~= names_between(
        segments(path),
        body_start(path),
        segments(path).len() as int,
    ));
}

/// The first segment of a rooted path is empty, and a path that is not
/// rooted and not empty has a first segment that does not start with the
/// separator.
pub proof fn lemma_first_segment(path: Seq<char>)
    ensures
        segments(path).len() >= 1,
        is_rooted(path) ==> segments(path)[0].len() == 0 && segments(path).len() >= 2,
        !is_rooted(path) && path.len() > 0 ==> segments(path)[0].len() > 0 && segments(path)[0][0]
            == path[0],
    decreases path.len(),
{
    lemma_split_nonempty(path, '/');
    if path.len() > 0 {
        let front = path.drop_last();
        lemma_first_segment(front);
        lemma_split_nonempty(front, '/');
        let head = split(front, '/');
        if front.len() == 0 {
            assert(head =~= seq![Seq::<char>::empty()]);
        } else {
            assert(front[0] == path[0]);
        }
    }
}

/// A path inside a directory has the components of the directory followed by
/// its own, where it is not rooted and does not lead with `.`.
pub proof fn lemma_child_components(dir: Seq<char>, rel: Seq<char>)
    requires
        !is_rooted(rel),
        !leads_with_cur_dir(rel),
    ensures
        components(rel) == body_names(rel),
        components(child(dir, rel)) == components(dir) + body_names(rel),
{
    let r = segments(rel);
    let whole = child(dir, rel);
    lemma_body_names(rel);
    lemma_body_names(dir);
    lemma_body_names(whole);
    lemma_first_segment(dir);
    lemma_first_segment(whole);
    lemma_split_nonempty(rel, '/');
    assert(body_start(rel) == 0);
    if dir.len() == 0 {
        assert(whole =~= rel);
        assert(segments(dir) =~= seq![Seq::<char>::empty()]);
        assert(!is_rooted(dir));
        assert(segments(dir)[0] != current_dir());
        lemma_names_step(segments(dir), 0, 1);
        assert(names_between(segments(dir), 0, 0) =~= Seq::<Seq<char>>::empty());
        assert(components(dir) =~= Seq::<Seq<char>>::empty());
        assert(components(whole) =~= components(dir) + body_names(rel));
    } else {
        let d = segments(dir);
        let b = body_start(dir);
        // The segments of the directory that are kept: all but an empty one
        // at its end, which the separator there makes.
        let s = if dir.last() == '/' {
            d.drop_last()
        } else {
            d
        };
        if dir.last() == '/' {
            let front = dir.drop_last();
            assert(front.push('/') =~= dir);
            assert(whole =~= front.push('/') + rel);
            lemma_split_concat(front, rel, '/');
            assert(d == split(front, '/').push(Seq::<char>::empty()));
            assert(s =~= split(front, '/'));
            lemma_split_nonempty(front, '/');
            lemma_names_step(d, b, d.len() as int);
        } else {
            assert(whole =~= dir.push('/') + rel);
            lemma_split_concat(dir, rel, '/');
        }
        let w = segments(whole);
        assert(w == s + r);
        assert(s.len() >= 1);
        assert(w[0] == d[0]);
        assert(whole[0] == dir[0]);
        assert(is_rooted(whole) == is_rooted(dir));
        assert(leads_with_cur_dir(whole) == leads_with_cur_dir(dir));
        assert(lead_text(whole) == lead_text(dir));
        assert(body_start(whole) == b);
        assert(b <= s.len());
        lemma_names_split(w, b, s.len() as int, w.len() as int);
        lemma_names_of_equal_segments(w, d, b, s.len() as int, 0);
        lemma_names_of_equal_segments(r, w, 0, r.len() as int, s.len() as int);
        assert(names_between(d, b, s.len() as int) == names_between(d, b, d.len() as int));
        assert(body_names(whole) == body_names(dir) + body_names(rel));
        assert(components(whole) =~= components(dir) + body_names(rel));
    }
}

/// Each of the numbers of the components among `segs[from..upto]` lies in
/// that range and is that of a component, and the components before the one
/// numbered `k` are the first `k`.
pub proof fn lemma_naming_indices(segs: Seq<Seq<char>>, from: int, upto: int)
    ensures
        forall|k: int|
            0 <= k < naming_indices(segs, from, upto).len() ==> {
                let at = #[trigger] naming_indices(segs, from, upto)[k];
                &&& from <= at < upto
                &&& is_name(segs[at])
                &&& naming_indices(segs, from, at) == naming_indices(segs, from, upto).take(k)
            },
    decreases upto - from,
{
    if from < upto {
        lemma_naming_indices(segs, from, upto - 1);
        let ix = naming_indices(segs, from, upto);
        let before = naming_indices(segs, from, upto - 1);
        assert forall|k: int| 0 <= k < ix.len() implies {
            let at = #[trigger] ix[k];
            &&& from <= at < upto
            &&& is_name(segs[at])
            &&& naming_indices(segs, from, at) == ix.take(k)
        } by {
            if k < before.len() {
                assert(ix[k] == before[k]);
                assert(ix.take(k) =~= before.take(k));
            } else {
                assert(ix.take(k) =~= before);
            }
        }
    }
}

/// The components among segments before the component numbered `k` are the
/// first `k` components, and none follows the last.
pub proof fn lemma_names_before(segs: Seq<Seq<char>>, from: int, upto: int, k: int)
    requires
        0 <= k < naming_indices(segs, from, upto).len(),
    ensures
        names_between(segs, from, naming_indices(segs, from, upto)[k]) == names_between(
            segs,
            from,
            upto,
        ).take(k),
        k == naming_indices(segs, from, upto).len() - 1 ==> names_between(
            segs,
            naming_indices(segs, from, upto)[k] + 1,
            upto,
        ).len() == 0,
{
    lemma_naming_indices(segs, from, upto);
    let ix = naming_indices(segs, from, upto);
    let at = ix[k];
    assert(naming_indices(segs, from, at) == ix.take(k));
    assert(names_between(segs, from, at) =~= names_between(segs, from, upto).take(k));
    if k == ix.len() - 1 {
        lemma_names_split(segs, from, at + 1, upto);
        lemma_names_step(segs, from, at + 1);
        assert(names_between(segs, from, at + 1).len() == k + 1);
    }
}

/// A path without components is empty.
pub proof fn lemma_no_components(path: Seq<char>)
    requires
        components(path).len() == 0,
    ensures
        path.len() == 0,
{
    if path.len() > 0 {
        lemma_first_segment(path);
        lemma_body_names(path);
        let segs = segments(path);
        if !is_rooted(path) && segs[0] != current_dir() {
            assert(is_name(segs[0]));
            lemma_names_split(segs, 0, 1, segs.len() as int);
            lemma_names_step(segs, 0, 1);
            assert(names_between(segs, 0, 1).len() == 1);
        }
    }
}

/// A path cut after the last component of its body has the components of the
/// whole path.
pub proof fn lemma_spelled_to_last(path: Seq<char>)
    requires
        body_indices(path).len() > 0,
    ensures
        components(spelled_to(path, body_indices(path).last())) == components(path),
        is_rooted(spelled_to(path, body_indices(path).last())) == is_rooted(path),
{
    let segs = segments(path);
    let b = body_start(path);
    let ix = body_indices(path);
    let last = ix.last();
    let kept = segs.take(last + 1);
    let cut = spelled_to(path, last);
    lemma_split_nonempty(path, '/');
    lemma_naming_indices(segs, b, segs.len() as int);
    assert(b <= last < segs.len());
    lemma_pieces_hold_no_separator(path, '/');
    lemma_split_join(kept, '/');
    assert(segments(cut) == kept);
    lemma_first_segment(path);
    lemma_first_segment(cut);
    lemma_body_names(path);
    lemma_body_names(cut);
    assert(kept[0] == segs[0]);
    if is_rooted(path) {
        assert(kept.len() >= 2);
        if cut.len() == 0 {
            assert(segments(cut) =~= seq![Seq::<char>::empty()]);
        }
        assert(is_rooted(cut));
    } else {
        assert(path.len() > 0) by {
            if path.len() == 0 {
                assert(segs =~= seq![Seq::<char>::empty()]);
                lemma_names_step(segs, 0, 1);
                assert(names_between(segs, 0, 0) =~= Seq::<Seq<char>>::empty());
            }
        }
        assert(!is_rooted(cut));
    }
    assert(leads_with_cur_dir(cut) == leads_with_cur_dir(path));
    assert(body_start(cut) == b);
    lemma_names_before(segs, b, segs.len() as int, ix.len() - 1);
    lemma_names_split(segs, b, last + 1, segs.len() as int);
    lemma_names_of_equal_segments(kept, segs, b, last + 1, 0);
    assert(names_between(segs, b, segs.len() as int) =~= names_between(segs, b, last + 1));
    assert(body_names(cut) == body_names(path));
}

/// What is left of a path under a root leads back to the path: inside the
/// root it is at the place of the path.
pub proof fn lemma_relative_leads_back(root: Seq<char>, path: Seq<char>)
    requires
        relative_to(root, path) is Some,
    ensures
        same_place(child(root, relative_to(root, path)->0), path),
{
    let base = components(root);
    let all = components(path);
    let segs = segments(path);
    let b = body_start(path);
    let ix = body_indices(path);
    let rel = relative_to(root, path)->0;
    lemma_split_nonempty(path, '/');
    lemma_body_names(path);
    lemma_first_segment(path);
    if base.len() == all.len() {
        assert(rel =~= Seq::<char>::empty());
        assert(segments(rel) =~= seq![Seq::<char>::empty()]);
        assert(segments(rel)[0] != current_dir());
        lemma_body_names(rel);
        lemma_names_step(segments(rel), 0, 1);
        assert(names_between(segments(rel), 0, 0) =~= Seq::<Seq<char>>::empty());
        lemma_child_components(root, rel);
        assert(base + body_names(rel) =~= base);
        assert(base =~= all);
    } else if base.len() == 0 {
        lemma_no_components(root);
        if ix.len() == 0 {
            assert(rel == lead_text(path));
            if is_rooted(path) {
                let nothing = Seq::<char>::empty();
                assert(rel =~= nothing.push('/') + nothing);
                lemma_split_concat(nothing, nothing, '/');
                assert(split(nothing, '/') =~= seq![nothing]);
                assert(segments(rel) =~= seq![nothing, nothing]);
                lemma_body_names(rel);
                lemma_names_step(segments(rel), 1, 2);
                assert(names_between(segments(rel), 1, 1) =~= Seq::<Seq<char>>::empty());
                assert(child(root, rel) == rel);
                assert(components(rel) =~= all);
            } else {
                assert(leads_with_cur_dir(path));
                assert(rel =~= current_dir());
                lemma_split_whole(current_dir(), '/');
                assert(segments(rel) =~= seq![current_dir()]);
                lemma_body_names(rel);
                assert(names_between(segments(rel), 1, 1) =~= Seq::<Seq<char>>::empty());
                assert(child(root, rel) =~= rel);
                assert(components(rel) =~= all);
            }
        } else {
            lemma_spelled_to_last(path);
            assert(child(root, rel) =~= rel);
        }
    } else {
        let lead_len = all.len() - ix.len();
        let first = base.len() - lead_len;
        lemma_naming_indices(segs, b, segs.len() as int);
        let from = ix[first];
        let last = ix.last();
        let kept = segs.subrange(from, last + 1);
        assert(from <= last) by {
            assert(naming_indices(segs, b, last) == ix.take(ix.len() - 1));
            if first < ix.len() - 1 {
                assert(ix.take(ix.len() - 1)[first] == from);
                lemma_naming_indices(segs, b, last);
            }
        }
        lemma_pieces_hold_no_separator(path, '/');
        lemma_split_join(kept, '/');
        assert(segments(rel) == kept);
        lemma_first_segment(rel);
        assert(kept[0] == segs[from]);
        assert(!is_rooted(rel));
        assert(!leads_with_cur_dir(rel));
        lemma_child_components(root, rel);
        lemma_body_names(rel);
        lemma_names_of_equal_segments(kept, segs, 0, kept.len() as int, from);
        lemma_names_before(segs, b, segs.len() as int, first);
        lemma_names_before(segs, b, segs.len() as int, ix.len() - 1);
        lemma_names_split(segs, b, from, segs.len() as int);
        lemma_names_split(segs, from, last + 1, segs.len() as int);
        let names = names_between(segs, b, segs.len() as int);
        assert(names_between(segs, from, segs.len() as int) =~= names_between(segs, from, last + 1));
        assert(names == names.take(first) + body_names(rel));
        assert(body_names(rel) =~= names.skip(first));
        assert(base =~= all.take(base.len() as int));
        assert(all =~= all.take(base.len() as int) + all.skip(base.len() as int));
        assert(all.skip(base.len() as int) =~= names.skip(first));
    }
}

/// The numbers of the components among segments depend on those segments
/// alone.
pub proof fn lemma_indices_of_equal_segments(
    a: Seq<Seq<char>>,
    b: Seq<Seq<char>>,
    from: int,
    upto: int,
)
    requires
        forall|i: int| from <= i < upto ==> a[i] == b[i],
    ensures
        naming_indices(a, from, upto) == naming_indices(b, from, upto),
    decreases upto - from,
{
    if from < upto {
        lemma_indices_of_equal_segments(a, b, from, upto - 1);
        assert(a[upto - 1] == b[upto - 1]);
    }
}

/// What stands before the body of a path is a path of its own, with that
/// alone as its component.
pub proof fn lemma_lead_is_a_path(path: Seq<char>)
    ensures
        is_rooted(lead_text(path)) == is_rooted(path),
        leads_with_cur_dir(lead_text(path)) == leads_with_cur_dir(path),
        body_names(lead_text(path)).len() == 0,
        body_indices(path).len() == 0 ==> components(lead_text(path)) == components(path),
{
    let lead = lead_text(path);
    let nothing = Seq::<char>::empty();
    lemma_body_names(lead);
    lemma_body_names(path);
    if is_rooted(path) {
        assert(lead =~= nothing.push('/') + nothing);
        lemma_split_concat(nothing, nothing, '/');
        assert(split(nothing, '/') =~= seq![nothing]);
        assert(segments(lead) =~= seq![nothing, nothing]);
        lemma_names_step(segments(lead), 1, 2);
        assert(names_between(segments(lead), 1, 1) =~= Seq::<Seq<char>>::empty());
    } else if leads_with_cur_dir(path) {
        lemma_split_whole(current_dir(), '/');
        assert(segments(lead) =~= seq![current_dir()]);
        assert(names_between(segments(lead), 1, 1) =~= Seq::<Seq<char>>::empty());
    } else {
        assert(lead =~= nothing);
        assert(segments(lead) =~= seq![nothing]);
        assert(segments(lead)[0] != current_dir());
        lemma_names_step(segments(lead), 0, 1);
        assert(names_between(segments(lead), 0, 0) =~= Seq::<Seq<char>>::empty());
    }
    if body_indices(path).len() == 0 {
        assert(body_names(path) =~= Seq::<Seq<char>>::empty());
        assert(body_names(lead) =~= Seq::<Seq<char>>::empty());
        assert(components(lead) =~= components(path));
    }
}

/// A name of one segment: not empty, without a separator, and neither `.`
/// nor `..`.
pub open spec fn is_plain_name(name: Seq<char>) -> bool {
    &&& name.len() > 0
    &&& forall|i: int| 0 <= i < name.len() ==> name[i] != '/'
    &&& name != current_dir()
    &&& name != parent_dir()
}

/// A plain name inside a directory is the final component of its path, and
/// the parent of that path is at the place of the directory.
pub proof fn lemma_name_in_directory(dir: Seq<char>, name: Seq<char>)
    requires
        is_plain_name(name),
    ensures
        components(child(dir, name)) == components(dir).push(name),
        file_name(child(dir, name)) == Some(name),
        parent(child(dir, name)) is Some,
        same_place(parent(child(dir, name))->0, dir),
{
    let whole = child(dir, name);
    let w = segments(whole);
    let d = segments(dir);
    lemma_split_whole(name, '/');
    assert(segments(name) == seq![name]);
    assert(!is_rooted(name));
    assert(!leads_with_cur_dir(name));
    lemma_body_names(name);
    lemma_names_step(segments(name), 0, 1);
    assert(names_between(segments(name), 0, 0) =~= Seq::<Seq<char>>::empty());
    assert(body_names(name) =~= seq![name]);
    lemma_child_components(dir, name);
    assert(components(dir) + seq![name] =~= components(dir).push(name));
    lemma_body_names(whole);
    lemma_body_names(dir);
    lemma_first_segment(dir);
    lemma_first_segment(whole);
    lemma_split_nonempty(dir, '/');
    // The segments of the whole path: those of the directory that are kept,
    // then the name.
    let m: int = if dir.len() == 0 {
        0
    } else if dir.last() == '/' {
        d.len() - 1
    } else {
        d.len() as int
    };
    if dir.len() == 0 {
        assert(whole =~= name);
        assert(d =~= seq![Seq::<char>::empty()]);
        assert(d[0] != current_dir());
    } else if dir.last() == '/' {
        let front = dir.drop_last();
        assert(front.push('/') =~= dir);
        assert(whole =~= front.push('/') + name);
        lemma_split_concat(front, name, '/');
        lemma_split_nonempty(front, '/');
        assert(d.take(m) =~= split(front, '/'));
    } else {
        assert(whole =~= dir.push('/') + name);
        lemma_split_concat(dir, name, '/');
        assert(d.take(m) =~= d);
    }
    assert(w =~= d.take(m).push(name));
    let b = body_start(whole);
    assert(b == body_start(dir)) by {
        if dir.len() > 0 {
            assert(w[0] == d[0]);
            assert(whole[0] == dir[0]);
        }
    }
    assert(lead_text(whole) == lead_text(dir));
    assert(b <= m);
    let ix = body_indices(whole);
    let before = body_indices(dir);
    assert(ix == naming_indices(w, b, m).push(m));
    lemma_indices_of_equal_segments(w, d, b, m);
    assert(naming_indices(d, b, m) == before) by {
        if dir.len() > 0 && dir.last() == '/' {
            assert(!is_name(d[m]));
        } else if dir.len() == 0 {
            assert(!is_name(d[0]));
        }
    }
    assert(ix == before.push(m));
    assert(body_names(whole).last() == w[m]);
    if before.len() == 0 {
        lemma_lead_is_a_path(dir);
    } else {
        lemma_naming_indices(d, body_start(dir), d.len() as int);
        let last = before.last();
        assert(last < m) by {
            lemma_naming_indices(d, b, m);
        }
        assert(ix[ix.len() - 2] == last);
        assert(w.take(last + 1) =~= d.take(last + 1));
        assert(spelled_to(whole, last) == spelled_to(dir, last));
        lemma_spelled_to_last(dir);
    }
}

/// A rooted path has `/` as its first component, and no other path has.
pub proof fn lemma_rooted_by_components(path: Seq<char>)
    ensures
        is_rooted(path) <==> components(path).len() > 0 && components(path)[0] == seq!['/'],
        is_rooted(path) ==> body_names(path) == components(path).skip(1),
{
    lemma_split_nonempty(path, '/');
    lemma_pieces_hold_no_separator(path, '/');
    lemma_naming_indices(segments(path), body_start(path), segments(path).len() as int);
    if is_rooted(path) {
        assert(components(path).skip(1) =~= body_names(path));
    } else if leads_with_cur_dir(path) {
        assert(components(path)[0] == current_dir());
        assert(current_dir()[0] == '.');
    } else if components(path).len() > 0 {
        let ix = body_indices(path);
        let first = components(path)[0];
        assert(first == segments(path)[ix[0]]);
        if first == seq!['/'] {
            assert(first[0] == '/');
        }
    }
}

/// Two paths with the same components have one spelling of their place.
pub proof fn lemma_one_place(p: Seq<char>, q: Seq<char>)
    requires
        same_place(p, q),
    ensures
        place(p) == place(q),
{
    lemma_rooted_by_components(p);
    lemma_rooted_by_components(q);
}

/// Something is left of a path under a root exactly where the components of
/// the root are the first components of the path.
pub proof fn lemma_relative_exactly_under_root(root: Seq<char>, path: Seq<char>)
    ensures
        relative_to(root, path) is Some <==> components(root).is_prefix_of(components(path)),
{
}

/// The empty path has no components, so every path lies under it; and every
/// path lies under itself, with nothing left.
pub proof fn lemma_relative_to_empty_and_self(path: Seq<char>)
    ensures
        components(Seq::<char>::empty()).len() == 0,
        relative_to(Seq::<char>::empty(), path) is Some,
        relative_to(path, path) == Some(Seq::<char>::empty()),
{
    let nothing = Seq::<char>::empty();
    lemma_body_names(nothing);
    assert(segments(nothing) =~= seq![nothing]);
    assert(segments(nothing)[0] != current_dir());
    lemma_names_step(segments(nothing), 0, 1);
    assert(names_between(segments(nothing), 0, 0) =~= Seq::<Seq<char>>::empty());
    assert(components(nothing) =~= Seq::<Seq<char>>::empty());
    assert(components(nothing).is_prefix_of(components(path)));
    assert(components(path).is_prefix_of(components(path)));
}

} // verus!
