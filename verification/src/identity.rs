use crate::text::{append_chars, chars_of, string_of};
use vstd::prelude::*;

verus! {

/// A lowercase hexadecimal digit.
pub open spec fn is_lower_hex(c: char) -> bool {
    ('0' <= c && c <= '9') || ('a' <= c && c <= 'f')
}

/// The hyphenated form of a UUID: 36 characters, hyphens at the four group
/// borders and lowercase hexadecimal digits elsewhere.
pub open spec fn is_uuid_text(s: Seq<char>) -> bool {
    &&& s.len() == 36
    &&& forall|i: int|
        0 <= i < 36 ==> if i == 8 || i == 13 || i == 18 || i == 23 {
            #[trigger] s[i] == '-'
        } else {
            is_lower_hex(s[i])
        }
}

/// Calls `uuid::Uuid::new_v4`, which draws a random UUID from the system's
/// random source, and `to_string` on it. The contract claims only the shape of
/// the text, which the crate's formatting code fixes for every UUID. The call
/// panics where the system has no random bytes to give.
#[verifier::external_body]
pub(crate) fn random_uuid() -> (r: String)
    ensures
        is_uuid_text(r@),
{
    uuid::Uuid::new_v4().to_string()
}

/// The hyphenated form of the version 5 UUID of `name` in the URL namespace,
/// as `uuid::Uuid::new_v5` derives it from the bytes of the name by SHA-1.
pub uninterp spec fn url_uuid_v5(name: Seq<char>) -> Seq<char>;

/// Calls `uuid::Uuid::new_v5` with `NAMESPACE_URL` and the bytes of `name`,
/// and `to_string` on the result. The contract only names the result.
#[verifier::external_body]
pub(crate) fn uuid_v5_of(name: &str) -> (r: String)
    ensures
        r@ == url_uuid_v5(name@),
{
    uuid::Uuid::new_v5(&uuid::Uuid::NAMESPACE_URL, name.as_bytes()).to_string()
}

/// `path` with every backslash turned into a slash.
pub open spec fn with_slashes(path: Seq<char>) -> Seq<char> {
    Seq::new(
        path.len(),
        |i: int|
            if path[i] == '\\' {
                '/'
            } else {
                path[i]
            },
    )
}

/// `path` without the slashes at its end.
pub open spec fn without_trailing_slashes(path: Seq<char>) -> Seq<char>
    decreases path.len(),
{
    if path.len() > 0 && path.last() == '/' {
        without_trailing_slashes(path.drop_last())
    } else {
        path
    }
}

/// The canonical spelling of a root path: one kind of separator, none at the
/// end. The case of the letters is kept.
pub open spec fn normalized(path: Seq<char>) -> Seq<char> {
    without_trailing_slashes(with_slashes(path))
}

/// The text from which the id of a root is derived: the key of its volume,
/// two colons, and its normalized path.
pub open spec fn root_key(volume_key: Seq<char>, path: Seq<char>) -> Seq<char> {
    volume_key + seq![':', ':'] + normalized(path)
}

/// The canonical spelling of a root path.
pub fn normalize_path(path: &str) -> (r: String)
    ensures
        r@ == normalized(path@),
{
    let chars = chars_of(path);
    let mut out: Vec<char> = Vec::new();
    let mut i: usize = 0;
    while i < chars.len()
        invariant
            i <= chars.len(),
            out@ == with_slashes(chars@).take(i as int),
        decreases chars.len() - i,
    {
        let c = chars[i];
        if c == '\\' {
            out.push('/');
        } else {
            out.push(c);
        }
        i += 1;
        assert(out@ =~= with_slashes(chars@).take(i as int));
    }
    assert(out@ =~= with_slashes(chars@));
    let ghost full = out@;
    let mut end: usize = out.len();
    assert(full.take(end as int) =~= full);
    while end > 0 && out[end - 1] == '/'
        invariant
            end <= out.len(),
            out@ == full,
            without_trailing_slashes(full) == without_trailing_slashes(full.take(end as int)),
        decreases end,
    {
        assert(full.take(end as int).drop_last() =~= full.take(end - 1));
        end -= 1;
    }
    assert(full.take(end as int) =~= full.subrange(0, end as int));
    crate::text::string_of_range(&out, 0, end)
}

/// The text from which the id of a root is derived.
pub fn root_key_of(volume_key: &str, path: &str) -> (r: String)
    ensures
        r@ == root_key(volume_key@, path@),
{
    let mut out = chars_of(volume_key);
    out.push(':');
    out.push(':');
    let norm = normalize_path(path);
    append_chars(&mut out, &chars_of(norm.as_str()));
    assert(out@ =~= root_key(volume_key@, path@));
    string_of(&out)
}

/// The id of the root at `root_path` on the volume with the key
/// `volume_key`: the version 5 UUID of the root's key. The same volume and
/// the same path, however spelled, give the same id.
pub fn generate_deterministic_root_id(root_path: &str, volume_key: &str) -> (r: String)
    ensures
        r@ == url_uuid_v5(root_key(volume_key@, root_path@)),
{
    let key = root_key_of(volume_key, root_path);
    uuid_v5_of(key.as_str())
}

/// Normalizing ignores slashes at the end of a path.
pub proof fn lemma_normalized_ignores_trailing_slash(path: Seq<char>)
    ensures
        normalized(path.push('/')) == normalized(path),
        normalized(path.push('\\')) == normalized(path),
{
    assert(with_slashes(path.push('/')) =~= with_slashes(path).push('/'));
    assert(with_slashes(path.push('\\')) =~= with_slashes(path).push('/'));
    assert(with_slashes(path).push('/').drop_last() =~= with_slashes(path));
}

/// Normalizing does not tell a backslash from a slash.
pub proof fn lemma_normalized_ignores_separator_kind(a: Seq<char>, b: Seq<char>)
    requires
        with_slashes(a) == with_slashes(b),
    ensures
        normalized(a) == normalized(b),
{
}

/// The key of a root tells volumes apart: the same path on two volumes has two
/// keys.
pub proof fn lemma_root_key_tells_volumes_apart(v1: Seq<char>, v2: Seq<char>, path: Seq<char>)
    requires
        root_key(v1, path) == root_key(v2, path),
    ensures
        v1 == v2,
{
    let tail = seq![':', ':'] + normalized(path);
    assert(root_key(v1, path) =~= v1 + tail);
    assert(root_key(v2, path) =~= v2 + tail);
    assert((v1 + tail).len() == v1.len() + tail.len());
    assert((v2 + tail).len() == v2.len() + tail.len());
    assert(v1.len() == v2.len());
    assert forall|i: int| 0 <= i < v1.len() implies v1[i] == v2[i] by {
        assert((v1 + tail)[i] == v1[i]);
        assert((v2 + tail)[i] == v2[i]);
    }
    assert(v1 =~= v2);
}

/// The id of a root is a function of its volume key and its normalized path
/// alone: two spellings of one path on one volume get one id.
pub proof fn lemma_root_id_deterministic(
    volume_key: Seq<char>,
    path_a: Seq<char>,
    path_b: Seq<char>,
)
    requires
        normalized(path_a) == normalized(path_b),
    ensures
        url_uuid_v5(root_key(volume_key, path_a)) == url_uuid_v5(root_key(volume_key, path_b)),
{
}

} // verus!
