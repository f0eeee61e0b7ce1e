//! Paths of the file system, by their components.
use vstd::prelude::*;

verus! {

/// A `std` path is opaque; [`path_components`] is what it names.
#[verifier::external_type_specification]
#[verifier::external_body]
pub struct ExPath(std::path::Path);

/// An owned `std` path is opaque; [`path_buf_components`] is what it names.
#[verifier::external_type_specification]
#[verifier::external_body]
pub struct ExPathBuf(std::path::PathBuf);

/// The components of a path, each by its encoded bytes.
pub uninterp spec fn path_components(p: &std::path::Path) -> Seq<Seq<u8>>;

/// The components of an owned path, each by its encoded bytes.
pub uninterp spec fn path_buf_components(p: std::path::PathBuf) -> Seq<Seq<u8>>;

/// A path as it is written, by its encoded bytes.
pub uninterp spec fn path_bytes(p: &std::path::Path) -> Seq<u8>;

/// An owned path as it is written, by its encoded bytes.
pub uninterp spec fn path_buf_bytes(p: std::path::PathBuf) -> Seq<u8>;

/// A byte separates components on some platform: a slash or a backslash.
pub open spec fn separator(b: u8) -> bool {
    b == 47 || b == 92
}

/// A path as it is written begins with two separators, which some platforms
/// take for the beginning of a prefix.
pub open spec fn two_separators(bytes: Seq<u8>) -> bool {
    bytes.len() >= 2 && separator(bytes[0]) && separator(bytes[1])
}

/// Behind two separators stand the name of a server and the name of a share, so
/// that the prefix is complete. The server is no question mark, which stands for
/// paths that some platforms normalize.
pub open spec fn names_share(bytes: Seq<u8>) -> bool {
    exists|k: int|
        {
            &&& 3 <= k < bytes.len() - 1
            &&& separator(#[trigger] bytes[k])
            &&& !separator(bytes[k + 1])
            &&& forall|j: int| 2 <= j < k ==> !separator(#[trigger] bytes[j])
            &&& k == 3 ==> bytes[2] != 63
        }
}

/// Every platform puts a relative path behind a base that is written so: if it
/// begins with two separators, a server and a share follow.
pub open spec fn portable_base(bytes: Seq<u8>) -> bool {
    two_separators(bytes) ==> names_share(bytes)
}

/// No platform finds a prefix in a base that is written so: it does not begin
/// with two separators, and its second character is not the colon of a drive.
pub open spec fn base_without_prefix(bytes: Seq<u8>) -> bool {
    !two_separators(bytes) && !(bytes.len() >= 2 && bytes[1] == 58)
}

/// The parts of a text between its slashes.
pub open spec fn segments(s: Seq<char>) -> Seq<Seq<char>>
    decreases s.len(),
{
    if s.len() == 0 {
        seq![Seq::empty()]
    } else {
        let front = segments(s.drop_last());
        if s.last() == '/' {
            front.push(Seq::empty())
        } else {
            front.drop_last().push(front.last().push(s.last()))
        }
    }
}

/// A text without slashes is one segment.
pub(crate) proof fn lemma_one_segment(s: Seq<char>)
    requires
        forall|i: int| 0 <= i < s.len() ==> #[trigger] s[i] != '/',
    ensures
        segments(s) == seq![s],
    decreases s.len(),
{
    if s.len() > 0 {
        lemma_one_segment(s.drop_last());
        assert(s.drop_last().push(s.last()) =~= s);
        assert(segments(s) =~= seq![s]);
    } else {
        assert(s =~= Seq::empty());
    }
}

/// The segments that name components: empty ones and dots vanish, all others
/// stay, parent segments among them.
pub open spec fn named_segments(parts: Seq<Seq<char>>) -> Seq<Seq<char>>
    decreases parts.len(),
{
    if parts.len() == 0 {
        Seq::empty()
    } else if parts.last().len() == 0 || parts.last() == seq!['.'] {
        named_segments(parts.drop_last())
    } else {
        named_segments(parts.drop_last()).push(parts.last())
    }
}

/// A text without backslashes, which separate components on some platforms only.
pub open spec fn without_backslash(s: Seq<char>) -> bool {
    forall|i: int| 0 <= i < s.len() ==> #[trigger] s[i] != '\\'
}

/// A text is a relative path on every platform: it does not begin with a slash
/// or with a drive, and holds no backslash.
pub open spec fn relative_text(s: Seq<char>) -> bool {
    &&& s.len() > 0 ==> s[0] != '/'
    &&& s.len() > 1 ==> s[1] != ':'
    &&& without_backslash(s)
}

/// A text is a path with a root and without a prefix on every platform: it
/// begins with one slash, and holds no backslash.
pub open spec fn rooted_text(s: Seq<char>) -> bool {
    &&& s.len() > 0 && s[0] == '/'
    &&& s.len() > 1 ==> s[1] != '/'
    &&& without_backslash(s)
}

/// The first segment of a text is a dot.
pub open spec fn begins_with_dot(rel: Seq<char>) -> bool {
    segments(rel)[0] == seq!['.']
}

/// A base is a drive without a path, on platforms that have drives.
pub open spec fn lone_drive(base: Seq<u8>) -> bool {
    base.len() == 2 && base[1] == 58
}

/// Names as the components of a path.
pub open spec fn name_components(names: Seq<Seq<char>>) -> Seq<Seq<u8>> {
    names.map_values(|n: Seq<char>| vstd::utf8::encode_utf8(n))
}

/// The components of a base, which is written as `bytes`, and a relative path
/// behind it. A dot at the beginning stays where nothing stands before it.
pub open spec fn below(bytes: Seq<u8>, base: Seq<Seq<u8>>, rel: Seq<char>) -> Seq<Seq<u8>> {
    let names = named_segments(segments(rel));
    base + name_components(
        if bytes.len() == 0 && begins_with_dot(rel) {
            seq![seq!['.']] + names
        } else {
            names
        },
    )
}

/// Components are a root, which is one separator, and the named segments of a
/// text.
pub open spec fn rooted(components: Seq<Seq<u8>>, rel: Seq<char>) -> bool {
    &&& components.len() > 0
    &&& components[0].len() == 1 && separator(components[0][0])
    &&& components.skip(1) == name_components(named_segments(segments(rel)))
}

/// What a text becomes behind a base that is written as `bytes`, as far as
/// every platform agrees: a relative path follows the components of the base, and
/// one with a root takes the place of a base that has no prefix.
pub open spec fn placed(
    bytes: Seq<u8>,
    base: Seq<Seq<u8>>,
    rel: Seq<char>,
    r: Seq<Seq<u8>>,
) -> bool {
    &&& portable_base(bytes) && relative_text(rel) && !(lone_drive(bytes) && begins_with_dot(rel))
        ==> r == below(bytes, base, rel)
    &&& base_without_prefix(bytes) && rooted_text(rel) ==> rooted(r, rel)
}

/// `Path::join` adjoins a path to a base: the components of a relative path
/// follow those of the base, without empty segments and dots and with parent
/// segments as they are; a path with a root replaces a base without a prefix.
/// Behind a base that begins with at most one separator, or with a server and a
/// share, the result begins so as well, unless the base is a lone backslash.
/// What becomes of backslashes and drives, of an incomplete prefix, and of a
/// prefix before a root, is left to the platform and not stated.
#[verifier::external_body]
pub(crate) fn join(base: &std::path::Path, rel: &str) -> (r: std::path::PathBuf)
    ensures
        placed(path_bytes(base), path_components(base), rel@, path_buf_components(r)),
        portable_base(path_bytes(base)) && path_bytes(base) != seq![92u8] && relative_text(rel@)
            ==> portable_base(path_buf_bytes(r)),
{
    base.join(rel)
}

/// `PathBuf::as_path` borrows an owned path; it is the same path.
#[verifier::external_body]
pub(crate) fn as_path(p: &std::path::PathBuf) -> (r: &std::path::Path)
    ensures
        path_components(r) == path_buf_components(*p),
        path_bytes(r) == path_buf_bytes(*p),
{
    p.as_path()
}

/// `r` is what `Path::join` hands back, on the platform at hand, for a base and
/// a text, whatever they are.
pub closed spec fn joins(base: &std::path::Path, rel: &str, r: std::path::PathBuf) -> bool {
    call_ensures(join, (base, rel), r)
}

/// `r` is what `Path::join` hands back, on the platform at hand, for an owned
/// base and a text, whatever they are.
pub closed spec fn buf_joins(base: std::path::PathBuf, rel: &str, r: std::path::PathBuf) -> bool {
    exists|p: &std::path::Path| #[trigger]
        call_ensures(as_path, (&base,), p) && call_ensures(join, (p, rel), r)
}

/// The path that `Path::join` makes of a base and a text.
pub(crate) fn joined_path(base: &std::path::Path, rel: &str) -> (r: std::path::PathBuf)
    ensures
        joins(base, rel, r),
        placed(path_bytes(base), path_components(base), rel@, path_buf_components(r)),
        portable_base(path_bytes(base)) && path_bytes(base) != seq![92u8] && relative_text(rel@)
            ==> portable_base(path_buf_bytes(r)),
{
    join(base, rel)
}

/// The path that `Path::join` makes of an owned base and a text.
pub(crate) fn joined_buf(base: &std::path::PathBuf, rel: &str) -> (r: std::path::PathBuf)
    ensures
        buf_joins(*base, rel, r),
        placed(path_buf_bytes(*base), path_buf_components(*base), rel@, path_buf_components(r)),
        portable_base(path_buf_bytes(*base)) && path_buf_bytes(*base) != seq![92u8]
            && relative_text(rel@) ==> portable_base(path_buf_bytes(r)),
{
    let p = as_path(base);
    let r = join(p, rel);
    assert(call_ensures(as_path, (base,), p) && call_ensures(join, (p, rel), r));
    r
}

/// What was joined has its place: the components of every result of a join are
/// known as far as every platform agrees.
pub proof fn joined_paths_are_placed(
    base: std::path::PathBuf,
    rel: &str,
    r: std::path::PathBuf,
)
    requires
        buf_joins(base, rel, r),
    ensures
        placed(path_buf_bytes(base), path_buf_components(base), rel@, path_buf_components(r)),
{
}

} // verus!
