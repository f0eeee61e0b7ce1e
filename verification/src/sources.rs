//! The files of a source tree: which of them are Rust sources, in what order
//! they are taken, and what module a file stands for.
use vstd::prelude::*;

use crate::order::{byte_string_le, Ranked};

verus! {

/// One entry of a walk through a source tree.
#[derive(Clone, Debug)]
pub struct SourceEntry {
    /// The path below the root of the walk, one component after the other.
    pub components: Vec<Vec<u8>>,
    /// The file name; empty if the entry has none.
    pub name: Vec<u8>,
    /// Whether the entry is a regular file.
    pub is_file: bool,
}

// ---------------------------------------------------------------------------
// File names
// ---------------------------------------------------------------------------

/// The place of the last dot of a file name, or -1.
pub open spec fn last_dot(name: Seq<u8>) -> int
    decreases name.len(),
{
    if name.len() == 0 {
        -1
    } else if name.last() == 46 {
        name.len() - 1
    } else {
        last_dot(name.drop_last())
    }
}

/// A file name splits at its last dot, unless that dot comes first or the name
/// is the parent directory's.
pub open spec fn splits_at_dot(name: Seq<u8>) -> bool {
    last_dot(name) > 0 && name != seq![46u8, 46u8]
}

/// What stands behind the dot at which a file name splits.
pub open spec fn extension_of(name: Seq<u8>) -> Option<Seq<u8>> {
    if splits_at_dot(name) {
        Some(name.skip(last_dot(name) + 1))
    } else {
        None
    }
}

/// What stands before the dot at which a file name splits; the whole name if it
/// does not split.
pub open spec fn stem_of(name: Seq<u8>) -> Seq<u8> {
    if splits_at_dot(name) {
        name.take(last_dot(name))
    } else {
        name
    }
}

/// The dot at which a file name splits.
fn split_point(name: &[u8]) -> (r: Option<usize>)
    ensures
        match r {
            Some(i) => splits_at_dot(name@) && i == last_dot(name@) && i < name@.len(),
            None => !splits_at_dot(name@),
        },
{
    let mut n: usize = name.len();
    assert(name@.take(n as int) =~= name@);
    while n > 0 && name[n - 1] != 46
        invariant
            n <= name@.len(),
            last_dot(name@) == last_dot(name@.take(n as int)),
        decreases n,
    {
        assert(name@.take(n as int).drop_last() =~= name@.take(n - 1));
        n -= 1;
    }
    if n <= 1 {
        return None;
    }
    let parent = name.len() == 2 && name[0] == 46 && name[1] == 46;
    assert(parent ==> name@ =~= seq![46u8, 46u8]);
    if parent {
        None
    } else {
        Some(n - 1)
    }
}

// ---------------------------------------------------------------------------
// Rust sources
// ---------------------------------------------------------------------------

/// The entry is a regular file whose name ends in `.rs`.
pub open spec fn rust_source(e: SourceEntry) -> bool {
    e.is_file && extension_of(e.name@) == Some(seq![114u8, 115u8])
}

/// The entry lies in the directory `helpers` of the tree.
pub open spec fn under_helpers(e: SourceEntry) -> bool {
    e.components@.len() > 0 && e.components@[0]@ == vstd::utf8::encode_utf8("helpers"@)
}

/// Whether an entry is a regular file whose name ends in `.rs`.
pub fn is_rust_source(e: &SourceEntry) -> (r: bool)
    ensures
        r == rust_source(*e),
{
    if !e.is_file {
        return false;
    }
    match split_point(e.name.as_slice()) {
        Some(i) => {
            let ghost ext = e.name@.skip(i + 1);
            let r = e.name.len() - i == 3 && e.name[i + 1] == 114 && e.name[i + 2] == 115;
            assert(r ==> ext =~= seq![114u8, 115u8]);
            assert(ext.len() == e.name@.len() - i - 1);
            assert(ext.len() == 2 ==> ext[0] == e.name@[i + 1] && ext[1] == e.name@[i + 2]);
            r
        },
        None => false,
    }
}

/// Whether two byte strings are the same.
pub fn bytes_equal(a: &[u8], b: &[u8]) -> (r: bool)
    ensures
        r == (a@ == b@),
{
    if a.len() != b.len() {
        return false;
    }
    let mut i: usize = 0;
    while i < a.len()
        invariant
            a@.len() == b@.len(),
            i <= a@.len(),
            forall|j: int| 0 <= j < i ==> a@[j] == b@[j],
        decreases a@.len() - i,
    {
        if a[i] != b[i] {
            return false;
        }
        i += 1;
    }
    assert(a@ =~= b@);
    true
}

/// Whether an entry lies in the directory `helpers` of the tree.
pub fn is_under_helpers(e: &SourceEntry) -> (r: bool)
    ensures
        r == under_helpers(*e),
{
    e.components.len() > 0 && bytes_equal(e.components[0].as_slice(), "helpers".as_bytes())
}

/// Whether an entry is walked for the calls that its functions make: a Rust
/// source outside the directory `helpers`.
pub fn is_walked(e: &SourceEntry) -> (r: bool)
    ensures
        r == (rust_source(*e) && !under_helpers(*e)),
{
    is_rust_source(e) && !is_under_helpers(e)
}

// ---------------------------------------------------------------------------
// Modules
// ---------------------------------------------------------------------------

/// `String::from_utf8` takes bytes for a string if they are UTF-8, and refuses
/// them otherwise.
#[verifier::external_body]
fn utf8_string(bytes: Vec<u8>) -> (r: Option<String>)
    ensures
        match r {
            Some(s) => vstd::utf8::encode_utf8(s@) == bytes@,
            None => !vstd::utf8::valid_utf8(bytes@),
        },
{
    String::from_utf8(bytes).ok()
}

/// The module that a file of this name stands for: the name without its
/// extension, or `<unknown>` if there is no name or it is not text.
pub open spec fn module_text(name: Seq<u8>) -> Seq<char> {
    if name.len() > 0 && name != seq![46u8, 46u8] && vstd::utf8::valid_utf8(stem_of(name)) {
        vstd::utf8::decode_utf8(stem_of(name))
    } else {
        "<unknown>"@
    }
}

/// The module that a file stands for.
pub fn module_label(e: &SourceEntry) -> (r: String)
    ensures
        r@ == module_text(e.name@),
{
    let name = e.name.as_slice();
    let parent = name.len() == 2 && name[0] == 46 && name[1] == 46;
    assert(parent <==> name@ == seq![46u8, 46u8]) by {
        if parent {
            assert(name@ =~= seq![46u8, 46u8]);
        }
    }
    if name.len() == 0 || parent {
        return "<unknown>".to_owned();
    }
    let end: usize = match split_point(name) {
        Some(i) => i,
        None => name.len(),
    };
    let mut stem: Vec<u8> = Vec::new();
    let mut i: usize = 0;
    while i < end
        invariant
            i <= end <= name@.len(),
            stem@ == name@.take(i as int),
        decreases end - i,
    {
        stem.push(name[i]);
        assert(name@.take(i + 1) =~= name@.take(i as int).push(name@[i as int]));
        i += 1;
    }
    assert(stem@ =~= stem_of(name@));
    match utf8_string(stem) {
        Some(s) => {
            proof {
                vstd::utf8::encode_utf8_valid_utf8(s@);
                vstd::utf8::encode_utf8_decode_utf8(s@);
            }
            s
        },
        None => "<unknown>".to_owned(),
    }
}

// ---------------------------------------------------------------------------
// The order of paths
// ---------------------------------------------------------------------------

/// A path as the list of its components.
pub open spec fn path_of(components: Seq<Vec<u8>>) -> Seq<Seq<u8>> {
    components.map_values(|c: Vec<u8>| c@)
}

/// Path `a` comes no later than path `b`: component by component.
pub open spec fn path_le(a: Seq<Seq<u8>>, b: Seq<Seq<u8>>) -> bool {
    crate::order::lex_le(a, b, crate::order::bytes_order())
}

/// The order of paths.
pub open spec fn path_order() -> spec_fn(Seq<Seq<u8>>, Seq<Seq<u8>>) -> bool {
    |a: Seq<Seq<u8>>, b: Seq<Seq<u8>>| path_le(a, b)
}

/// Paths are totally ordered.
pub proof fn path_order_is_total()
    ensures
        vstd::relations::total_ordering(path_order()),
{
    crate::order::bytes_order_is_total();
    let le = crate::order::bytes_order();
    crate::order::lex_order_is_total(le);
    assert(path_order() =~= (|a: Seq<Seq<u8>>, b: Seq<Seq<u8>>| crate::order::lex_le(a, b, le)));
}

/// Whether path `a` comes no later than path `b`.
pub fn components_le(a: &Vec<Vec<u8>>, b: &Vec<Vec<u8>>) -> (r: bool)
    ensures
        r == path_le(path_of(a@), path_of(b@)),
{
    let ghost x = path_of(a@);
    let ghost y = path_of(b@);
    let mut i: usize = 0;
    assert(x.skip(0) =~= x);
    assert(y.skip(0) =~= y);
    while i < a.len()
        invariant
            x == path_of(a@),
            y == path_of(b@),
            i <= a@.len(),
            i <= b@.len(),
            path_le(x, y) == path_le(x.skip(i as int), y.skip(i as int)),
        decreases a@.len() - i,
    {
        if i >= b.len() {
            return false;
        }
        assert(x.skip(i as int)[0] == a@[i as int]@);
        assert(y.skip(i as int)[0] == b@[i as int]@);
        if !bytes_equal(a[i].as_slice(), b[i].as_slice()) {
            return byte_string_le(a[i].as_slice(), b[i].as_slice());
        }
        assert(x.skip(i as int).drop_first() =~= x.skip(i + 1));
        assert(y.skip(i as int).drop_first() =~= y.skip(i + 1));
        i += 1;
    }
    true
}

/// One file below the directory of the helpers.
#[derive(Clone, Debug)]
pub struct HelperFile {
    /// The file, by its path below the directory.
    pub entry: SourceEntry,
    /// The same path as text.
    pub rel: String,
    /// What the file holds.
    pub bytes: Vec<u8>,
}

impl Ranked for HelperFile {
    /// Helper files rank by their paths.
    open spec fn rank_le(&self, other: &Self) -> bool {
        path_le(path_of(self.entry.components@), path_of(other.entry.components@))
    }

    proof fn ranking_is_total(a: Self, b: Self, c: Self) {
        path_order_is_total();
        let x = path_of(a.entry.components@);
        let y = path_of(b.entry.components@);
        let z = path_of(c.entry.components@);
        assert(path_order()(x, y) || path_order()(y, x));
        if path_le(x, y) && path_le(y, z) {
            assert(path_order()(x, y) && path_order()(y, z));
            assert(path_order()(x, z));
        }
    }

    fn ranks_le(&self, other: &Self) -> (r: bool) {
        components_le(&self.entry.components, &other.entry.components)
    }
}

// ---------------------------------------------------------------------------
// Laws
// ---------------------------------------------------------------------------

proof fn lemma_last_dot(front: Seq<u8>, end: Seq<u8>)
    requires
        forall|i: int| 0 <= i < end.len() ==> #[trigger] end[i] != 46,
    ensures
        last_dot(front.push(46) + end) == front.len(),
    decreases end.len(),
{
    let name = front.push(46) + end;
    if end.len() > 0 {
        assert(name.last() == end[end.len() - 1]);
        assert(name.drop_last() =~= front.push(46) + end.drop_last());
        assert forall|i: int| 0 <= i < end.drop_last().len() implies #[trigger] end.drop_last()[i]
            != 46 by {
            assert(end[i] != 46);
        }
        lemma_last_dot(front, end.drop_last());
    } else {
        assert(name =~= front.push(46));
    }
}

proof fn lemma_no_dot(name: Seq<u8>)
    requires
        forall|i: int| 0 <= i < name.len() ==> #[trigger] name[i] != 46,
    ensures
        last_dot(name) == -1,
    decreases name.len(),
{
    if name.len() > 0 {
        assert(name[name.len() - 1] != 46);
        assert forall|i: int| 0 <= i < name.drop_last().len() implies #[trigger] name.drop_last()[i]
            != 46 by {
            assert(name[i] != 46);
        }
        lemma_no_dot(name.drop_last());
    }
}

proof fn lemma_dot_found(name: Seq<u8>)
    requires
        last_dot(name) >= 0,
    ensures
        last_dot(name) < name.len(),
        name[last_dot(name)] == 46,
        forall|i: int| last_dot(name) < i < name.len() ==> #[trigger] name[i] != 46,
    decreases name.len(),
{
    if name.len() > 0 && name.last() != 46 {
        lemma_dot_found(name.drop_last());
        assert forall|i: int| last_dot(name) < i < name.len() implies #[trigger] name[i] != 46 by {
            if i < name.len() - 1 {
                assert(name.drop_last()[i] != 46);
            }
        }
    }
}

/// A Rust source is a regular file whose name is something followed by `.rs`;
/// nothing else is one.
pub proof fn rust_sources_end_in_rs(e: &SourceEntry, r: bool)
    requires
        call_ensures(is_rust_source, (e,), r),
    ensures
        r <==> e.is_file && e.name@.len() > 3 && e.name@[e.name@.len() - 3] == 46
            && e.name@[e.name@.len() - 2] == 114 && e.name@[e.name@.len() - 1] == 115,
{
    let name = e.name@;
    if rust_source(*e) {
        lemma_dot_found(name);
        let ext = name.skip(last_dot(name) + 1);
        assert(ext.len() == 2);
        assert(ext[0] == name[last_dot(name) + 1] && ext[1] == name[last_dot(name) + 2]);
    }
    if name.len() > 3 && name[name.len() - 3] == 46 && name[name.len() - 2] == 114 && name[name.len()
        - 1] == 115 {
        let front = name.take(name.len() - 3);
        let end = seq![114u8, 115u8];
        assert(name =~= front.push(46) + end);
        lemma_last_dot(front, end);
        assert(name.skip(last_dot(name) + 1) =~= end);
        assert(name != seq![46u8, 46u8]) by {
            assert(seq![46u8, 46u8].len() == 2);
        }
    }
}

/// An entry lies under the helpers exactly if the first component of its path is
/// the name of their directory; how deep it lies does not matter.
pub proof fn helpers_lie_below_their_directory(e: &SourceEntry, r: bool)
    requires
        call_ensures(is_under_helpers, (e,), r),
    ensures
        r <==> exists|rest: Seq<Seq<u8>>|
            path_of(e.components@) == #[trigger] (seq![vstd::utf8::encode_utf8("helpers"@)] + rest),
{
    let path = path_of(e.components@);
    let name = vstd::utf8::encode_utf8("helpers"@);
    if under_helpers(*e) {
        assert(path[0] == name);
        assert(path =~= seq![name] + path.drop_first());
    }
    if exists|rest: Seq<Seq<u8>>| path == #[trigger] (seq![name] + rest) {
        let rest = choose|rest: Seq<Seq<u8>>| path == #[trigger] (seq![name] + rest);
        assert((seq![name] + rest)[0] == name);
        assert(path.len() == e.components@.len());
        assert(path[0] == e.components@[0]@);
    }
}

/// What is walked are the Rust sources outside the directory of the helpers.
pub proof fn helpers_are_not_walked(e: &SourceEntry, walked: bool, rust: bool, helper: bool)
    requires
        call_ensures(is_walked, (e,), walked),
        call_ensures(is_rust_source, (e,), rust),
        call_ensures(is_under_helpers, (e,), helper),
    ensures
        walked <==> rust && !helper,
{
}

/// A file is named after what stands before the last dot of its name: the module
/// of `stem` with an extension behind it is `stem`. A name without a dot, or with
/// its only dot in front, stands for itself.
pub proof fn modules_go_by_their_stems(stem: Seq<char>, ext: Seq<u8>)
    requires
        stem.len() > 0,
        forall|i: int| 0 <= i < ext.len() ==> #[trigger] ext[i] != 46,
    ensures
        vstd::utf8::encode_utf8(stem).push(46) + ext != seq![46u8, 46u8] ==> module_text(
            vstd::utf8::encode_utf8(stem).push(46) + ext,
        ) == stem,
        (forall|i: int|
            0 <= i < vstd::utf8::encode_utf8(stem).len() ==> #[trigger] vstd::utf8::encode_utf8(
                stem,
            )[i] != 46) ==> module_text(vstd::utf8::encode_utf8(stem)) == stem,
{
    let bytes = vstd::utf8::encode_utf8(stem);
    let name = bytes.push(46) + ext;
    vstd::utf8::encode_utf8_valid_utf8(stem);
    vstd::utf8::encode_utf8_decode_utf8(stem);
    assert(bytes.len() > 0) by {
        if bytes.len() == 0 {
            let none = Seq::<char>::empty();
            vstd::utf8::encode_utf8_decode_utf8(none);
            assert(vstd::utf8::encode_utf8(none) =~= Seq::<u8>::empty());
            assert(bytes =~= Seq::<u8>::empty());
        }
    }
    lemma_last_dot(bytes, ext);
    assert(name.take(bytes.len() as int) =~= bytes);
    if forall|i: int| 0 <= i < bytes.len() ==> #[trigger] bytes[i] != 46 {
        lemma_no_dot(bytes);
        assert(bytes != seq![46u8, 46u8]) by {
            assert(seq![46u8, 46u8][0] == 46);
        }
    }
}

} // verus!
