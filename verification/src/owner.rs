//! Owner files: which source file implements an interface.
use vstd::prelude::*;

use crate::paths::joined_buf;
use crate::text::str_eq;

verus! {

/// Finds the owner file of an interface. Each shim brings its own.
pub trait OwnerResolver: Send + Sync {
    /// The source file that implements `interface`, or `None` if it is not
    /// mapped.
    fn owner_file(&self, interface: &str) -> Option<std::path::PathBuf>;

    /// Every interface that the resolver knows.
    fn known_interfaces(&self) -> Vec<String>;
}

/// A resolver over a fixed table. `src_root` is put before each entry's path.
pub struct StaticOwnerResolver {
    pub src_root: std::path::PathBuf,
    /// Pairs of an interface and a path below `src_root`. Interfaces match
    /// exactly, upper and lower case included.
    pub entries: Vec<(&'static str, &'static str)>,
}

/// `entries[i]` is the first that maps `interface`.
pub open spec fn first_entry(
    entries: Seq<(&'static str, &'static str)>,
    interface: Seq<char>,
    i: int,
) -> bool {
    &&& 0 <= i < entries.len()
    &&& entries[i].0@ == interface
    &&& forall|j: int| 0 <= j < i ==> (#[trigger] entries[j]).0@ != interface
}

impl OwnerResolver for StaticOwnerResolver {
    fn owner_file(&self, interface: &str) -> (r: Option<std::path::PathBuf>)
        ensures
            r is Some <==> exists|i: int| first_entry(self.entries@, interface@, i),
            forall|i: int| #[trigger]
                first_entry(self.entries@, interface@, i) ==> crate::paths::buf_joins(
                    self.src_root,
                    self.entries@[i].1,
                    r->0,
                ) && crate::paths::placed(
                    crate::paths::path_buf_bytes(self.src_root),
                    crate::paths::path_buf_components(self.src_root),
                    self.entries@[i].1@,
                    crate::paths::path_buf_components(r->0),
                ),
    {
        let mut k: usize = 0;
        while k < self.entries.len()
            invariant
                k <= self.entries@.len(),
                forall|j: int| 0 <= j < k ==> (#[trigger] self.entries@[j]).0@ != interface@,
            decreases self.entries@.len() - k,
        {
            if str_eq(self.entries[k].0, interface) {
                let path = joined_buf(&self.src_root, self.entries[k].1);
                proof {
                    assert(first_entry(self.entries@, interface@, k as int));
                    assert forall|i: int| first_entry(self.entries@, interface@, i) implies i
                        == k by {
                        if i < k {
                            assert(self.entries@[i].0@ != interface@);
                        } else if k < i {
                            assert(self.entries@[k as int].0@ != interface@);
                        }
                    }
                }
                return Some(path);
            }
            k += 1;
        }
        None
    }

    fn known_interfaces(&self) -> (r: Vec<String>)
        ensures
            crate::text::texts(r@) == interface_names(self.entries@),
    {
        let mut out: Vec<String> = Vec::new();
        let mut k: usize = 0;
        while k < self.entries.len()
            invariant
                k <= self.entries@.len(),
                out@.len() == k,
                forall|i: int|
                    0 <= i < k ==> (#[trigger] out@[i])@ == self.entries@[i].0@,
            decreases self.entries@.len() - k,
        {
            out.push(self.entries[k].0.to_owned());
            k += 1;
        }
        assert(crate::text::texts(out@) =~= interface_names(self.entries@));
        out
    }
}

/// The source tree of a shim, handed along when hashes and edges are wanted.
pub struct SourceMetadata<'a> {
    /// Root of the source tree.
    pub src_root: &'a std::path::Path,
    /// Directory of the helpers, which every implementation hash covers.
    pub helpers_root: &'a std::path::Path,
    /// Upstream release, written to the rows that are stamped.
    pub upstream_version: &'a str,
    /// Commit of the source tree, if known.
    pub upstream_commit: Option<&'a str>,
    /// Time of the upstream release, if known.
    pub released_at: Option<&'a str>,
    /// Finds owner files.
    pub owner_map: &'a dyn OwnerResolver,
    /// Leaves the walk through the sources out; edges then come from the
    /// catalog alone.
    pub skip_source_walk: bool,
}

/// The names of the interfaces in a table.
pub open spec fn interface_names(entries: Seq<(&'static str, &'static str)>) -> Seq<Seq<char>> {
    entries.map_values(|e: (&'static str, &'static str)| e.0@)
}

/// An interface has an owner exactly if it is one of the known ones, and only
/// one entry can answer for it.
pub proof fn known_interfaces_have_owners(
    entries: Seq<(&'static str, &'static str)>,
    interface: Seq<char>,
)
    ensures
        (exists|i: int| first_entry(entries, interface, i)) <==> interface_names(entries).contains(
            interface,
        ),
        forall|i: int, j: int| #[trigger]
            first_entry(entries, interface, i) && #[trigger] first_entry(entries, interface, j)
                ==> i == j,
{
    let names = interface_names(entries);
    if exists|i: int| first_entry(entries, interface, i) {
        let i = choose|i: int| first_entry(entries, interface, i);
        assert(names[i] == interface);
    }
    if names.contains(interface) {
        let k = choose|k: int| 0 <= k < names.len() && names[k] == interface;
        let i = lemma_first_entry(entries, interface, k);
        assert(first_entry(entries, interface, i));
    }
    assert forall|i: int, j: int| #[trigger]
        first_entry(entries, interface, i) && #[trigger] first_entry(
            entries,
            interface,
            j,
        ) implies i == j by {
        if i < j {
            assert(entries[i].0@ != interface);
        } else if j < i {
            assert(entries[j].0@ != interface);
        }
    }
}

/// Where an entry maps an interface, there is a first one that does.
proof fn lemma_first_entry(
    entries: Seq<(&'static str, &'static str)>,
    interface: Seq<char>,
    k: int,
) -> (i: int)
    requires
        0 <= k < entries.len(),
        entries[k].0@ == interface,
    ensures
        first_entry(entries, interface, i),
    decreases k,
{
    if first_entry(entries, interface, k) {
        k
    } else {
        let j = choose|j: int| 0 <= j < k && (#[trigger] entries[j]).0@ == interface;
        lemma_first_entry(entries, interface, j)
    }
}

/// Of the entries that map an interface, the one that no other comes before
/// answers for it, whatever stands behind it. Upper and lower case matter.
pub proof fn earlier_entries_answer(
    entries: Seq<(&'static str, &'static str)>,
    more: Seq<(&'static str, &'static str)>,
    interface: Seq<char>,
    i: int,
    j: int,
)
    requires
        0 <= i <= j < entries.len(),
        entries[i].0@ == interface,
    ensures
        i < j ==> !first_entry(entries, interface, j),
        first_entry(entries, interface, j) ==> i == j,
        first_entry(entries, interface, i) ==> first_entry(entries + more, interface, i),
        i == 0 ==> first_entry(entries, interface, i),
        forall|k: int| #[trigger]
            first_entry(entries, interface, k) ==> 0 <= k <= i && entries[k].0@ == interface,
{
    assert forall|k: int| 0 <= k < i implies (#[trigger] (entries + more)[k]) == entries[k] by {}
}

/// The known interfaces are those of the entries, one each and in order.
pub proof fn every_entry_is_known(entries: Seq<(&'static str, &'static str)>, i: int)
    ensures
        interface_names(entries).len() == entries.len(),
        0 <= i < entries.len() ==> interface_names(entries)[i] == entries[i].0@,
{
}

} // verus!
