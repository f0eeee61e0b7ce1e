//! Ordering: the lexicographic order of texts and byte strings, stable
//! sorting, and lists that stay ascending as entries arrive.
use vstd::prelude::*;

verus! {

// ---------------------------------------------------------------------------
// Lexicographic order
// ---------------------------------------------------------------------------

/// `a` comes no later than `b` in the lexicographic order that extends `le`:
/// the first place where they differ decides, and a prefix comes first.
pub open spec fn lex_le<A>(a: Seq<A>, b: Seq<A>, le: spec_fn(A, A) -> bool) -> bool
    decreases a.len(),
{
    if a.len() == 0 {
        true
    } else if b.len() == 0 {
        false
    } else if a[0] == b[0] {
        lex_le(a.drop_first(), b.drop_first(), le)
    } else {
        le(a[0], b[0])
    }
}

/// The lexicographic order over a total order is reflexive.
proof fn lemma_lex_reflexive<A>(a: Seq<A>, le: spec_fn(A, A) -> bool)
    ensures
        lex_le(a, a, le),
    decreases a.len(),
{
    if a.len() > 0 {
        lemma_lex_reflexive(a.drop_first(), le);
    }
}

proof fn lemma_lex_connected<A>(a: Seq<A>, b: Seq<A>, le: spec_fn(A, A) -> bool)
    requires
        vstd::relations::total_ordering(le),
    ensures
        lex_le(a, b, le) || lex_le(b, a, le),
    decreases a.len(),
{
    if a.len() > 0 && b.len() > 0 {
        lemma_lex_connected(a.drop_first(), b.drop_first(), le);
    }
}

proof fn lemma_lex_antisymmetric<A>(a: Seq<A>, b: Seq<A>, le: spec_fn(A, A) -> bool)
    requires
        vstd::relations::total_ordering(le),
        lex_le(a, b, le),
        lex_le(b, a, le),
    ensures
        a == b,
    decreases a.len(),
{
    if a.len() > 0 && b.len() > 0 {
        assert(a[0] == b[0]);
        lemma_lex_antisymmetric(a.drop_first(), b.drop_first(), le);
        assert(a =~= seq![a[0]] + a.drop_first());
        assert(b =~= seq![b[0]] + b.drop_first());
    } else {
        assert(a =~= b);
    }
}

proof fn lemma_lex_transitive<A>(a: Seq<A>, b: Seq<A>, c: Seq<A>, le: spec_fn(A, A) -> bool)
    requires
        vstd::relations::total_ordering(le),
        lex_le(a, b, le),
        lex_le(b, c, le),
    ensures
        lex_le(a, c, le),
    decreases a.len(),
{
    if a.len() > 0 {
        if a[0] == b[0] && b[0] == c[0] {
            lemma_lex_transitive(a.drop_first(), b.drop_first(), c.drop_first(), le);
        } else {
            assert(le(a[0], b[0]));
            assert(le(b[0], c[0]));
            assert(le(a[0], c[0]));
        }
    }
}

/// The lexicographic order over a total order is itself a total order.
pub proof fn lex_order_is_total<A>(le: spec_fn(A, A) -> bool)
    requires
        vstd::relations::total_ordering(le),
    ensures
        vstd::relations::total_ordering(|a: Seq<A>, b: Seq<A>| lex_le(a, b, le)),
{
    let order = |a: Seq<A>, b: Seq<A>| lex_le(a, b, le);
    assert forall|a: Seq<A>| #[trigger] order(a, a) by {
        lemma_lex_reflexive(a, le);
    }
    assert forall|a: Seq<A>, b: Seq<A>| #[trigger]
        order(a, b) && #[trigger] order(b, a) implies a == b by {
        lemma_lex_antisymmetric(a, b, le);
    }
    assert forall|a: Seq<A>, b: Seq<A>, c: Seq<A>| #[trigger]
        order(a, b) && #[trigger] order(b, c) implies order(a, c) by {
        lemma_lex_transitive(a, b, c, le);
    }
    assert forall|a: Seq<A>, b: Seq<A>| #[trigger] order(a, b) || #[trigger] order(b, a) by {
        lemma_lex_connected(a, b, le);
    }
}

/// The order of characters by code point.
pub open spec fn char_order() -> spec_fn(char, char) -> bool {
    |a: char, b: char| a <= b
}

/// The order of byte values.
pub open spec fn byte_order() -> spec_fn(u8, u8) -> bool {
    |a: u8, b: u8| a <= b
}

/// Text `a` comes no later than text `b`: lexicographic by code point.
pub open spec fn text_le(a: Seq<char>, b: Seq<char>) -> bool {
    lex_le(a, b, char_order())
}

/// Text `a` comes before text `b`.
pub open spec fn text_lt(a: Seq<char>, b: Seq<char>) -> bool {
    text_le(a, b) && a != b
}

/// The order of texts.
pub open spec fn text_order() -> spec_fn(Seq<char>, Seq<char>) -> bool {
    |a: Seq<char>, b: Seq<char>| text_le(a, b)
}

/// Byte string `a` comes no later than byte string `b`.
pub open spec fn bytes_le(a: Seq<u8>, b: Seq<u8>) -> bool {
    lex_le(a, b, byte_order())
}

/// The order of byte strings.
pub open spec fn bytes_order() -> spec_fn(Seq<u8>, Seq<u8>) -> bool {
    |a: Seq<u8>, b: Seq<u8>| bytes_le(a, b)
}

/// Texts are totally ordered.
pub proof fn text_order_is_total()
    ensures
        forall|a: Seq<char>| #[trigger] text_le(a, a),
        forall|a: Seq<char>, b: Seq<char>| #[trigger]
            text_le(a, b) && #[trigger] text_le(b, a) ==> a == b,
        forall|a: Seq<char>, b: Seq<char>, c: Seq<char>|
            #[trigger] text_le(a, b) && #[trigger] text_le(b, c) ==> text_le(a, c),
        forall|a: Seq<char>, b: Seq<char>| #[trigger] text_le(a, b) || text_le(b, a),
{
    let le = char_order();
    assert(vstd::relations::total_ordering(le));
    lex_order_is_total(le);
    let order = |a: Seq<char>, b: Seq<char>| lex_le(a, b, le);
    assert forall|a: Seq<char>| #[trigger] text_le(a, a) by {
        assert(order(a, a));
    }
    assert forall|a: Seq<char>, b: Seq<char>| #[trigger]
        text_le(a, b) && #[trigger] text_le(b, a) implies a == b by {
        assert(order(a, b) && order(b, a));
    }
    assert forall|a: Seq<char>, b: Seq<char>, c: Seq<char>| #[trigger]
        text_le(a, b) && #[trigger] text_le(b, c) implies text_le(a, c) by {
        assert(order(a, b) && order(b, c));
    }
    assert forall|a: Seq<char>, b: Seq<char>| #[trigger] text_le(a, b) || text_le(b, a) by {
        assert(order(a, b) || order(b, a));
    }
}

/// Byte strings are totally ordered.
pub proof fn bytes_order_is_total()
    ensures
        vstd::relations::total_ordering(bytes_order()),
{
    let le = byte_order();
    assert(vstd::relations::total_ordering(le));
    lex_order_is_total(le);
    assert(bytes_order() =~= (|a: Seq<u8>, b: Seq<u8>| lex_le(a, b, le)));
}

/// Whether text `a` comes no later than text `b`.
pub fn str_le(a: &str, b: &str) -> (r: bool)
    ensures
        r == text_le(a@, b@),
{
    let mut xs = a.chars();
    let mut ys = b.chars();
    let ghost mut done: int = 0;
    assert(a@.skip(0) =~= a@);
    assert(b@.skip(0) =~= b@);
    loop
        invariant
            0 <= done <= a@.len(),
            done <= b@.len(),
            vstd::std_specs::iter::IteratorSpec::remaining(&xs) == a@.skip(done),
            vstd::std_specs::iter::IteratorSpec::remaining(&ys) == b@.skip(done),
            text_le(a@, b@) == text_le(a@.skip(done), b@.skip(done)),
        decreases a@.len() - done,
    {
        match (xs.next(), ys.next()) {
            (None, _) => {
                return true;
            },
            (Some(_), None) => {
                return false;
            },
            (Some(x), Some(y)) => {
                assert(a@.skip(done)[0] == x && b@.skip(done)[0] == y);
                if x != y {
                    return x <= y;
                }
                proof {
                    assert(a@.skip(done).drop_first() =~= a@.skip(done + 1));
                    assert(b@.skip(done).drop_first() =~= b@.skip(done + 1));
                    done = done + 1;
                }
            },
        }
    }
}

/// Whether byte string `a` comes no later than byte string `b`.
pub fn byte_string_le(a: &[u8], b: &[u8]) -> (r: bool)
    ensures
        r == bytes_le(a@, b@),
{
    let mut i: usize = 0;
    assert(a@.skip(0) =~= a@);
    assert(b@.skip(0) =~= b@);
    while i < a.len()
        invariant
            i <= a@.len(),
            i <= b@.len(),
            bytes_le(a@, b@) == bytes_le(a@.skip(i as int), b@.skip(i as int)),
        decreases a@.len() - i,
    {
        if i >= b.len() {
            return false;
        }
        assert(a@.skip(i as int)[0] == a@[i as int]);
        assert(b@.skip(i as int)[0] == b@[i as int]);
        if a[i] != b[i] {
            return a[i] <= b[i];
        }
        assert(a@.skip(i as int).drop_first() =~= a@.skip(i + 1));
        assert(b@.skip(i as int).drop_first() =~= b@.skip(i + 1));
        i += 1;
    }
    true
}

// ---------------------------------------------------------------------------
// Sorting
// ---------------------------------------------------------------------------

/// A type whose values are ranked by a total preorder.
pub trait Ranked: Sized {
    /// `self` ranks no higher than `other`.
    spec fn rank_le(&self, other: &Self) -> bool;

    /// The ranking is total and transitive.
    proof fn ranking_is_total(a: Self, b: Self, c: Self)
        ensures
            a.rank_le(&b) || b.rank_le(&a),
            a.rank_le(&b) && b.rank_le(&c) ==> a.rank_le(&c),
    ;

    /// Whether `self` ranks no higher than `other`.
    fn ranks_le(&self, other: &Self) -> (r: bool)
        ensures
            r == self.rank_le(other),
    ;
}

/// The order in which the values of a ranked type stand.
pub open spec fn rank_order<T: Ranked>() -> spec_fn(T, T) -> bool {
    |a: T, b: T| a.rank_le(&b)
}

/// `le` is total and transitive.
pub open spec fn total_preorder<A>(le: spec_fn(A, A) -> bool) -> bool {
    &&& forall|a: A, b: A| #[trigger] le(a, b) || le(b, a)
    &&& forall|a: A, b: A, c: A| #[trigger] le(a, b) && #[trigger] le(b, c) ==> le(a, c)
}

/// `s` is in ascending order; entries of equal rank may repeat.
pub open spec fn sorted<A>(s: Seq<A>, le: spec_fn(A, A) -> bool) -> bool {
    forall|i: int, j: int| 0 <= i < j < s.len() ==> le(#[trigger] s[i], #[trigger] s[j])
}

/// `s` is in strictly ascending order: no rank occurs twice.
pub open spec fn ascending<A>(s: Seq<A>, le: spec_fn(A, A) -> bool) -> bool {
    forall|i: int, j: int|
        0 <= i < j < s.len() ==> le(#[trigger] s[i], #[trigger] s[j]) && !le(s[j], s[i])
}

/// `s` with `x` put behind every entry that ranks no higher than `x`.
pub open spec fn inserted<A>(s: Seq<A>, x: A, le: spec_fn(A, A) -> bool) -> Seq<A>
    decreases s.len(),
{
    if s.len() == 0 || le(s.last(), x) {
        s.push(x)
    } else {
        inserted(s.drop_last(), x, le).push(s.last())
    }
}

/// `s` in ascending order; entries of equal rank keep the order they had.
pub open spec fn stable_sorted<A>(s: Seq<A>, le: spec_fn(A, A) -> bool) -> Seq<A>
    decreases s.len(),
{
    if s.len() == 0 {
        s
    } else {
        inserted(stable_sorted(s.drop_last(), le), s.last(), le)
    }
}

/// The ranking of a ranked type is a total preorder.
proof fn lemma_rank_order<T: Ranked>()
    ensures
        total_preorder(rank_order::<T>()),
{
    let le = rank_order::<T>();
    assert forall|a: T, b: T| #[trigger] le(a, b) || le(b, a) by {
        T::ranking_is_total(a, b, b);
    }
    assert forall|a: T, b: T, c: T| #[trigger] le(a, b) && #[trigger] le(b, c) implies le(a, c) by {
        T::ranking_is_total(a, b, c);
    }
}

/// Inserting at the first place whose entry ranks higher is `inserted`.
proof fn lemma_inserted_at<A>(s: Seq<A>, x: A, p: int, le: spec_fn(A, A) -> bool)
    requires
        0 <= p <= s.len(),
        forall|i: int| 0 <= i < p ==> le(#[trigger] s[i], x),
        forall|i: int| p <= i < s.len() ==> !le(#[trigger] s[i], x),
    ensures
        inserted(s, x, le) == s.insert(p, x),
    decreases s.len(),
{
    if p < s.len() {
        lemma_inserted_at(s.drop_last(), x, p, le);
        assert(s.drop_last().insert(p, x).push(s.last()) =~= s.insert(p, x));
    } else {
        assert(s.push(x) =~= s.insert(p, x));
    }
}

/// Insertion keeps a list sorted and adds exactly the new entry.
proof fn lemma_inserted<A>(s: Seq<A>, x: A, le: spec_fn(A, A) -> bool)
    requires
        total_preorder(le),
        sorted(s, le),
    ensures
        sorted(inserted(s, x, le), le),
        inserted(s, x, le).to_multiset() == s.to_multiset().insert(x),
    decreases s.len(),
{
    broadcast use vstd::seq_lib::group_to_multiset_ensures;

    if s.len() == 0 || le(s.last(), x) {
        let r = s.push(x);
        assert forall|i: int, j: int| 0 <= i < j < r.len() implies le(
            #[trigger] r[i],
            #[trigger] r[j],
        ) by {
            if j == s.len() && i < s.len() - 1 {
                assert(le(s[i], s[s.len() - 1]));
            }
        }
    } else {
        let front = s.drop_last();
        lemma_inserted(front, x, le);
        let mid = inserted(front, x, le);
        let r = mid.push(s.last());
        assert(le(x, s.last()));
        assert forall|i: int| 0 <= i < mid.len() implies le(#[trigger] mid[i], s.last()) by {
            assert(mid.to_multiset().contains(mid[i])) by {
                assert(mid.contains(mid[i]));
            }
            if mid[i] != x {
                assert(front.to_multiset().contains(mid[i]));
                assert(front.contains(mid[i]));
                let k = choose|k: int| 0 <= k < front.len() && front[k] == mid[i];
                assert(le(s[k], s[s.len() - 1]));
            }
        }
        assert forall|i: int, j: int| 0 <= i < j < r.len() implies le(
            #[trigger] r[i],
            #[trigger] r[j],
        ) by {
            if j < mid.len() {
                assert(le(mid[i], mid[j]));
            }
        }
        assert(s =~= front.push(s.last()));
        assert(r.to_multiset() =~= s.to_multiset().insert(x));
    }
}

/// Sorting yields a sorted list with exactly the entries it was given.
pub proof fn stable_sorted_is_a_sort<A>(s: Seq<A>, le: spec_fn(A, A) -> bool)
    requires
        total_preorder(le),
    ensures
        sorted(stable_sorted(s, le), le),
        stable_sorted(s, le).to_multiset() == s.to_multiset(),
        stable_sorted(s, le).len() == s.len(),
    decreases s.len(),
{
    broadcast use vstd::seq_lib::group_to_multiset_ensures;

    if s.len() > 0 {
        stable_sorted_is_a_sort(s.drop_last(), le);
        lemma_inserted(stable_sorted(s.drop_last(), le), s.last(), le);
        assert(s =~= s.drop_last().push(s.last()));
    }
    assert(stable_sorted(s, le).len() == stable_sorted(s, le).to_multiset().len());
    assert(s.len() == s.to_multiset().len());
}

/// Sorting leaves a sorted list as it is.
pub proof fn sorted_list_is_kept<A>(s: Seq<A>, le: spec_fn(A, A) -> bool)
    requires
        sorted(s, le),
    ensures
        stable_sorted(s, le) == s,
    decreases s.len(),
{
    if s.len() > 0 {
        sorted_list_is_kept(s.drop_last(), le);
        assert(s =~= s.drop_last().push(s.last()));
        if s.len() > 1 {
            assert(le(s[s.len() - 2], s[s.len() - 1]));
        }
    }
}

/// Insertion commutes with a map that keeps the order.
proof fn lemma_inserted_map<A, B>(
    s: Seq<A>,
    x: A,
    le: spec_fn(A, A) -> bool,
    f: spec_fn(A) -> B,
    le_image: spec_fn(B, B) -> bool,
)
    requires
        forall|a: A, b: A| #[trigger] le(a, b) == le_image(f(a), f(b)),
    ensures
        inserted(s, x, le).map_values(f) == inserted(s.map_values(f), f(x), le_image),
    decreases s.len(),
{
    let image = s.map_values(f);
    if s.len() == 0 || le(s.last(), x) {
        assert(s.push(x).map_values(f) =~= image.push(f(x)));
        assert(s.len() > 0 ==> le_image(image.last(), f(x)));
    } else {
        lemma_inserted_map(s.drop_last(), x, le, f, le_image);
        assert(s.drop_last().map_values(f) =~= image.drop_last());
        assert(!le_image(image.last(), f(x)));
        assert(inserted(s.drop_last(), x, le).push(s.last()).map_values(f) =~= inserted(
            s.drop_last(),
            x,
            le,
        ).map_values(f).push(f(s.last())));
    }
}

/// Sorting commutes with a map that keeps the order.
pub proof fn sorting_commutes_with_map<A, B>(
    s: Seq<A>,
    le: spec_fn(A, A) -> bool,
    f: spec_fn(A) -> B,
    le_image: spec_fn(B, B) -> bool,
)
    requires
        forall|a: A, b: A| #[trigger] le(a, b) == le_image(f(a), f(b)),
    ensures
        stable_sorted(s, le).map_values(f) == stable_sorted(s.map_values(f), le_image),
    decreases s.len(),
{
    if s.len() > 0 {
        sorting_commutes_with_map(s.drop_last(), le, f, le_image);
        assert(s.map_values(f).drop_last() =~= s.drop_last().map_values(f));
        lemma_inserted_map(stable_sorted(s.drop_last(), le), s.last(), le, f, le_image);
    } else {
        assert(s.map_values(f) =~= Seq::<B>::empty());
        assert(stable_sorted(s.map_values(f), le_image) =~= Seq::<B>::empty());
    }
}

/// Sorts a list into ascending order, keeping the order of entries of equal
/// rank.
pub fn stable_sort<T: Ranked>(list: Vec<T>) -> (r: Vec<T>)
    ensures
        r@ == stable_sorted(list@, rank_order::<T>()),
{
    let mut out: Vec<T> = Vec::new();
    for x in it: list
        invariant
            it.seq() == list@,
            out@ == stable_sorted(list@.take(it.index() as int), rank_order::<T>()),
    {
        let ghost before = list@.take(it.index() as int);
        let ghost with_x = list@.take(it.index() + 1);
        assert(with_x.drop_last() =~= before);
        assert(with_x.last() == x);
        proof {
            lemma_rank_order::<T>();
            stable_sorted_is_a_sort(before, rank_order::<T>());
        }
        let mut lo: usize = 0;
        let mut hi: usize = out.len();
        while lo < hi
            invariant
                lo <= hi <= out@.len(),
                sorted(out@, rank_order::<T>()),
                forall|i: int| 0 <= i < lo ==> (#[trigger] out@[i]).rank_le(&x),
                forall|i: int| hi <= i < out@.len() ==> !(#[trigger] out@[i]).rank_le(&x),
            decreases hi - lo,
        {
            let mid: usize = lo + (hi - lo) / 2;
            if out[mid].ranks_le(&x) {
                assert forall|i: int| 0 <= i < mid + 1 implies (#[trigger] out@[i]).rank_le(&x) by {
                    if i < mid {
                        T::ranking_is_total(out@[i], out@[mid as int], x);
                    }
                }
                lo = mid + 1;
            } else {
                assert forall|i: int| mid <= i < out@.len() implies !(#[trigger] out@[i]).rank_le(
                    &x,
                ) by {
                    if mid < i && out@[i].rank_le(&x) {
                        T::ranking_is_total(out@[mid as int], out@[i], x);
                    }
                }
                hi = mid;
            }
        }
        proof {
            lemma_inserted_at(out@, x, lo as int, rank_order::<T>());
        }
        out.insert(lo, x);
    }
    assert(list@.take(list@.len() as int) =~= list@);
    out
}

// ---------------------------------------------------------------------------
// Ascending lists
// ---------------------------------------------------------------------------

/// `a` and `b` have the same rank.
pub open spec fn same_rank<T: Ranked>(a: T, b: T) -> bool {
    a.rank_le(&b) && b.rank_le(&a)
}

/// `s[i]` is the last entry of `s` with its rank.
pub open spec fn is_latest<T: Ranked>(s: Seq<T>, i: int) -> bool {
    &&& 0 <= i < s.len()
    &&& forall|j: int| i < j < s.len() ==> !same_rank(#[trigger] s[j], s[i])
}

/// `index` lists, in strictly ascending order, the last entry of `s` of each
/// rank.
pub open spec fn indexes<T: Ranked>(index: Seq<T>, s: Seq<T>) -> bool {
    &&& ascending(index, rank_order::<T>())
    &&& forall|k: int| 0 <= k < index.len() ==> exists|i: int|
        is_latest(s, i) && s[i] == #[trigger] index[k]
    &&& forall|i: int| #[trigger] is_latest(s, i) ==> index.contains(s[i])
}

/// What a list holds after its entries of the rank of `x` gave way to `x`.
proof fn lemma_kept<T: Ranked>(before: Seq<T>, after: Seq<T>, x: T, p: int, q: int)
    requires
        0 <= p <= q <= before.len(),
        after == before.take(p).push(x) + before.skip(q),
        forall|i: int| 0 <= i < p ==> !same_rank(#[trigger] before[i], x),
        forall|i: int| p <= i < q ==> same_rank(#[trigger] before[i], x),
        forall|i: int| q <= i < before.len() ==> !same_rank(#[trigger] before[i], x),
    ensures
        after.contains(x),
        forall|y: T|
            y != x ==> (#[trigger] after.contains(y) <==> before.contains(y) && !same_rank(y, x)),
{
    assert(after[p] == x);
    assert forall|y: T| y != x implies (#[trigger] after.contains(y) <==> before.contains(y)
        && !same_rank(y, x)) by {
        if after.contains(y) {
            let k = choose|k: int| 0 <= k < after.len() && after[k] == y;
            let b = if k < p {
                k
            } else {
                k - 1 - p + q
            };
            assert(before[b] == y);
        }
        if before.contains(y) && !same_rank(y, x) {
            let b = choose|b: int| 0 <= b < before.len() && before[b] == y;
            let k = if b < p {
                b
            } else {
                b + 1 + p - q
            };
            assert(after[k] == y);
        }
    }
}

/// Puts `x` in its place in an ascending list; an entry of the same rank gives
/// way to it.
pub fn upsert<T: Ranked>(list: &mut Vec<T>, x: T)
    requires
        ascending(old(list)@, rank_order::<T>()),
    ensures
        ascending(final(list)@, rank_order::<T>()),
        final(list)@.contains(x),
        forall|y: T|
            y != x ==> (#[trigger] final(list)@.contains(y) <==> old(list)@.contains(y)
                && !same_rank(y, x)),
{
    let ghost before = list@;
    let mut lo: usize = 0;
    let mut hi: usize = list.len();
    while lo < hi
        invariant
            list@ == before,
            lo <= hi <= list@.len(),
            ascending(list@, rank_order::<T>()),
            forall|i: int| 0 <= i < lo ==> !x.rank_le(#[trigger] &list@[i]),
            forall|i: int| hi <= i < list@.len() ==> x.rank_le(#[trigger] &list@[i]),
        decreases hi - lo,
    {
        let mid: usize = lo + (hi - lo) / 2;
        if x.ranks_le(&list[mid]) {
            assert forall|i: int| mid <= i < list@.len() implies x.rank_le(#[trigger] &list@[i]) by {
                if mid < i {
                    T::ranking_is_total(x, list@[mid as int], list@[i]);
                }
            }
            hi = mid;
        } else {
            assert forall|i: int| 0 <= i < mid + 1 implies !x.rank_le(#[trigger] &list@[i]) by {
                if i < mid && x.rank_le(&list@[i]) {
                    T::ranking_is_total(x, list@[i], list@[mid as int]);
                }
            }
            lo = mid + 1;
        }
    }
    let ghost p = lo as int;
    proof {
        assert forall|i: int| 0 <= i < p implies (#[trigger] before[i]).rank_le(&x) by {
            T::ranking_is_total(before[i], x, x);
        }
        T::ranking_is_total(x, x, x);
    }
    if lo < list.len() && list[lo].ranks_le(&x) {
        list.set(lo, x);
        let ghost after = list@;
        proof {
            assert(after =~= before.update(p, x));
            assert forall|i: int, j: int| 0 <= i < j < after.len() implies (
            #[trigger] after[i]).rank_le(#[trigger] &after[j]) && !after[j].rank_le(&after[i]) by {
                assert(before[i].rank_le(&before[j]) && !before[j].rank_le(&before[i]));
                if i == p {
                    T::ranking_is_total(before[j], x, before[p]);
                } else if j == p {
                }
            }
            assert forall|i: int| p + 1 <= i < before.len() implies !same_rank(
                #[trigger] before[i],
                x,
            ) by {
                assert(after[p].rank_le(&after[i]) && !after[i].rank_le(&after[p]));
            }
            assert(after =~= before.take(p).push(x) + before.skip(p + 1));
            lemma_kept(before, after, x, p, p + 1);
        }
    } else {
        list.insert(lo, x);
        let ghost after = list@;
        proof {
            assert(after =~= before.insert(p, x));
            assert forall|i: int, j: int| 0 <= i < j < after.len() implies (
            #[trigger] after[i]).rank_le(#[trigger] &after[j]) && !after[j].rank_le(&after[i]) by {
                let bi = if i < p { i } else { i - 1 };
                let bj = if j < p { j } else { j - 1 };
                if i == p {
                    if bj > p {
                        assert(before[p].rank_le(&before[bj]) && !before[bj].rank_le(&before[p]));
                        T::ranking_is_total(before[p], before[bj], x);
                    }
                } else if j == p {
                } else {
                    assert(before[bi].rank_le(&before[bj]) && !before[bj].rank_le(&before[bi]));
                }
            }
            assert forall|i: int| p <= i < before.len() implies !same_rank(
                #[trigger] before[i],
                x,
            ) by {
                if i > p {
                    assert(before[p].rank_le(&before[i]));
                    T::ranking_is_total(before[p], before[i], x);
                }
            }
            assert(after =~= before.take(p).push(x) + before.skip(p));
            lemma_kept(before, after, x, p, p);
        }
    }
}

/// The last entry of each rank of `list`, in strictly ascending order.
pub fn index_of<T: Ranked>(list: Vec<T>) -> (r: Vec<T>)
    ensures
        indexes(r@, list@),
{
    let mut out: Vec<T> = Vec::new();
    for x in it: list
        invariant
            it.seq() == list@,
            indexes(out@, list@.take(it.index() as int)),
    {
        let ghost s = list@.take(it.index() as int);
        let ghost t = list@.take(it.index() + 1);
        let ghost before = out@;
        upsert(&mut out, x);
        proof {
            assert(t =~= s.push(x));
            assert(is_latest(t, s.len() as int));
            assert forall|k: int| 0 <= k < out@.len() implies exists|i: int|
                is_latest(t, i) && t[i] == #[trigger] out@[k] by {
                if out@[k] == x {
                    assert(is_latest(t, s.len() as int) && t[s.len() as int] == out@[k]);
                } else {
                    assert(out@.contains(out@[k]));
                    assert(before.contains(out@[k]));
                    let b = choose|b: int| 0 <= b < before.len() && before[b] == out@[k];
                    let i = choose|i: int| is_latest(s, i) && s[i] == before[b];
                    assert forall|j: int| i < j < t.len() implies !same_rank(#[trigger] t[j], t[i]) by {
                        if j < s.len() {
                            assert(!same_rank(s[j], s[i]));
                        }
                    }
                    assert(is_latest(t, i) && t[i] == out@[k]);
                }
            }
            assert forall|i: int| #[trigger] is_latest(t, i) implies out@.contains(t[i]) by {
                if i < s.len() {
                    assert(!same_rank(t[s.len() as int], t[i]));
                    assert forall|j: int| i < j < s.len() implies !same_rank(#[trigger] s[j], s[i]) by {
                        assert(!same_rank(t[j], t[i]));
                    }
                    assert(is_latest(s, i));
                    assert(before.contains(t[i]));
                }
            }
        }
    }
    assert(list@.take(list@.len() as int) =~= list@);
    out
}

/// A strictly ascending list without its last entry is strictly ascending and
/// holds the other entries.
proof fn lemma_without_last<A>(list: Seq<A>, le: spec_fn(A, A) -> bool)
    requires
        total_preorder(le),
        ascending(list, le),
        list.len() > 0,
    ensures
        ascending(list.drop_last(), le),
        forall|a: A| #[trigger]
            list.drop_last().contains(a) <==> list.contains(a) && a != list.last(),
{
    let front = list.drop_last();
    assert forall|i: int, j: int| 0 <= i < j < front.len() implies le(
        #[trigger] front[i],
        #[trigger] front[j],
    ) && !le(front[j], front[i]) by {
        assert(le(list[i], list[j]) && !le(list[j], list[i]));
    }
    assert forall|a: A| #[trigger] front.contains(a) <==> list.contains(a) && a != list.last() by {
        if front.contains(a) {
            let i = choose|i: int| 0 <= i < front.len() && front[i] == a;
            assert(list[i] == a);
            assert(le(list[i], list[list.len() - 1]) && !le(list[list.len() - 1], list[i]));
        }
        if list.contains(a) && a != list.last() {
            let i = choose|i: int| 0 <= i < list.len() && list[i] == a;
            assert(front[i] == a);
        }
    }
}

/// Two strictly ascending lists of the same entries are the same list.
pub proof fn ascending_lists_are_unique<A>(x: Seq<A>, y: Seq<A>, le: spec_fn(A, A) -> bool)
    requires
        total_preorder(le),
        ascending(x, le),
        ascending(y, le),
        forall|a: A|
            #![trigger x.contains(a)]
            #![trigger y.contains(a)]
            x.contains(a) <==> y.contains(a),
    ensures
        x == y,
    decreases x.len(),
{
    if x.len() > 0 {
        assert(x.contains(x[x.len() - 1]));
        assert(y.contains(x.last()));
        assert(y.len() > 0);
        assert(y.contains(y[y.len() - 1]));
        let i = choose|i: int| 0 <= i < x.len() && x[i] == y.last();
        let j = choose|j: int| 0 <= j < y.len() && y[j] == x.last();
        if x.last() != y.last() {
            assert(le(x[i], x[x.len() - 1]) && !le(x[x.len() - 1], x[i]));
            assert(le(y[j], y[y.len() - 1]) && !le(y[y.len() - 1], y[j]));
        }
        lemma_without_last(x, le);
        lemma_without_last(y, le);
        ascending_lists_are_unique(x.drop_last(), y.drop_last(), le);
        assert(x =~= x.drop_last().push(x.last()));
        assert(y =~= y.drop_last().push(y.last()));
    } else {
        if y.len() > 0 {
            assert(y.contains(y[0]));
        }
        assert(x =~= y);
    }
}

/// Each entry's rank has a last entry.
proof fn lemma_latest_exists<T: Ranked>(s: Seq<T>, i: int) -> (j: int)
    requires
        0 <= i < s.len(),
    ensures
        is_latest(s, j),
        same_rank(s[j], s[i]),
    decreases s.len() - i,
{
    T::ranking_is_total(s[i], s[i], s[i]);
    if is_latest(s, i) {
        i
    } else {
        let k = choose|k: int| i < k < s.len() && same_rank(#[trigger] s[k], s[i]);
        let j = lemma_latest_exists(s, k);
        T::ranking_is_total(s[j], s[k], s[i]);
        T::ranking_is_total(s[i], s[k], s[j]);
        j
    }
}

/// The strings of `list`, each text once, in ascending order.
pub fn distinct_texts(list: Vec<String>) -> (r: Vec<String>)
    ensures
        ascending(crate::text::texts(r@), text_order()),
        forall|t: Seq<char>| #[trigger]
            crate::text::texts(r@).contains(t) <==> crate::text::texts(list@).contains(t),
{
    let ghost all = list@;
    let index = index_of(list);
    proof {
        text_order_is_total();
        let le = rank_order::<String>();
        let shown = crate::text::texts(index@);
        assert forall|i: int, j: int| 0 <= i < j < shown.len() implies text_order()(
            #[trigger] shown[i],
            #[trigger] shown[j],
        ) && !text_order()(shown[j], shown[i]) by {
            assert(le(index@[i], index@[j]) && !le(index@[j], index@[i]));
        }
        assert forall|t: Seq<char>| #[trigger]
            shown.contains(t) <==> crate::text::texts(all).contains(t) by {
            if shown.contains(t) {
                let k = choose|k: int| 0 <= k < shown.len() && shown[k] == t;
                let i = choose|i: int| is_latest(all, i) && all[i] == index@[k];
                assert(crate::text::texts(all)[i] == t);
            }
            if crate::text::texts(all).contains(t) {
                let i = choose|i: int|
                    0 <= i < crate::text::texts(all).len() && crate::text::texts(all)[i] == t;
                let j = lemma_latest_exists(all, i);
                assert(all[j]@ == t);
                assert(index@.contains(all[j]));
                let k = choose|k: int| 0 <= k < index@.len() && index@[k] == all[j];
                assert(shown[k] == t);
            }
        }
    }
    index
}

/// A common prefix does not change the order of texts.
pub proof fn common_prefix_keeps_order(prefix: Seq<char>, a: Seq<char>, b: Seq<char>)
    ensures
        text_le(prefix + a, prefix + b) == text_le(a, b),
    decreases prefix.len(),
{
    if prefix.len() == 0 {
        assert(prefix + a =~= a);
        assert(prefix + b =~= b);
    } else {
        let rest = prefix.drop_first();
        common_prefix_keeps_order(rest, a, b);
        assert((prefix + a).drop_first() =~= rest + a);
        assert((prefix + b).drop_first() =~= rest + b);
    }
}

impl Ranked for String {
    /// Strings rank by their text.
    open spec fn rank_le(&self, other: &Self) -> bool {
        text_le(self@, other@)
    }

    proof fn ranking_is_total(a: Self, b: Self, c: Self) {
        text_order_is_total();
    }

    fn ranks_le(&self, other: &Self) -> (r: bool) {
        str_le(self.as_str(), other.as_str())
    }
}

impl<'a, T: Ranked> Ranked for &'a T {
    /// A borrowed entry ranks as the entry.
    open spec fn rank_le(&self, other: &Self) -> bool {
        (**self).rank_le(*other)
    }

    proof fn ranking_is_total(a: Self, b: Self, c: Self) {
        T::ranking_is_total(*a, *b, *c);
    }

    fn ranks_le(&self, other: &Self) -> (r: bool) {
        (**self).ranks_le(*other)
    }
}

proof fn lemma_filter_push<A>(s: Seq<A>, x: A, keep: spec_fn(A) -> bool)
    ensures
        s.push(x).filter(keep) == if keep(x) {
            s.filter(keep).push(x)
        } else {
            s.filter(keep)
        },
{
    reveal(Seq::filter);
    assert(s.push(x).drop_last() =~= s);
}

proof fn lemma_inserted_behind<A>(
    s: Seq<A>,
    x: A,
    le: spec_fn(A, A) -> bool,
    keep: spec_fn(A) -> bool,
)
    requires
        forall|a: A, b: A| #[trigger] keep(a) && #[trigger] keep(b) ==> le(a, b),
    ensures
        inserted(s, x, le).filter(keep) == s.push(x).filter(keep),
    decreases s.len(),
{
    if s.len() > 0 && !le(s.last(), x) {
        let front = s.drop_last();
        lemma_inserted_behind(front, x, le, keep);
        lemma_filter_push(inserted(front, x, le), s.last(), keep);
        lemma_filter_push(front, x, keep);
        lemma_filter_push(front, s.last(), keep);
        lemma_filter_push(s, x, keep);
        assert(front.push(s.last()) =~= s);
    }
}

/// Sorting is stable: entries that rank alike keep the order that they had.
pub proof fn equal_ranks_keep_their_order<A>(
    s: Seq<A>,
    le: spec_fn(A, A) -> bool,
    alike: spec_fn(A) -> bool,
)
    requires
        forall|a: A, b: A| #[trigger] alike(a) && #[trigger] alike(b) ==> le(a, b),
    ensures
        stable_sorted(s, le).filter(alike) == s.filter(alike),
    decreases s.len(),
{
    if s.len() > 0 {
        let front = s.drop_last();
        equal_ranks_keep_their_order(front, le, alike);
        lemma_inserted_behind(stable_sorted(front, le), s.last(), le, alike);
        lemma_filter_push(stable_sorted(front, le), s.last(), alike);
        lemma_filter_push(front, s.last(), alike);
        assert(front.push(s.last()) =~= s);
    }
}

/// The first place where two lists differ decides: `a` comes no later than `b`
/// exactly if it is `b`, or begins `b`, or has the smaller entry there.
pub proof fn first_difference_decides<A>(
    a: Seq<A>,
    b: Seq<A>,
    le: spec_fn(A, A) -> bool,
    k: int,
)
    requires
        0 <= k <= a.len(),
        k <= b.len(),
        a.take(k) == b.take(k),
        k < a.len() && k < b.len() ==> a[k] != b[k],
    ensures
        lex_le(a, b, le) <==> k == a.len() || (k < b.len() && le(a[k], b[k])),
    decreases k,
{
    if k > 0 {
        assert(a[0] == a.take(k)[0] && b[0] == b.take(k)[0]);
        if k < a.len() && k < b.len() {
            assert(a.drop_first()[k - 1] == a[k] && b.drop_first()[k - 1] == b[k]);
        }
        assert(a.drop_first().take(k - 1) =~= a.take(k).drop_first());
        assert(b.drop_first().take(k - 1) =~= b.take(k).drop_first());
        first_difference_decides(a.drop_first(), b.drop_first(), le, k - 1);
    }
}

/// Texts are ordered by the code points of their characters, and byte strings by
/// their bytes: the smaller one at the first difference comes first, and a
/// beginning comes before what it begins.
pub proof fn texts_and_bytes_are_ordered(
    a: Seq<char>,
    b: Seq<char>,
    x: Seq<u8>,
    y: Seq<u8>,
    k: int,
)
    ensures
        0 <= k < a.len() && k < b.len() && a.take(k) == b.take(k) && a[k] < b[k]
            ==> text_lt(a, b) && !text_le(b, a),
        k == a.len() && k < b.len() && a == b.take(k) ==> text_lt(a, b) && !text_le(b, a),
        0 <= k < x.len() && k < y.len() && x.take(k) == y.take(k) && x[k] < y[k] ==> bytes_le(x, y)
            && !bytes_le(y, x),
        k == x.len() && k < y.len() && x == y.take(k) ==> bytes_le(x, y) && !bytes_le(y, x),
        text_le(a, a),
        bytes_le(x, x),
{
    lemma_lex_reflexive(a, char_order());
    lemma_lex_reflexive(x, byte_order());
    if 0 <= k < a.len() && k < b.len() && a.take(k) == b.take(k) && a[k] != b[k] {
        first_difference_decides(a, b, char_order(), k);
        first_difference_decides(b, a, char_order(), k);
    }
    if k == a.len() && k < b.len() && a == b.take(k) {
        assert(a.take(k) =~= a);
        first_difference_decides(a, b, char_order(), k);
        first_difference_decides(b, a, char_order(), k);
    }
    if 0 <= k < x.len() && k < y.len() && x.take(k) == y.take(k) && x[k] != y[k] {
        first_difference_decides(x, y, byte_order(), k);
        first_difference_decides(y, x, byte_order(), k);
    }
    if k == x.len() && k < y.len() && x == y.take(k) {
        assert(x.take(k) =~= x);
        first_difference_decides(x, y, byte_order(), k);
        first_difference_decides(y, x, byte_order(), k);
    }
}

} // verus!
