//! Comparing two catalogs, family by family, and rating the difference.
use vstd::prelude::*;

use crate::catalog::{Entity, Family, FamilyRows};
use crate::order::{index_of, str_le};
use crate::text::{option_clone, option_eq};

verus! {

// ---------------------------------------------------------------------------
// What a comparison says
// ---------------------------------------------------------------------------

/// The last row with key `pk`, if there is one.
pub open spec fn row_for(
    rows: Seq<crate::catalog::EntityModel>,
    pk: Seq<char>,
) -> Option<crate::catalog::EntityModel>
    decreases rows.len(),
{
    if rows.len() == 0 {
        None
    } else if rows.last().pk == pk {
        Some(rows.last())
    } else {
        row_for(rows.drop_last(), pk)
    }
}

/// What became of a key between two sides.
pub enum Change {
    /// Neither side has the key.
    Absent,
    /// Only the later side has it.
    Added,
    /// Only the earlier side has it.
    Removed,
    /// Both sides have it, with different signature hashes.
    Changed,
    /// Both sides have it, and no difference was seen.
    Same,
}

/// What became of `pk`. Hashes count only where both rows carry one and the
/// hash comparison is not skipped.
pub open spec fn change_of(
    before: Seq<crate::catalog::EntityModel>,
    after: Seq<crate::catalog::EntityModel>,
    skipped: bool,
    pk: Seq<char>,
) -> Change {
    match (row_for(before, pk), row_for(after, pk)) {
        (None, None) => Change::Absent,
        (None, Some(_)) => Change::Added,
        (Some(_), None) => Change::Removed,
        (Some(b), Some(a)) => if !skipped && b.signature_hash is Some && a.signature_hash is Some
            && b.signature_hash != a.signature_hash {
            Change::Changed
        } else {
            Change::Same
        },
    }
}

/// The keys of which one thing became.
pub open spec fn keys_with(
    before: Seq<crate::catalog::EntityModel>,
    after: Seq<crate::catalog::EntityModel>,
    skipped: bool,
    change: Change,
) -> Set<Seq<char>> {
    Set::new(|pk: Seq<char>| change_of(before, after, skipped, pk) == change)
}

/// `list` holds exactly the keys in `keys`, in strictly ascending order.
pub open spec fn lists_keys(list: Seq<Seq<char>>, keys: Set<Seq<char>>) -> bool {
    &&& crate::order::ascending(list, crate::order::text_order())
    &&& forall|pk: Seq<char>| #[trigger] list.contains(pk) <==> keys.contains(pk)
}

// ---------------------------------------------------------------------------
// Results
// ---------------------------------------------------------------------------

/// An entity as a report names it.
#[derive(Clone, Debug)]
pub struct EntityRef {
    pub pk: String,
    pub display: String,
}

impl EntityRef {
    /// Names an entity.
    pub fn from(e: &Entity) -> (r: EntityRef)
        ensures
            r.pk@ == e.pk@,
            r.display@ == e.display@,
    {
        EntityRef { pk: e.pk.clone(), display: e.display.clone() }
    }
}

/// An entity whose signature hash differs between the two sides.
#[derive(Clone, Debug)]
pub struct SignatureChange {
    pub pk: String,
    pub display: String,
    pub before_hash: Option<String>,
    pub after_hash: Option<String>,
}

/// The difference between the two sides in one family.
#[derive(Clone, Debug)]
pub struct FamilyDelta {
    pub family: &'static str,
    pub added: Vec<EntityRef>,
    pub removed: Vec<EntityRef>,
    pub signature_changed: Vec<SignatureChange>,
    pub unchanged: usize,
    /// True when either side lacked signature hashes, so that "unchanged" was
    /// decided by name only.
    pub hash_compare_skipped: bool,
    /// True when both sides took part in the comparison.
    pub compared: bool,
    /// Why the hash comparison was skipped, for the family or for some of its
    /// rows, if it was.
    pub skip_reason: Option<String>,
}

/// The keys of a list of entities.
pub open spec fn ref_keys(list: Seq<EntityRef>) -> Seq<Seq<char>> {
    list.map_values(|r: EntityRef| r.pk@)
}

/// The keys of a list of signature changes.
pub open spec fn change_keys(list: Seq<SignatureChange>) -> Seq<Seq<char>> {
    list.map_values(|c: SignatureChange| c.pk@)
}

/// Each entity of `list` is shown as the last row with its key in `rows` is.
pub open spec fn shown_as(
    list: Seq<EntityRef>,
    rows: Seq<crate::catalog::EntityModel>,
) -> bool {
    forall|i: int| #![trigger list[i]]
        0 <= i < list.len() ==> row_for(rows, list[i].pk@) is Some && list[i].display@ == row_for(
            rows,
            list[i].pk@,
        )->0.display
}

/// Both sides have `pk`, and a hash is missing on at least one of them, so that
/// only the name was compared.
pub open spec fn name_only(
    before: Seq<crate::catalog::EntityModel>,
    after: Seq<crate::catalog::EntityModel>,
    pk: Seq<char>,
) -> bool {
    match (row_for(before, pk), row_for(after, pk)) {
        (Some(b), Some(a)) => b.signature_hash is None || a.signature_hash is None,
        _ => false,
    }
}

/// Of some key that both sides have only the name was compared.
pub open spec fn partly_by_name(
    before: Seq<crate::catalog::EntityModel>,
    after: Seq<crate::catalog::EntityModel>,
) -> bool {
    exists|pk: Seq<char>| #[trigger] name_only(before, after, pk)
}

/// Why a hash comparison is skipped: for the whole family, where a side has no
/// hashes, or else for some of its rows.
pub open spec fn skip_reason_text(before: bool, after: bool, partial: bool) -> Option<Seq<char>> {
    if before && after {
        Some("signature_hash unavailable on both sides"@)
    } else if before {
        Some("signature_hash unavailable on before"@)
    } else if after {
        Some("signature_hash unavailable on after"@)
    } else if partial {
        Some("signature_hash missing on some rows, which were compared by name only"@)
    } else {
        None
    }
}

/// `d` is the difference between `before` and `after` in family `fam`.
pub open spec fn is_delta(
    d: FamilyDelta,
    fam: Family,
    before: FamilyRows,
    after: FamilyRows,
) -> bool {
    let b = before.models();
    let a = after.models();
    let skipped = before.signatures_unavailable || after.signatures_unavailable;
    &&& d.family@ == fam.slug_text()
    &&& d.hash_compare_skipped == skipped
    &&& d.compared
    &&& crate::text::text_option(d.skip_reason) == skip_reason_text(
        before.signatures_unavailable,
        after.signatures_unavailable,
        partly_by_name(b, a),
    )
    &&& lists_keys(ref_keys(d.added@), keys_with(b, a, skipped, Change::Added))
    &&& shown_as(d.added@, a)
    &&& lists_keys(ref_keys(d.removed@), keys_with(b, a, skipped, Change::Removed))
    &&& shown_as(d.removed@, b)
    &&& lists_keys(change_keys(d.signature_changed@), keys_with(b, a, skipped, Change::Changed))
    &&& forall|i: int| #![trigger d.signature_changed@[i]]
        0 <= i < d.signature_changed@.len() ==> {
            let c = d.signature_changed@[i];
            &&& c.display@ == row_for(a, c.pk@)->0.display
            &&& crate::text::text_option(c.before_hash) == row_for(b, c.pk@)->0.signature_hash
            &&& crate::text::text_option(c.after_hash) == row_for(a, c.pk@)->0.signature_hash
        }
    &&& keys_with(b, a, skipped, Change::Same).finite()
    &&& d.unchanged == keys_with(b, a, skipped, Change::Same).len()
}

// ---------------------------------------------------------------------------
// Looking rows up by key
// ---------------------------------------------------------------------------

/// What `row_for` finds.
proof fn lemma_row_for(rows: Seq<crate::catalog::EntityModel>, pk: Seq<char>)
    ensures
        match row_for(rows, pk) {
            None => forall|i: int| 0 <= i < rows.len() ==> (#[trigger] rows[i]).pk != pk,
            Some(m) => m.pk == pk && exists|i: int|
                0 <= i < rows.len() && #[trigger] rows[i] == m && forall|j: int|
                    i < j < rows.len() ==> (#[trigger] rows[j]).pk != pk,
        },
    decreases rows.len(),
{
    if rows.len() > 0 {
        if rows.last().pk == pk {
            assert(rows[rows.len() - 1] == rows.last());
        } else {
            lemma_row_for(rows.drop_last(), pk);
            match row_for(rows, pk) {
                None => {
                    assert forall|i: int| 0 <= i < rows.len() implies (#[trigger] rows[i]).pk
                        != pk by {
                        if i < rows.len() - 1 {
                            assert(rows.drop_last()[i].pk != pk);
                        }
                    }
                },
                Some(m) => {
                    let front = rows.drop_last();
                    let i = choose|i: int|
                        0 <= i < front.len() && #[trigger] front[i] == m && forall|j: int|
                            i < j < front.len() ==> (#[trigger] front[j]).pk != pk;
                    assert(rows[i] == m);
                    assert forall|j: int| i < j < rows.len() implies (#[trigger] rows[j]).pk
                        != pk by {
                        if j < rows.len() - 1 {
                            assert(front[j].pk != pk);
                        }
                    }
                },
            }
        }
    }
}

/// The place of the entity with key `pk` in an index, if it is there.
pub open spec fn found(index: Seq<&Entity>, pk: Seq<char>) -> bool {
    exists|k: int| 0 <= k < index.len() && (#[trigger] index[k]).pk@ == pk
}

/// An index of the rows finds for each key the row that `row_for` finds.
proof fn lemma_index(index: Seq<&Entity>, refs: Seq<&Entity>, rows: Seq<Entity>)
    requires
        crate::order::indexes(index, refs),
        refs.len() == rows.len(),
        forall|i: int| 0 <= i < rows.len() ==> *(#[trigger] refs[i]) == rows[i],
    ensures
        forall|k: int| 0 <= k < index.len() ==> row_for(
            crate::catalog::entity_models(rows),
            (#[trigger] index[k]).pk@,
        ) == Some((*index[k])@),
        forall|pk: Seq<char>|
            (#[trigger] row_for(crate::catalog::entity_models(rows), pk)) is Some <==> found(
                index,
                pk,
            ),
{
    crate::order::text_order_is_total();
    let models = crate::catalog::entity_models(rows);
    assert forall|k: int| 0 <= k < index.len() implies row_for(
        models,
        (#[trigger] index[k]).pk@,
    ) == Some((*index[k])@) by {
        let i = choose|i: int| crate::order::is_latest(refs, i) && refs[i] == index[k];
        let pk = index[k].pk@;
        lemma_row_for(models, pk);
        assert(models[i].pk == pk);
        let m = row_for(models, pk)->0;
        let l = choose|l: int|
            0 <= l < models.len() && #[trigger] models[l] == m && forall|j: int|
                l < j < models.len() ==> (#[trigger] models[j]).pk != pk;
        if l > i {
            assert(models[l].pk == pk);
            assert(!crate::order::same_rank(refs[l], refs[i]));
        }
        assert(l == i);
    }
    assert forall|pk: Seq<char>| (#[trigger] row_for(models, pk)) is Some <==> found(
        index,
        pk,
    ) by {
        lemma_row_for(models, pk);
        if row_for(models, pk) is Some {
            let m = row_for(models, pk)->0;
            let l = choose|l: int|
                0 <= l < models.len() && #[trigger] models[l] == m && forall|j: int|
                    l < j < models.len() ==> (#[trigger] models[j]).pk != pk;
            assert forall|j: int| l < j < refs.len() implies !crate::order::same_rank(
                #[trigger] refs[j],
                refs[l],
            ) by {
                assert(models[j].pk != pk);
            }
            assert(crate::order::is_latest(refs, l));
            assert(index.contains(refs[l]));
            let k = choose|k: int| 0 <= k < index.len() && index[k] == refs[l];
            assert(index[k].pk@ == pk);
        }
        if found(index, pk) {
            let k = choose|k: int| 0 <= k < index.len() && (#[trigger] index[k]).pk@ == pk;
            assert(row_for(models, index[k].pk@) == Some((*index[k])@));
        }
    }
}

/// The rows, borrowed.
fn borrowed<'a>(rows: &'a Vec<Entity>) -> (r: Vec<&'a Entity>)
    ensures
        r@.len() == rows@.len(),
        forall|i: int| 0 <= i < rows@.len() ==> *(#[trigger] r@[i]) == rows@[i],
{
    let mut out: Vec<&'a Entity> = Vec::new();
    let mut i: usize = 0;
    while i < rows.len()
        invariant
            i <= rows@.len(),
            out@.len() == i,
            forall|j: int| 0 <= j < i ==> *(#[trigger] out@[j]) == rows@[j],
        decreases rows@.len() - i,
    {
        out.push(&rows[i]);
        i += 1;
    }
    out
}

/// The last row of each key, in ascending order of the keys.
fn by_pk<'a>(rows: &'a Vec<Entity>) -> (r: Vec<&'a Entity>)
    ensures
        crate::order::ascending(
            r@,
            crate::order::rank_order::<&Entity>(),
        ),
        forall|k: int| 0 <= k < r@.len() ==> row_for(
            crate::catalog::entity_models(rows@),
            (#[trigger] r@[k]).pk@,
        ) == Some((*r@[k])@),
        forall|pk: Seq<char>|
            (#[trigger] row_for(crate::catalog::entity_models(rows@), pk)) is Some <==> found(
                r@,
                pk,
            ),
{
    let refs = borrowed(rows);
    let ghost all = refs@;
    let index = index_of(refs);
    proof {
        lemma_index(index@, all, rows@);
    }
    index
}

/// The place of the entity with key `pk`, if the index has one.
fn find<'a>(index: &Vec<&'a Entity>, pk: &str) -> (r: Option<usize>)
    requires
        crate::order::ascending(index@, crate::order::rank_order::<&Entity>()),
    ensures
        match r {
            Some(k) => k < index@.len() && index@[k as int].pk@ == pk@,
            None => !found(index@, pk@),
        },
{
    proof {
        crate::order::text_order_is_total();
    }
    let mut lo: usize = 0;
    let mut hi: usize = index.len();
    while lo < hi
        invariant
            lo <= hi <= index@.len(),
            crate::order::ascending(index@, crate::order::rank_order::<&Entity>()),
            forall|i: int| 0 <= i < lo ==> !crate::order::text_le(pk@, (#[trigger] index@[i]).pk@),
            forall|i: int|
                hi <= i < index@.len() ==> crate::order::text_le(pk@, (#[trigger] index@[i]).pk@),
        decreases hi - lo,
    {
        let mid: usize = lo + (hi - lo) / 2;
        proof {
            crate::order::text_order_is_total();
            let le = crate::order::rank_order::<&Entity>();
            assert forall|i: int, j: int| 0 <= i < j < index@.len() implies crate::order::text_le(
                (#[trigger] index@[i]).pk@,
                (#[trigger] index@[j]).pk@,
            ) by {
                assert(le(index@[i], index@[j]));
            }
        }
        if str_le(pk, index[mid].pk.as_str()) {
            hi = mid;
        } else {
            lo = mid + 1;
        }
    }
    if lo < index.len() && str_le(index[lo].pk.as_str(), pk) {
        return Some(lo);
    }
    proof {
        let le = crate::order::rank_order::<&Entity>();
        assert forall|k: int| 0 <= k < index@.len() implies (#[trigger] index@[k]).pk@ != pk@ by {
            if k > lo {
                assert(le(index@[lo as int], index@[k]) && !le(index@[k], index@[lo as int]));
            }
        }
    }
    None
}

/// Keys found among the first `n` entries of an index.
spec fn found_before(index: Seq<&Entity>, n: int, pk: Seq<char>) -> bool {
    exists|k: int| 0 <= k < n && (#[trigger] index[k]).pk@ == pk
}

/// `list` holds exactly those of the first `n` keys of the index that are in
/// `keys`, in strictly ascending order.
spec fn lists_so_far(
    list: Seq<Seq<char>>,
    index: Seq<&Entity>,
    n: int,
    keys: Set<Seq<char>>,
) -> bool {
    &&& crate::order::ascending(list, crate::order::text_order())
    &&& forall|pk: Seq<char>| #[trigger]
        list.contains(pk) <==> found_before(index, n, pk) && keys.contains(pk)
}

/// One more key of the index is put on the list, or left out of it.
proof fn lemma_list_step(
    list: Seq<Seq<char>>,
    next: Seq<Seq<char>>,
    index: Seq<&Entity>,
    n: int,
    keys: Set<Seq<char>>,
)
    requires
        crate::order::ascending(index, crate::order::rank_order::<&Entity>()),
        0 <= n < index.len(),
        lists_so_far(list, index, n, keys),
        next == (if keys.contains(index[n].pk@) {
            list.push(index[n].pk@)
        } else {
            list
        }),
    ensures
        lists_so_far(next, index, n + 1, keys),
{
    crate::order::text_order_is_total();
    let le = crate::order::rank_order::<&Entity>();
    let order = crate::order::text_order();
    let key = index[n].pk@;
    assert forall|i: int, j: int| 0 <= i < j < next.len() implies order(
        #[trigger] next[i],
        #[trigger] next[j],
    ) && !order(next[j], next[i]) by {
        if j < list.len() {
            assert(order(list[i], list[j]) && !order(list[j], list[i]));
        } else {
            assert(list.contains(list[i]));
            let k = choose|k: int| 0 <= k < n && (#[trigger] index[k]).pk@ == list[i];
            assert(le(index[k], index[n]) && !le(index[n], index[k]));
        }
    }
    assert forall|pk: Seq<char>| #[trigger]
        next.contains(pk) <==> found_before(index, n + 1, pk) && keys.contains(pk) by {
        if next.contains(pk) {
            let j = choose|j: int| 0 <= j < next.len() && next[j] == pk;
            if j < list.len() {
                assert(list.contains(pk));
                let k = choose|k: int| 0 <= k < n && (#[trigger] index[k]).pk@ == pk;
                assert(index[k].pk@ == pk);
            } else {
                assert(index[n].pk@ == pk);
            }
        }
        if found_before(index, n + 1, pk) && keys.contains(pk) {
            let k = choose|k: int| 0 <= k < n + 1 && (#[trigger] index[k]).pk@ == pk;
            if k < n {
                assert(found_before(index, n, pk));
                assert(list.contains(pk));
                let j = choose|j: int| 0 <= j < list.len() && list[j] == pk;
                assert(next[j] == pk);
            } else {
                assert(next[next.len() - 1] == pk);
            }
        }
    }
}

/// Once the whole index is through, the list holds exactly the keys.
proof fn lemma_list_done(list: Seq<Seq<char>>, index: Seq<&Entity>, keys: Set<Seq<char>>)
    requires
        lists_so_far(list, index, index.len() as int, keys),
        forall|pk: Seq<char>| #[trigger] keys.contains(pk) ==> found(index, pk),
    ensures
        lists_keys(list, keys),
{
    assert forall|pk: Seq<char>| #[trigger] list.contains(pk) <==> keys.contains(pk) by {
        if keys.contains(pk) {
            assert(found(index, pk));
            assert(found_before(index, index.len() as int, pk));
        }
    }
}

/// Compares the rows of one family on the two sides.
pub fn diff_family(fam: Family, before: &FamilyRows, after: &FamilyRows) -> (d: FamilyDelta)
    ensures
        is_delta(d, fam, *before, *after),
{
    let before_by_pk = by_pk(&before.rows);
    let after_by_pk = by_pk(&after.rows);
    let hash_compare_skipped = before.signatures_unavailable || after.signatures_unavailable;
    let ghost b = before.models();
    let ghost a = after.models();
    let ghost new_keys = keys_with(b, a, hash_compare_skipped, Change::Added);
    let ghost gone_keys = keys_with(b, a, hash_compare_skipped, Change::Removed);
    let ghost changed_keys = keys_with(b, a, hash_compare_skipped, Change::Changed);
    let ghost same_keys = keys_with(b, a, hash_compare_skipped, Change::Same);

    let mut added: Vec<EntityRef> = Vec::new();
    let mut removed: Vec<EntityRef> = Vec::new();
    let mut signature_changed: Vec<SignatureChange> = Vec::new();
    let mut unchanged: usize = 0;
    let mut partial: bool = false;
    let ghost mut same_so_far: Seq<Seq<char>> = Seq::empty();

    let mut i: usize = 0;
    while i < after_by_pk.len()
        invariant
            i <= after_by_pk@.len(),
            b == before.models(),
            a == after.models(),
            new_keys == keys_with(b, a, hash_compare_skipped, Change::Added),
            changed_keys == keys_with(b, a, hash_compare_skipped, Change::Changed),
            same_keys == keys_with(b, a, hash_compare_skipped, Change::Same),
            crate::order::ascending(before_by_pk@, crate::order::rank_order::<&Entity>()),
            crate::order::ascending(after_by_pk@, crate::order::rank_order::<&Entity>()),
            forall|k: int| 0 <= k < before_by_pk@.len() ==> row_for(
                b,
                (#[trigger] before_by_pk@[k]).pk@,
            ) == Some((*before_by_pk@[k])@),
            forall|k: int| 0 <= k < after_by_pk@.len() ==> row_for(
                a,
                (#[trigger] after_by_pk@[k]).pk@,
            ) == Some((*after_by_pk@[k])@),
            forall|pk: Seq<char>|
                (#[trigger] row_for(b, pk)) is Some <==> found(before_by_pk@, pk),
            lists_so_far(ref_keys(added@), after_by_pk@, i as int, new_keys),
            shown_as(added@, a),
            lists_so_far(change_keys(signature_changed@), after_by_pk@, i as int, changed_keys),
            forall|n: int| #![trigger signature_changed@[n]]
                0 <= n < signature_changed@.len() ==> {
                    let c = signature_changed@[n];
                    &&& c.display@ == row_for(a, c.pk@)->0.display
                    &&& crate::text::text_option(c.before_hash) == row_for(
                        b,
                        c.pk@,
                    )->0.signature_hash
                    &&& crate::text::text_option(c.after_hash) == row_for(
                        a,
                        c.pk@,
                    )->0.signature_hash
                },
            lists_so_far(same_so_far, after_by_pk@, i as int, same_keys),
            unchanged == same_so_far.len(),
            unchanged <= i,
            partial ==> partly_by_name(b, a),
            !partial ==> forall|k: int|
                0 <= k < i ==> !name_only(b, a, (#[trigger] after_by_pk@[k]).pk@),
        decreases after_by_pk@.len() - i,
    {
        let entity: &Entity = after_by_pk[i];
        let ghost pk = entity.pk@;
        let ghost added_before = ref_keys(added@);
        let ghost changed_before = change_keys(signature_changed@);
        let ghost same_before = same_so_far;
        assert(row_for(a, pk) == Some(entity@));
        match find(&before_by_pk, entity.pk.as_str()) {
            None => {
                assert(row_for(b, pk) is None);
                let named = EntityRef::from(entity);
                added.push(named);
                assert(ref_keys(added@) =~= added_before.push(pk));
            },
            Some(k) => {
                let earlier: &Entity = before_by_pk[k];
                assert(row_for(b, pk) == Some(earlier@));
                if earlier.signature_hash.is_none() || entity.signature_hash.is_none() {
                    assert(name_only(b, a, pk));
                    partial = true;
                }
                let differs = !hash_compare_skipped && earlier.signature_hash.is_some()
                    && entity.signature_hash.is_some() && !option_eq(
                    &earlier.signature_hash,
                    &entity.signature_hash,
                );
                if differs {
                    signature_changed.push(
                        SignatureChange {
                            pk: entity.pk.clone(),
                            display: entity.display.clone(),
                            before_hash: option_clone(&earlier.signature_hash),
                            after_hash: option_clone(&entity.signature_hash),
                        },
                    );
                    assert(change_keys(signature_changed@) =~= changed_before.push(pk));
                } else {
                    unchanged += 1;
                    proof {
                        same_so_far = same_so_far.push(pk);
                    }
                }
            },
        }
        proof {
            lemma_list_step(added_before, ref_keys(added@), after_by_pk@, i as int, new_keys);
            lemma_list_step(
                changed_before,
                change_keys(signature_changed@),
                after_by_pk@,
                i as int,
                changed_keys,
            );
            lemma_list_step(same_before, same_so_far, after_by_pk@, i as int, same_keys);
        }
        i += 1;
    }

    let mut j: usize = 0;
    while j < before_by_pk.len()
        invariant
            j <= before_by_pk@.len(),
            gone_keys == keys_with(b, a, hash_compare_skipped, Change::Removed),
            crate::order::ascending(before_by_pk@, crate::order::rank_order::<&Entity>()),
            crate::order::ascending(after_by_pk@, crate::order::rank_order::<&Entity>()),
            forall|k: int| 0 <= k < before_by_pk@.len() ==> row_for(
                b,
                (#[trigger] before_by_pk@[k]).pk@,
            ) == Some((*before_by_pk@[k])@),
            forall|pk: Seq<char>| (#[trigger] row_for(a, pk)) is Some <==> found(after_by_pk@, pk),
            lists_so_far(ref_keys(removed@), before_by_pk@, j as int, gone_keys),
            shown_as(removed@, b),
        decreases before_by_pk@.len() - j,
    {
        let entity: &Entity = before_by_pk[j];
        let ghost pk = entity.pk@;
        let ghost removed_before = ref_keys(removed@);
        assert(row_for(b, pk) == Some(entity@));
        match find(&after_by_pk, entity.pk.as_str()) {
            None => {
                assert(row_for(a, pk) is None);
                let named = EntityRef::from(entity);
                removed.push(named);
                assert(ref_keys(removed@) =~= removed_before.push(pk));
            },
            Some(k) => {
                assert(found(after_by_pk@, pk));
            },
        }
        proof {
            lemma_list_step(removed_before, ref_keys(removed@), before_by_pk@, j as int, gone_keys);
        }
        j += 1;
    }

    proof {
        lemma_list_done(ref_keys(added@), after_by_pk@, new_keys);
        lemma_list_done(change_keys(signature_changed@), after_by_pk@, changed_keys);
        lemma_list_done(same_so_far, after_by_pk@, same_keys);
        lemma_list_done(ref_keys(removed@), before_by_pk@, gone_keys);
        lemma_listed_count(same_so_far, same_keys);
        if !partial && partly_by_name(b, a) {
            let pk = choose|pk: Seq<char>| #[trigger] name_only(b, a, pk);
            assert(row_for(a, pk) is Some);
            let k = choose|k: int|
                0 <= k < after_by_pk@.len() && (#[trigger] after_by_pk@[k]).pk@ == pk;
            assert(!name_only(b, a, after_by_pk@[k].pk@));
        }
    }
    let skip_reason: Option<String> = match (
        before.signatures_unavailable,
        after.signatures_unavailable,
    ) {
        (true, true) => Some("signature_hash unavailable on both sides".to_owned()),
        (true, false) => Some("signature_hash unavailable on before".to_owned()),
        (false, true) => Some("signature_hash unavailable on after".to_owned()),
        (false, false) => if partial {
            Some(
                "signature_hash missing on some rows, which were compared by name only".to_owned(),
            )
        } else {
            None
        },
    };
    FamilyDelta {
        family: fam.slug(),
        added,
        removed,
        signature_changed,
        unchanged,
        hash_compare_skipped,
        compared: true,
        skip_reason,
    }
}

/// A list that holds exactly the keys of a set, each once, is as long as the
/// set is large.
proof fn lemma_listed_count(list: Seq<Seq<char>>, keys: Set<Seq<char>>)
    requires
        lists_keys(list, keys),
    ensures
        keys.finite(),
        keys.len() == list.len(),
{
    broadcast use vstd::seq_lib::seq_to_set_is_finite;

    crate::order::text_order_is_total();
    let order = crate::order::text_order();
    assert(list.no_duplicates()) by {
        assert forall|i: int, j: int| 0 <= i < list.len() && 0 <= j < list.len() && i
            != j implies list[i] != list[j] by {
            if i < j {
                assert(order(list[i], list[j]) && !order(list[j], list[i]));
            } else {
                assert(order(list[j], list[i]) && !order(list[i], list[j]));
            }
        }
    }
    list.unique_seq_to_set();
    assert(list.to_set() =~= keys);
}

// ---------------------------------------------------------------------------
// Rating
// ---------------------------------------------------------------------------

/// How large a difference is.
#[derive(Clone, Copy, Debug, PartialEq, Eq, Structural)]
pub enum Semver {
    Major,
    Minor,
    MinorWithChanges,
    Patch,
}

impl Semver {
    /// The name of the rating.
    pub open spec fn label_text(self) -> Seq<char> {
        match self {
            Semver::Major => "MAJOR"@,
            Semver::Minor => "MINOR"@,
            Semver::MinorWithChanges => "MINOR-WITH-CHANGES"@,
            Semver::Patch => "PATCH"@,
        }
    }

    /// What the rating stands on.
    pub open spec fn reason_text(self) -> Seq<char> {
        match self {
            Semver::Major => "removals present — breaking"@,
            Semver::Minor => "additive only, no breaking removals"@,
            Semver::MinorWithChanges => "signature changes flagged for re-verification"@,
            Semver::Patch => "no observable delta"@,
        }
    }

    /// The name of the rating.
    pub fn label(self) -> (r: &'static str)
        ensures
            r@ == self.label_text(),
    {
        match self {
            Semver::Major => "MAJOR",
            Semver::Minor => "MINOR",
            Semver::MinorWithChanges => "MINOR-WITH-CHANGES",
            Semver::Patch => "PATCH",
        }
    }

    /// What the rating stands on.
    pub fn reason(self) -> (r: &'static str)
        ensures
            r@ == self.reason_text(),
    {
        match self {
            Semver::Major => "removals present — breaking",
            Semver::Minor => "additive only, no breaking removals",
            Semver::MinorWithChanges => "signature changes flagged for re-verification",
            Semver::Patch => "no observable delta",
        }
    }
}

/// Some family has removals.
pub open spec fn any_removed(deltas: Seq<FamilyDelta>) -> bool {
    exists|i: int| 0 <= i < deltas.len() && (#[trigger] deltas[i]).removed@.len() > 0
}

/// Some family has additions.
pub open spec fn any_added(deltas: Seq<FamilyDelta>) -> bool {
    exists|i: int| 0 <= i < deltas.len() && (#[trigger] deltas[i]).added@.len() > 0
}

/// Some family has signature changes.
pub open spec fn any_signature_changed(deltas: Seq<FamilyDelta>) -> bool {
    exists|i: int| 0 <= i < deltas.len() && (#[trigger] deltas[i]).signature_changed@.len() > 0
}

/// The rating of a list of differences: removals break, signature changes are
/// flagged, additions alone are minor, and nothing at all is a patch.
pub open spec fn classified(deltas: Seq<FamilyDelta>) -> Semver {
    if any_removed(deltas) {
        Semver::Major
    } else if any_signature_changed(deltas) {
        Semver::MinorWithChanges
    } else if any_added(deltas) {
        Semver::Minor
    } else {
        Semver::Patch
    }
}

/// Rates a list of differences.
pub fn classify(deltas: &[FamilyDelta]) -> (r: Semver)
    ensures
        r == classified(deltas@),
{
    let mut removed = false;
    let mut added = false;
    let mut changed = false;
    let mut i: usize = 0;
    while i < deltas.len()
        invariant
            i <= deltas@.len(),
            removed == any_removed(deltas@.take(i as int)),
            added == any_added(deltas@.take(i as int)),
            changed == any_signature_changed(deltas@.take(i as int)),
        decreases deltas@.len() - i,
    {
        let d: &FamilyDelta = &deltas[i];
        let ghost so_far = deltas@.take(i as int);
        let ghost next = deltas@.take(i + 1);
        assert(next[i as int] == *d);
        assert(forall|k: int| 0 <= k < i ==> so_far[k] == next[k]);
        if !d.removed.is_empty() {
            removed = true;
        }
        if !d.added.is_empty() {
            added = true;
        }
        if !d.signature_changed.is_empty() {
            changed = true;
        }
        i += 1;
    }
    assert(deltas@.take(i as int) =~= deltas@);
    if removed {
        Semver::Major
    } else if changed {
        Semver::MinorWithChanges
    } else if added {
        Semver::Minor
    } else {
        Semver::Patch
    }
}

// ---------------------------------------------------------------------------
// Laws
// ---------------------------------------------------------------------------

/// Two strictly ascending lists of the same keys are the same list.
proof fn lemma_lists_unique(x: Seq<Seq<char>>, y: Seq<Seq<char>>, keys: Set<Seq<char>>)
    requires
        lists_keys(x, keys),
        lists_keys(y, keys),
    ensures
        x == y,
{
    crate::order::text_order_is_total();
    crate::order::ascending_lists_are_unique(x, y, crate::order::text_order());
}

/// The comparison is deterministic: all that can be read off a difference is
/// settled by the two sides.
pub proof fn comparison_is_deterministic(
    fam: Family,
    before: FamilyRows,
    after: FamilyRows,
    x: FamilyDelta,
    y: FamilyDelta,
)
    requires
        is_delta(x, fam, before, after),
        is_delta(y, fam, before, after),
    ensures
        ref_keys(x.added@) == ref_keys(y.added@),
        ref_keys(x.removed@) == ref_keys(y.removed@),
        change_keys(x.signature_changed@) == change_keys(y.signature_changed@),
        forall|i: int|
            0 <= i < x.added@.len() ==> (#[trigger] x.added@[i]).display@ == y.added@[i].display@,
        forall|i: int|
            0 <= i < x.removed@.len() ==> (#[trigger] x.removed@[i]).display@
                == y.removed@[i].display@,
        forall|i: int|
            0 <= i < x.signature_changed@.len() ==> {
                let c = #[trigger] x.signature_changed@[i];
                let d = y.signature_changed@[i];
                &&& c.display@ == d.display@
                &&& crate::text::text_option(c.before_hash) == crate::text::text_option(
                    d.before_hash,
                )
                &&& crate::text::text_option(c.after_hash) == crate::text::text_option(d.after_hash)
            },
        x.family@ == y.family@,
        x.unchanged == y.unchanged,
        x.hash_compare_skipped == y.hash_compare_skipped,
        x.compared == y.compared,
        crate::text::text_option(x.skip_reason) == crate::text::text_option(y.skip_reason),
{
    let b = before.models();
    let a = after.models();
    let skipped = x.hash_compare_skipped;
    lemma_lists_unique(
        ref_keys(x.added@),
        ref_keys(y.added@),
        keys_with(b, a, skipped, Change::Added),
    );
    lemma_lists_unique(
        ref_keys(x.removed@),
        ref_keys(y.removed@),
        keys_with(b, a, skipped, Change::Removed),
    );
    lemma_lists_unique(
        change_keys(x.signature_changed@),
        change_keys(y.signature_changed@),
        keys_with(b, a, skipped, Change::Changed),
    );
    assert forall|i: int| 0 <= i < x.added@.len() implies (#[trigger] x.added@[i]).display@
        == y.added@[i].display@ by {
        assert(ref_keys(x.added@).len() == ref_keys(y.added@).len());
        assert(ref_keys(x.added@)[i] == x.added@[i].pk@);
        assert(ref_keys(y.added@)[i] == y.added@[i].pk@);
    }
    assert forall|i: int| 0 <= i < x.removed@.len() implies (#[trigger] x.removed@[i]).display@
        == y.removed@[i].display@ by {
        assert(ref_keys(x.removed@).len() == ref_keys(y.removed@).len());
        assert(ref_keys(x.removed@)[i] == x.removed@[i].pk@);
        assert(ref_keys(y.removed@)[i] == y.removed@[i].pk@);
    }
    assert forall|i: int| 0 <= i < x.signature_changed@.len() implies {
        let c = #[trigger] x.signature_changed@[i];
        let d = y.signature_changed@[i];
        &&& c.display@ == d.display@
        &&& crate::text::text_option(c.before_hash) == crate::text::text_option(d.before_hash)
        &&& crate::text::text_option(c.after_hash) == crate::text::text_option(d.after_hash)
    } by {
        lemma_change_at(x.signature_changed@, y.signature_changed@, i);
    }
}

/// Changes with the same keys have the same key at each place.
proof fn lemma_change_at(x: Seq<SignatureChange>, y: Seq<SignatureChange>, i: int)
    requires
        change_keys(x) == change_keys(y),
        0 <= i < x.len(),
    ensures
        i < y.len(),
        x[i].pk@ == y[i].pk@,
{
    assert(change_keys(x).len() == x.len() && change_keys(y).len() == y.len());
    assert(change_keys(x)[i] == x[i].pk@);
    assert(change_keys(y)[i] == y[i].pk@);
}

/// A side compared with itself shows no difference, and every key counts as
/// unchanged.
pub proof fn no_difference_from_itself(fam: Family, side: FamilyRows, d: FamilyDelta)
    requires
        is_delta(d, fam, side, side),
    ensures
        d.added@.len() == 0,
        d.removed@.len() == 0,
        d.signature_changed@.len() == 0,
        d.unchanged == Set::new(|pk: Seq<char>| row_for(side.models(), pk) is Some).len(),
{
    let rows = side.models();
    let skipped = side.signatures_unavailable;
    if d.added@.len() > 0 {
        assert(ref_keys(d.added@).contains(ref_keys(d.added@)[0]));
    }
    if d.removed@.len() > 0 {
        assert(ref_keys(d.removed@).contains(ref_keys(d.removed@)[0]));
    }
    if d.signature_changed@.len() > 0 {
        assert(change_keys(d.signature_changed@).contains(change_keys(d.signature_changed@)[0]));
    }
    assert(keys_with(rows, rows, skipped, Change::Same) =~= Set::new(
        |pk: Seq<char>| row_for(rows, pk) is Some,
    ));
}

/// Exchanging the two sides exchanges additions and removals and the two hashes
/// of each change, and keeps the rest. A changed entity is shown as the later
/// side shows it.
pub proof fn exchanging_sides(
    fam: Family,
    before: FamilyRows,
    after: FamilyRows,
    forth: FamilyDelta,
    back: FamilyDelta,
)
    requires
        is_delta(forth, fam, before, after),
        is_delta(back, fam, after, before),
    ensures
        ref_keys(forth.added@) == ref_keys(back.removed@),
        ref_keys(forth.removed@) == ref_keys(back.added@),
        change_keys(forth.signature_changed@) == change_keys(back.signature_changed@),
        forall|i: int|
            0 <= i < forth.added@.len() ==> (#[trigger] forth.added@[i]).display@
                == back.removed@[i].display@,
        forall|i: int|
            0 <= i < forth.removed@.len() ==> (#[trigger] forth.removed@[i]).display@
                == back.added@[i].display@,
        forall|i: int|
            0 <= i < forth.signature_changed@.len() ==> {
                let c = #[trigger] forth.signature_changed@[i];
                let d = back.signature_changed@[i];
                &&& crate::text::text_option(c.before_hash) == crate::text::text_option(
                    d.after_hash,
                )
                &&& crate::text::text_option(c.after_hash) == crate::text::text_option(
                    d.before_hash,
                )
                &&& c.display@ == row_for(after.models(), c.pk@)->0.display
                &&& d.display@ == row_for(before.models(), c.pk@)->0.display
            },
        forth.unchanged == back.unchanged,
        forth.hash_compare_skipped == back.hash_compare_skipped,
        crate::text::text_option(forth.skip_reason) == skip_reason_text(
            before.signatures_unavailable,
            after.signatures_unavailable,
            partly_by_name(before.models(), after.models()),
        ),
        crate::text::text_option(back.skip_reason) == skip_reason_text(
            after.signatures_unavailable,
            before.signatures_unavailable,
            partly_by_name(before.models(), after.models()),
        ),
{
    let b = before.models();
    let a = after.models();
    let skipped = forth.hash_compare_skipped;
    assert(keys_with(b, a, skipped, Change::Added) =~= keys_with(a, b, skipped, Change::Removed));
    assert(keys_with(b, a, skipped, Change::Removed) =~= keys_with(a, b, skipped, Change::Added));
    assert(keys_with(b, a, skipped, Change::Changed) =~= keys_with(a, b, skipped, Change::Changed));
    assert(keys_with(b, a, skipped, Change::Same) =~= keys_with(a, b, skipped, Change::Same));
    lemma_lists_unique(
        ref_keys(forth.added@),
        ref_keys(back.removed@),
        keys_with(b, a, skipped, Change::Added),
    );
    lemma_lists_unique(
        ref_keys(forth.removed@),
        ref_keys(back.added@),
        keys_with(b, a, skipped, Change::Removed),
    );
    lemma_lists_unique(
        change_keys(forth.signature_changed@),
        change_keys(back.signature_changed@),
        keys_with(b, a, skipped, Change::Changed),
    );
    assert forall|i: int| 0 <= i < forth.added@.len() implies (#[trigger] forth.added@[i]).display@
        == back.removed@[i].display@ by {
        assert(ref_keys(forth.added@).len() == ref_keys(back.removed@).len());
        assert(ref_keys(forth.added@)[i] == forth.added@[i].pk@);
        assert(ref_keys(back.removed@)[i] == back.removed@[i].pk@);
    }
    assert forall|i: int| 0 <= i < forth.removed@.len() implies (
    #[trigger] forth.removed@[i]).display@ == back.added@[i].display@ by {
        assert(ref_keys(forth.removed@).len() == ref_keys(back.added@).len());
        assert(ref_keys(forth.removed@)[i] == forth.removed@[i].pk@);
        assert(ref_keys(back.added@)[i] == back.added@[i].pk@);
    }
    assert forall|i: int| 0 <= i < forth.signature_changed@.len() implies {
        let c = #[trigger] forth.signature_changed@[i];
        let d = back.signature_changed@[i];
        &&& crate::text::text_option(c.before_hash) == crate::text::text_option(d.after_hash)
        &&& crate::text::text_option(c.after_hash) == crate::text::text_option(d.before_hash)
        &&& c.display@ == row_for(after.models(), c.pk@)->0.display
        &&& d.display@ == row_for(before.models(), c.pk@)->0.display
    } by {
        lemma_change_at(forth.signature_changed@, back.signature_changed@, i);
    }
    assert(partly_by_name(b, a) == partly_by_name(a, b)) by {
        if partly_by_name(b, a) {
            let pk = choose|pk: Seq<char>| #[trigger] name_only(b, a, pk);
            assert(name_only(a, b, pk));
        }
        if partly_by_name(a, b) {
            let pk = choose|pk: Seq<char>| #[trigger] name_only(a, b, pk);
            assert(name_only(b, a, pk));
        }
    }
}

/// Every key of the later side is added, changed or unchanged, and every key
/// of the earlier side is removed, changed or unchanged; none is counted
/// twice.
pub proof fn every_key_is_accounted_for(
    fam: Family,
    before: FamilyRows,
    after: FamilyRows,
    d: FamilyDelta,
)
    requires
        is_delta(d, fam, before, after),
    ensures
        d.added@.len() + d.signature_changed@.len() + d.unchanged == Set::new(
            |pk: Seq<char>| row_for(after.models(), pk) is Some,
        ).len(),
        d.removed@.len() + d.signature_changed@.len() + d.unchanged == Set::new(
            |pk: Seq<char>| row_for(before.models(), pk) is Some,
        ).len(),
{
    let b = before.models();
    let a = after.models();
    let skipped = d.hash_compare_skipped;
    let added = keys_with(b, a, skipped, Change::Added);
    let removed = keys_with(b, a, skipped, Change::Removed);
    let changed = keys_with(b, a, skipped, Change::Changed);
    let same = keys_with(b, a, skipped, Change::Same);
    lemma_listed_count(ref_keys(d.added@), added);
    lemma_listed_count(ref_keys(d.removed@), removed);
    lemma_listed_count(change_keys(d.signature_changed@), changed);
    vstd::set_lib::lemma_set_disjoint_lens(changed, same);
    vstd::set_lib::lemma_set_disjoint_lens(added, changed + same);
    vstd::set_lib::lemma_set_disjoint_lens(removed, changed + same);
    assert(added + (changed + same) =~= Set::new(|pk: Seq<char>| row_for(a, pk) is Some));
    assert(removed + (changed + same) =~= Set::new(|pk: Seq<char>| row_for(b, pk) is Some));
}

/// Where hashes are not compared, no signature change is reported.
pub proof fn skipped_comparison_reports_no_change(
    fam: Family,
    before: FamilyRows,
    after: FamilyRows,
    d: FamilyDelta,
)
    requires
        is_delta(d, fam, before, after),
        before.signatures_unavailable || after.signatures_unavailable,
    ensures
        d.signature_changed@.len() == 0,
        d.skip_reason is Some,
{
    if d.signature_changed@.len() > 0 {
        assert(change_keys(d.signature_changed@).contains(change_keys(d.signature_changed@)[0]));
    }
}

/// A reason is given exactly where some key was compared by name alone, or a
/// side has no hashes; such a key counts as unchanged.
pub proof fn comparisons_by_name_are_noted(
    fam: Family,
    before: FamilyRows,
    after: FamilyRows,
    d: FamilyDelta,
)
    requires
        is_delta(d, fam, before, after),
    ensures
        d.skip_reason is Some <==> d.hash_compare_skipped || partly_by_name(
            before.models(),
            after.models(),
        ),
        forall|pk: Seq<char>| #[trigger]
            name_only(before.models(), after.models(), pk) ==> change_of(
                before.models(),
                after.models(),
                d.hash_compare_skipped,
                pk,
            ) == Change::Same && !change_keys(d.signature_changed@).contains(pk),
{
    let b = before.models();
    let a = after.models();
    assert forall|pk: Seq<char>| #[trigger] name_only(b, a, pk) implies change_of(
        b,
        a,
        d.hash_compare_skipped,
        pk,
    ) == Change::Same && !change_keys(d.signature_changed@).contains(pk) by {
        assert(!keys_with(b, a, d.hash_compare_skipped, Change::Changed).contains(pk));
    }
}

/// `rows[i]` is the row that counts for its key: no later row has the key.
pub open spec fn settles(rows: Seq<Entity>, i: int) -> bool {
    0 <= i < rows.len() && forall|j: int|
        i < j < rows.len() ==> (#[trigger] rows[j]).pk@ != rows[i].pk@
}

/// Some row has the key.
pub open spec fn has_row(rows: Seq<Entity>, pk: Seq<char>) -> bool {
    exists|i: int| 0 <= i < rows.len() && (#[trigger] rows[i]).pk@ == pk
}

/// A list of entities names a key.
pub open spec fn names_key(list: Seq<EntityRef>, pk: Seq<char>) -> bool {
    exists|k: int| 0 <= k < list.len() && (#[trigger] list[k]).pk@ == pk
}

/// A list of changes names a key.
pub open spec fn names_change(list: Seq<SignatureChange>, pk: Seq<char>) -> bool {
    exists|k: int| 0 <= k < list.len() && (#[trigger] list[k]).pk@ == pk
}

/// Two rows carry hashes, and the hashes are different.
pub open spec fn hashes_differ(b: Entity, a: Entity) -> bool {
    b.signature_hash is Some && a.signature_hash is Some && b.signature_hash->0@
        != a.signature_hash->0@
}

/// Some key is on both sides, with rows that carry different hashes, and the
/// hashes of both sides count.
pub open spec fn some_hash_differs(before: FamilyRows, after: FamilyRows) -> bool {
    &&& !before.signatures_unavailable
    &&& !after.signatures_unavailable
    &&& exists|i: int, j: int| #[trigger]
        settles(before.rows@, i) && #[trigger] settles(after.rows@, j) && before.rows@[i].pk@
            == after.rows@[j].pk@ && hashes_differ(before.rows@[i], after.rows@[j])
}

/// Some key is on the first side and not on the second.
pub open spec fn some_key_is_missing(first: FamilyRows, second: FamilyRows) -> bool {
    exists|i: int|
        0 <= i < first.rows@.len() && !has_row(second.rows@, (#[trigger] first.rows@[i]).pk@)
}

/// The row that counts for a key is the last one with the key, and a key that no
/// row has is not found.
pub proof fn last_row_counts(rows: Seq<Entity>, pk: Seq<char>)
    ensures
        forall|i: int| #[trigger]
            settles(rows, i) && rows[i].pk@ == pk ==> row_for(
                crate::catalog::entity_models(rows),
                pk,
            ) == Some(rows[i]@),
        has_row(rows, pk) <==> row_for(crate::catalog::entity_models(rows), pk) is Some,
        has_row(rows, pk) <==> exists|i: int| #[trigger] settles(rows, i) && rows[i].pk@ == pk,
{
    let models = crate::catalog::entity_models(rows);
    lemma_row_for(models, pk);
    assert(models.len() == rows.len());
    assert forall|i: int| 0 <= i < rows.len() implies models[i] == rows[i]@ by {}
    match row_for(models, pk) {
        Some(m) => {
            let i = choose|i: int|
                0 <= i < models.len() && #[trigger] models[i] == m && forall|j: int|
                    i < j < models.len() ==> (#[trigger] models[j]).pk != pk;
            assert(rows[i].pk@ == pk);
            assert(has_row(rows, pk));
            assert forall|j: int| i < j < rows.len() implies (#[trigger] rows[j]).pk@
                != rows[i].pk@ by {
                assert(models[j].pk != pk);
            }
            assert(settles(rows, i));
            assert forall|k: int| #[trigger] settles(rows, k) && rows[k].pk@ == pk implies row_for(
                models,
                pk,
            ) == Some(rows[k]@) by {
                if k < i {
                    assert(rows[i].pk@ != rows[k].pk@);
                } else if i < k {
                    assert(models[k].pk != pk);
                }
            }
        },
        None => {
            assert forall|i: int| 0 <= i < rows.len() implies (#[trigger] rows[i]).pk@ != pk by {
                assert(models[i].pk != pk);
            }
        },
    }
}

proof fn lemma_names_key(list: Seq<EntityRef>, pk: Seq<char>)
    ensures
        names_key(list, pk) <==> ref_keys(list).contains(pk),
{
    if names_key(list, pk) {
        let k = choose|k: int| 0 <= k < list.len() && (#[trigger] list[k]).pk@ == pk;
        assert(ref_keys(list)[k] == pk);
    }
    if ref_keys(list).contains(pk) {
        let k = choose|k: int| 0 <= k < ref_keys(list).len() && ref_keys(list)[k] == pk;
        assert(list[k].pk@ == pk);
    }
}

proof fn lemma_names_change(list: Seq<SignatureChange>, pk: Seq<char>)
    ensures
        names_change(list, pk) <==> change_keys(list).contains(pk),
{
    if names_change(list, pk) {
        let k = choose|k: int| 0 <= k < list.len() && (#[trigger] list[k]).pk@ == pk;
        assert(change_keys(list)[k] == pk);
    }
    if change_keys(list).contains(pk) {
        let k = choose|k: int| 0 <= k < change_keys(list).len() && change_keys(list)[k] == pk;
        assert(list[k].pk@ == pk);
    }
}

/// Of a key that both sides have, the two rows that count decide alone: it is
/// listed as changed exactly if hashes are compared, both rows carry one, and
/// the two are different, whatever else the rows say. It is listed with these
/// hashes, shown as on the later side, and never as added or removed.
pub proof fn hashes_alone_make_a_change(
    fam: Family,
    before: FamilyRows,
    after: FamilyRows,
    d: FamilyDelta,
    i: int,
    j: int,
)
    requires
        is_delta(d, fam, before, after),
        settles(before.rows@, i),
        settles(after.rows@, j),
        before.rows@[i].pk@ == after.rows@[j].pk@,
    ensures
        names_change(d.signature_changed@, after.rows@[j].pk@) <==> !before.signatures_unavailable
            && !after.signatures_unavailable && hashes_differ(before.rows@[i], after.rows@[j]),
        !names_key(d.added@, after.rows@[j].pk@),
        !names_key(d.removed@, after.rows@[j].pk@),
        forall|k: int|
            0 <= k < d.signature_changed@.len() && (#[trigger] d.signature_changed@[k]).pk@
                == after.rows@[j].pk@ ==> {
                let c = d.signature_changed@[k];
                &&& c.before_hash is Some && c.before_hash->0@ == before.rows@[i].signature_hash->0@
                &&& c.after_hash is Some && c.after_hash->0@ == after.rows@[j].signature_hash->0@
                &&& c.display@ == after.rows@[j].display@
            },
{
    let pk = after.rows@[j].pk@;
    last_row_counts(before.rows@, pk);
    last_row_counts(after.rows@, pk);
    lemma_names_change(d.signature_changed@, pk);
    lemma_names_key(d.added@, pk);
    lemma_names_key(d.removed@, pk);
    let changed = keys_with(
        before.models(),
        after.models(),
        d.hash_compare_skipped,
        Change::Changed,
    );
    assert(change_keys(d.signature_changed@).contains(pk) <==> changed.contains(pk));
    assert forall|k: int|
        0 <= k < d.signature_changed@.len() && (#[trigger] d.signature_changed@[k]).pk@
            == pk implies d.signature_changed@[k].before_hash is Some
        && d.signature_changed@[k].after_hash is Some by {
        assert(names_change(d.signature_changed@, pk));
    }
}

/// A key that only the later side has is listed as added, shown as its row says;
/// one that only the earlier side has as removed; and nothing else is listed as
/// added, removed or changed. Each list is in ascending order of its keys.
pub proof fn keys_of_one_side_are_added_or_removed(
    fam: Family,
    before: FamilyRows,
    after: FamilyRows,
    d: FamilyDelta,
)
    requires
        is_delta(d, fam, before, after),
    ensures
        forall|pk: Seq<char>| #[trigger]
            names_key(d.added@, pk) <==> has_row(after.rows@, pk) && !has_row(before.rows@, pk),
        forall|pk: Seq<char>| #[trigger]
            names_key(d.removed@, pk) <==> has_row(before.rows@, pk) && !has_row(after.rows@, pk),
        forall|pk: Seq<char>| #[trigger]
            names_change(d.signature_changed@, pk) ==> has_row(before.rows@, pk) && has_row(
                after.rows@,
                pk,
            ),
        forall|j: int, k: int|
            #![trigger settles(after.rows@, j), d.added@[k]]
            settles(after.rows@, j) && 0 <= k < d.added@.len() && d.added@[k].pk@
                == after.rows@[j].pk@ ==> d.added@[k].display@ == after.rows@[j].display@,
        forall|i: int, k: int|
            #![trigger settles(before.rows@, i), d.removed@[k]]
            settles(before.rows@, i) && 0 <= k < d.removed@.len() && d.removed@[k].pk@
                == before.rows@[i].pk@ ==> d.removed@[k].display@ == before.rows@[i].display@,
        forall|k: int, l: int|
            0 <= k < l < d.added@.len() ==> crate::order::text_lt(
                (#[trigger] d.added@[k]).pk@,
                (#[trigger] d.added@[l]).pk@,
            ),
        forall|k: int, l: int|
            0 <= k < l < d.removed@.len() ==> crate::order::text_lt(
                (#[trigger] d.removed@[k]).pk@,
                (#[trigger] d.removed@[l]).pk@,
            ),
        forall|k: int, l: int|
            0 <= k < l < d.signature_changed@.len() ==> crate::order::text_lt(
                (#[trigger] d.signature_changed@[k]).pk@,
                (#[trigger] d.signature_changed@[l]).pk@,
            ),
{
    let b = before.models();
    let a = after.models();
    let skipped = d.hash_compare_skipped;
    let order = crate::order::text_order();
    crate::order::text_order_is_total();
    assert forall|pk: Seq<char>| #[trigger]
        names_key(d.added@, pk) <==> has_row(after.rows@, pk) && !has_row(before.rows@, pk) by {
        last_row_counts(before.rows@, pk);
        last_row_counts(after.rows@, pk);
        lemma_names_key(d.added@, pk);
        assert(ref_keys(d.added@).contains(pk) <==> keys_with(
            b,
            a,
            skipped,
            Change::Added,
        ).contains(pk));
    }
    assert forall|pk: Seq<char>| #[trigger]
        names_key(d.removed@, pk) <==> has_row(before.rows@, pk) && !has_row(after.rows@, pk) by {
        last_row_counts(before.rows@, pk);
        last_row_counts(after.rows@, pk);
        lemma_names_key(d.removed@, pk);
        assert(ref_keys(d.removed@).contains(pk) <==> keys_with(
            b,
            a,
            skipped,
            Change::Removed,
        ).contains(pk));
    }
    assert forall|pk: Seq<char>| #[trigger] names_change(d.signature_changed@, pk) implies has_row(
        before.rows@,
        pk,
    ) && has_row(after.rows@, pk) by {
        last_row_counts(before.rows@, pk);
        last_row_counts(after.rows@, pk);
        lemma_names_change(d.signature_changed@, pk);
        assert(keys_with(b, a, skipped, Change::Changed).contains(pk));
    }
    assert forall|j: int, k: int|
        #![trigger settles(after.rows@, j), d.added@[k]]
        settles(after.rows@, j) && 0 <= k < d.added@.len() && d.added@[k].pk@
            == after.rows@[j].pk@ implies d.added@[k].display@ == after.rows@[j].display@ by {
        last_row_counts(after.rows@, after.rows@[j].pk@);
    }
    assert forall|i: int, k: int|
        #![trigger settles(before.rows@, i), d.removed@[k]]
        settles(before.rows@, i) && 0 <= k < d.removed@.len() && d.removed@[k].pk@
            == before.rows@[i].pk@ implies d.removed@[k].display@ == before.rows@[i].display@ by {
        last_row_counts(before.rows@, before.rows@[i].pk@);
    }
    assert forall|k: int, l: int| 0 <= k < l < d.added@.len() implies crate::order::text_lt(
        (#[trigger] d.added@[k]).pk@,
        (#[trigger] d.added@[l]).pk@,
    ) by {
        let keys = ref_keys(d.added@);
        assert(order(keys[k], keys[l]) && !order(keys[l], keys[k]));
    }
    assert forall|k: int, l: int| 0 <= k < l < d.removed@.len() implies crate::order::text_lt(
        (#[trigger] d.removed@[k]).pk@,
        (#[trigger] d.removed@[l]).pk@,
    ) by {
        let keys = ref_keys(d.removed@);
        assert(order(keys[k], keys[l]) && !order(keys[l], keys[k]));
    }
    assert forall|k: int, l: int|
        0 <= k < l < d.signature_changed@.len() implies crate::order::text_lt(
        (#[trigger] d.signature_changed@[k]).pk@,
        (#[trigger] d.signature_changed@[l]).pk@,
    ) by {
        let keys = change_keys(d.signature_changed@);
        assert(order(keys[k], keys[l]) && !order(keys[l], keys[k]));
    }
}

/// What is counted as unchanged are the keys that both sides have and that are
/// not listed as changed, each once.
pub proof fn unchanged_keys_are_counted_once(
    fam: Family,
    before: FamilyRows,
    after: FamilyRows,
    d: FamilyDelta,
)
    requires
        is_delta(d, fam, before, after),
    ensures
        Set::new(
            |pk: Seq<char>|
                has_row(before.rows@, pk) && has_row(after.rows@, pk) && !names_change(
                    d.signature_changed@,
                    pk,
                ),
        ).finite(),
        d.unchanged == Set::new(
            |pk: Seq<char>|
                has_row(before.rows@, pk) && has_row(after.rows@, pk) && !names_change(
                    d.signature_changed@,
                    pk,
                ),
        ).len(),
{
    let b = before.models();
    let a = after.models();
    let same = keys_with(b, a, d.hash_compare_skipped, Change::Same);
    let changed = keys_with(b, a, d.hash_compare_skipped, Change::Changed);
    let raw = Set::new(
        |pk: Seq<char>|
            has_row(before.rows@, pk) && has_row(after.rows@, pk) && !names_change(
                d.signature_changed@,
                pk,
            ),
    );
    assert forall|pk: Seq<char>| #[trigger] raw.contains(pk) <==> same.contains(pk) by {
        last_row_counts(before.rows@, pk);
        last_row_counts(after.rows@, pk);
        lemma_names_change(d.signature_changed@, pk);
        assert(change_keys(d.signature_changed@).contains(pk) <==> changed.contains(pk));
    }
    assert(raw =~= same);
}

/// Two lists of rows have the same keys and the same hashes, row by row.
pub open spec fn same_but_for_displays(x: FamilyRows, y: FamilyRows) -> bool {
    &&& x.signatures_unavailable == y.signatures_unavailable
    &&& x.rows@.len() == y.rows@.len()
    &&& forall|i: int| #![trigger x.rows@[i]] #![trigger y.rows@[i]]
        0 <= i < x.rows@.len() ==> x.rows@[i].pk@ == y.rows@[i].pk@ && crate::text::text_option(
            x.rows@[i].signature_hash,
        ) == crate::text::text_option(y.rows@[i].signature_hash)
}

proof fn lemma_same_keys(x: FamilyRows, y: FamilyRows, pk: Seq<char>)
    requires
        same_but_for_displays(x, y),
    ensures
        has_row(x.rows@, pk) <==> has_row(y.rows@, pk),
        forall|i: int| #![trigger settles(x.rows@, i)] #![trigger settles(y.rows@, i)]
            settles(x.rows@, i) <==> settles(y.rows@, i),
{
    if has_row(x.rows@, pk) {
        let i = choose|i: int| 0 <= i < x.rows@.len() && (#[trigger] x.rows@[i]).pk@ == pk;
        assert(y.rows@[i].pk@ == pk);
    }
    if has_row(y.rows@, pk) {
        let i = choose|i: int| 0 <= i < y.rows@.len() && (#[trigger] y.rows@[i]).pk@ == pk;
        assert(x.rows@[i].pk@ == pk);
    }
    assert forall|i: int| #![trigger settles(x.rows@, i)] #![trigger settles(y.rows@, i)]
        settles(x.rows@, i) <==> settles(y.rows@, i) by {
        if settles(x.rows@, i) {
            assert forall|j: int| i < j < y.rows@.len() implies (#[trigger] y.rows@[j]).pk@
                != y.rows@[i].pk@ by {
                assert(x.rows@[j].pk@ != x.rows@[i].pk@);
            }
        }
        if settles(y.rows@, i) {
            assert forall|j: int| i < j < x.rows@.len() implies (#[trigger] x.rows@[j]).pk@
                != x.rows@[i].pk@ by {
                assert(y.rows@[j].pk@ != y.rows@[i].pk@);
            }
        }
    }
}

/// What rows are shown as does not matter: sides that differ in nothing else
/// have the same keys added, removed, changed and unchanged, in every family.
pub proof fn displays_do_not_matter(
    fam: Family,
    before: FamilyRows,
    after: FamilyRows,
    d: FamilyDelta,
    other: Family,
    earlier: FamilyRows,
    later: FamilyRows,
    e: FamilyDelta,
)
    requires
        is_delta(d, fam, before, after),
        is_delta(e, other, earlier, later),
        same_but_for_displays(before, earlier),
        same_but_for_displays(after, later),
    ensures
        forall|pk: Seq<char>| #![trigger names_key(d.added@, pk)] #![trigger names_key(e.added@, pk)]
            names_key(d.added@, pk) <==> names_key(e.added@, pk),
        forall|pk: Seq<char>|
            #![trigger names_key(d.removed@, pk)]
            #![trigger names_key(e.removed@, pk)]
            names_key(d.removed@, pk) <==> names_key(e.removed@, pk),
        forall|pk: Seq<char>|
            #![trigger names_change(d.signature_changed@, pk)]
            #![trigger names_change(e.signature_changed@, pk)]
            names_change(d.signature_changed@, pk) <==> names_change(e.signature_changed@, pk),
        d.unchanged == e.unchanged,
{
    keys_of_one_side_are_added_or_removed(fam, before, after, d);
    keys_of_one_side_are_added_or_removed(other, earlier, later, e);
    assert forall|pk: Seq<char>|
        #![trigger names_key(d.added@, pk)]
        #![trigger names_key(e.added@, pk)]
        names_key(d.added@, pk) <==> names_key(e.added@, pk) by {
        lemma_same_keys(before, earlier, pk);
        lemma_same_keys(after, later, pk);
    }
    assert forall|pk: Seq<char>|
        #![trigger names_key(d.removed@, pk)]
        #![trigger names_key(e.removed@, pk)]
        names_key(d.removed@, pk) <==> names_key(e.removed@, pk) by {
        lemma_same_keys(before, earlier, pk);
        lemma_same_keys(after, later, pk);
    }
    assert forall|pk: Seq<char>|
        #![trigger names_change(d.signature_changed@, pk)]
        #![trigger names_change(e.signature_changed@, pk)]
        names_change(d.signature_changed@, pk) <==> names_change(e.signature_changed@, pk) by {
        lemma_same_keys(before, earlier, pk);
        lemma_same_keys(after, later, pk);
        last_row_counts(before.rows@, pk);
        last_row_counts(after.rows@, pk);
        if has_row(before.rows@, pk) && has_row(after.rows@, pk) {
            let i = choose|i: int| #[trigger] settles(before.rows@, i) && before.rows@[i].pk@ == pk;
            let j = choose|j: int| #[trigger] settles(after.rows@, j) && after.rows@[j].pk@ == pk;
            assert(settles(earlier.rows@, i) && settles(later.rows@, j));
            assert(before.rows@[i].pk@ == earlier.rows@[i].pk@);
            assert(after.rows@[j].pk@ == later.rows@[j].pk@);
            hashes_alone_make_a_change(fam, before, after, d, i, j);
            hashes_alone_make_a_change(other, earlier, later, e, i, j);
        }
    }
    unchanged_keys_are_counted_once(fam, before, after, d);
    unchanged_keys_are_counted_once(other, earlier, later, e);
    let p = Set::new(
        |pk: Seq<char>|
            has_row(before.rows@, pk) && has_row(after.rows@, pk) && !names_change(
                d.signature_changed@,
                pk,
            ),
    );
    let q = Set::new(
        |pk: Seq<char>|
            has_row(earlier.rows@, pk) && has_row(later.rows@, pk) && !names_change(
                e.signature_changed@,
                pk,
            ),
    );
    assert forall|pk: Seq<char>| #[trigger] p.contains(pk) <==> q.contains(pk) by {
        lemma_same_keys(before, earlier, pk);
        lemma_same_keys(after, later, pk);
    }
    assert(p =~= q);
}

/// The lists of a difference are empty exactly if no key calls for an entry.
pub proof fn lists_are_filled_exactly_when_called_for(
    fam: Family,
    before: FamilyRows,
    after: FamilyRows,
    d: FamilyDelta,
)
    requires
        is_delta(d, fam, before, after),
    ensures
        d.added@.len() > 0 <==> some_key_is_missing(after, before),
        d.removed@.len() > 0 <==> some_key_is_missing(before, after),
        d.signature_changed@.len() > 0 <==> some_hash_differs(before, after),
{
    keys_of_one_side_are_added_or_removed(fam, before, after, d);
    if d.added@.len() > 0 {
        let pk = d.added@[0].pk@;
        assert(names_key(d.added@, pk));
        let i = choose|i: int| 0 <= i < after.rows@.len() && (#[trigger] after.rows@[i]).pk@ == pk;
        assert(!has_row(before.rows@, after.rows@[i].pk@));
    }
    if some_key_is_missing(after, before) {
        let i = choose|i: int|
            0 <= i < after.rows@.len() && !has_row(before.rows@, (#[trigger] after.rows@[i]).pk@);
        assert(has_row(after.rows@, after.rows@[i].pk@));
        assert(names_key(d.added@, after.rows@[i].pk@));
    }
    if d.removed@.len() > 0 {
        let pk = d.removed@[0].pk@;
        assert(names_key(d.removed@, pk));
        let i = choose|i: int|
            0 <= i < before.rows@.len() && (#[trigger] before.rows@[i]).pk@ == pk;
        assert(!has_row(after.rows@, before.rows@[i].pk@));
    }
    if some_key_is_missing(before, after) {
        let i = choose|i: int|
            0 <= i < before.rows@.len() && !has_row(after.rows@, (#[trigger] before.rows@[i]).pk@);
        assert(has_row(before.rows@, before.rows@[i].pk@));
        assert(names_key(d.removed@, before.rows@[i].pk@));
    }
    if d.signature_changed@.len() > 0 {
        let pk = d.signature_changed@[0].pk@;
        assert(names_change(d.signature_changed@, pk));
        last_row_counts(before.rows@, pk);
        last_row_counts(after.rows@, pk);
        let i = choose|i: int| #[trigger] settles(before.rows@, i) && before.rows@[i].pk@ == pk;
        let j = choose|j: int| #[trigger] settles(after.rows@, j) && after.rows@[j].pk@ == pk;
        hashes_alone_make_a_change(fam, before, after, d, i, j);
    }
    if some_hash_differs(before, after) {
        let (i, j) = choose|i: int, j: int| #[trigger]
            settles(before.rows@, i) && #[trigger] settles(after.rows@, j) && before.rows@[i].pk@
                == after.rows@[j].pk@ && hashes_differ(before.rows@[i], after.rows@[j]);
        hashes_alone_make_a_change(fam, before, after, d, i, j);
    }
}

/// Whether hashes were compared is told: not at all if a side has none, not for
/// every row if a row that counts lacks one while the other side has its key,
/// and otherwise nothing is told. The reason names the sides that have none.
pub proof fn missing_hashes_are_told(
    fam: Family,
    before: FamilyRows,
    after: FamilyRows,
    d: FamilyDelta,
)
    requires
        is_delta(d, fam, before, after),
    ensures
        d.compared,
        d.hash_compare_skipped <==> before.signatures_unavailable || after.signatures_unavailable,
        d.skip_reason is None <==> !d.hash_compare_skipped && forall|i: int, j: int| #[trigger]
            settles(before.rows@, i) && #[trigger] settles(after.rows@, j) && before.rows@[i].pk@
                == after.rows@[j].pk@ ==> before.rows@[i].signature_hash is Some
                && after.rows@[j].signature_hash is Some,
        before.signatures_unavailable && !after.signatures_unavailable ==> d.skip_reason->0@
            == "signature_hash unavailable on "@ + "before"@,
        !before.signatures_unavailable && after.signatures_unavailable ==> d.skip_reason->0@
            == "signature_hash unavailable on "@ + "after"@,
        before.signatures_unavailable && after.signatures_unavailable ==> d.skip_reason->0@
            == "signature_hash unavailable on "@ + "both sides"@,
{
    let b = before.models();
    let a = after.models();
    reveal_strlit("signature_hash unavailable on ");
    reveal_strlit("before");
    reveal_strlit("after");
    reveal_strlit("both sides");
    reveal_strlit("signature_hash unavailable on before");
    reveal_strlit("signature_hash unavailable on after");
    reveal_strlit("signature_hash unavailable on both sides");
    assert("signature_hash unavailable on before"@ =~= "signature_hash unavailable on "@
        + "before"@);
    assert("signature_hash unavailable on after"@ =~= "signature_hash unavailable on "@ + "after"@);
    assert("signature_hash unavailable on both sides"@ =~= "signature_hash unavailable on "@
        + "both sides"@);
    if partly_by_name(b, a) {
        let pk = choose|pk: Seq<char>| #[trigger] name_only(b, a, pk);
        last_row_counts(before.rows@, pk);
        last_row_counts(after.rows@, pk);
        let i = choose|i: int| #[trigger] settles(before.rows@, i) && before.rows@[i].pk@ == pk;
        let j = choose|j: int| #[trigger] settles(after.rows@, j) && after.rows@[j].pk@ == pk;
        assert(settles(before.rows@, i) && settles(after.rows@, j));
    }
    assert forall|i: int, j: int| #[trigger]
        settles(before.rows@, i) && #[trigger] settles(after.rows@, j) && before.rows@[i].pk@
            == after.rows@[j].pk@ && (before.rows@[i].signature_hash is None
            || after.rows@[j].signature_hash is None) implies partly_by_name(b, a) by {
        last_row_counts(before.rows@, before.rows@[i].pk@);
        last_row_counts(after.rows@, before.rows@[i].pk@);
        assert(name_only(b, a, before.rows@[i].pk@));
    }
}

/// A severity is a number: the more a rating asks of the reader, the larger.
pub open spec fn severity(c: Semver) -> int {
    match c {
        Semver::Patch => 0,
        Semver::Minor => 1,
        Semver::MinorWithChanges => 2,
        Semver::Major => 3,
    }
}

/// The rating of differences is that of the worst among them: putting two lists
/// of differences together rates as the worse of the two.
pub proof fn worst_difference_decides(
    x: &[FamilyDelta],
    y: &[FamilyDelta],
    both: &[FamilyDelta],
    a: Semver,
    b: Semver,
    c: Semver,
)
    requires
        call_ensures(classify, (x,), a),
        call_ensures(classify, (y,), b),
        call_ensures(classify, (both,), c),
        both@ == x@ + y@,
    ensures
        severity(c) == if severity(a) < severity(b) {
            severity(b)
        } else {
            severity(a)
        },
{
    assert forall|i: int| 0 <= i < x@.len() implies x@[i] == both@[i] by {}
    assert forall|i: int| 0 <= i < y@.len() implies #[trigger] y@[i] == both@[x@.len() + i] by {}
    assert(any_removed(both@) <==> any_removed(x@) || any_removed(y@)) by {
        if any_removed(both@) {
            let i = choose|i: int| 0 <= i < both@.len() && (#[trigger] both@[i]).removed@.len() > 0;
            if i >= x@.len() {
                assert(y@[i - x@.len()].removed@.len() > 0);
            } else {
                assert(x@[i].removed@.len() > 0);
            }
        }
        if any_removed(y@) {
            let i = choose|i: int| 0 <= i < y@.len() && (#[trigger] y@[i]).removed@.len() > 0;
            assert(both@[x@.len() + i].removed@.len() > 0);
        }
    }
    assert(any_added(both@) <==> any_added(x@) || any_added(y@)) by {
        if any_added(both@) {
            let i = choose|i: int| 0 <= i < both@.len() && (#[trigger] both@[i]).added@.len() > 0;
            if i >= x@.len() {
                assert(y@[i - x@.len()].added@.len() > 0);
            } else {
                assert(x@[i].added@.len() > 0);
            }
        }
        if any_added(y@) {
            let i = choose|i: int| 0 <= i < y@.len() && (#[trigger] y@[i]).added@.len() > 0;
            assert(both@[x@.len() + i].added@.len() > 0);
        }
    }
    assert(any_signature_changed(both@) <==> any_signature_changed(x@) || any_signature_changed(
        y@,
    )) by {
        if any_signature_changed(both@) {
            let i = choose|i: int|
                0 <= i < both@.len() && (#[trigger] both@[i]).signature_changed@.len() > 0;
            if i >= x@.len() {
                assert(y@[i - x@.len()].signature_changed@.len() > 0);
            } else {
                assert(x@[i].signature_changed@.len() > 0);
            }
        }
        if any_signature_changed(y@) {
            let i = choose|i: int|
                0 <= i < y@.len() && (#[trigger] y@[i]).signature_changed@.len() > 0;
            assert(both@[x@.len() + i].signature_changed@.len() > 0);
        }
    }
}

/// A rating tells which lists are filled: major exactly if some key is removed;
/// where none is, changes are flagged exactly if some key changed; where none
/// did, minor exactly if some key is added; and a patch only if every list is
/// empty.
pub proof fn ratings_tell_what_happened(deltas: &[FamilyDelta], c: Semver)
    requires
        call_ensures(classify, (deltas,), c),
    ensures
        severity(c) < severity(Semver::Major) <==> forall|i: int|
            0 <= i < deltas@.len() ==> (#[trigger] deltas@[i]).removed@.len() == 0,
        severity(c) < severity(Semver::MinorWithChanges) <==> forall|i: int|
            0 <= i < deltas@.len() ==> (#[trigger] deltas@[i]).removed@.len() == 0
                && deltas@[i].signature_changed@.len() == 0,
        severity(c) < severity(Semver::Minor) <==> forall|i: int|
            0 <= i < deltas@.len() ==> (#[trigger] deltas@[i]).removed@.len() == 0
                && deltas@[i].signature_changed@.len() == 0 && deltas@[i].added@.len() == 0,
{
}

} // verus!
