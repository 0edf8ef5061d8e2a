//! The grouping engine: partitions a flat child row set by parent key while
//! preserving parent alignment and child order.
//!
//! Every nested relationship of the registry (version to dependency, version
//! to content, version to text, dependency to description, package to
//! description, package to maintainer) is expressed as one invocation of
//! this primitive.

use vstd::prelude::*;

use crate::error::DbError;
use crate::strutil::{find_key_i32, find_key_name, name_views};

verus! {

/// The children whose parallel key equals `key`, in their original order.
pub open spec fn select_by_key<C, K>(children: Seq<C>, keys: Seq<K>, key: K) -> Seq<C>
    decreases children.len(),
{
    if children.len() == 0 {
        Seq::empty()
    } else {
        let rest = select_by_key(children.drop_last(), keys.drop_last(), key);
        if keys.last() == key {
            rest.push(children.last())
        } else {
            rest
        }
    }
}

/// No key occurs twice.
pub open spec fn distinct_keys<K>(keys: Seq<K>) -> bool {
    forall|i: int, j: int| 0 <= i < j < keys.len() ==> keys[i] != keys[j]
}

/// What both grouping functions guarantee, over the key sequences.
pub open spec fn grouped<C, K>(
    r: Result<Vec<Vec<C>>, DbError>,
    children: Seq<C>,
    child_keys: Seq<K>,
    parent_keys: Seq<K>,
) -> bool {
    match r {
        Ok(groups) => {
            &&& groups@.len() == parent_keys.len()
            &&& forall|i: int|
                0 <= i < parent_keys.len() ==> #[trigger] groups@[i]@ == select_by_key(
                    children,
                    child_keys,
                    parent_keys[i],
                )
            &&& forall|j: int|
                0 <= j < child_keys.len() ==> parent_keys.contains(#[trigger] child_keys[j])
        },
        Err(e) => {
            &&& e == DbError::InternalConsistency
            &&& exists|j: int|
                0 <= j < child_keys.len() && !parent_keys.contains(#[trigger] child_keys[j])
        },
    }
}

proof fn lemma_select_push<C, K>(children: Seq<C>, keys: Seq<K>, c: C, k: K, key: K)
    requires
        keys.len() == children.len(),
    ensures
        select_by_key(children.push(c), keys.push(k), key) == if k == key {
            select_by_key(children, keys, key).push(c)
        } else {
            select_by_key(children, keys, key)
        },
{
    assert(children.push(c).drop_last() =~= children);
    assert(keys.push(k).drop_last() =~= keys);
}

/// Groups `children` by the parents' keys: one group per parent, aligned by
/// index. `child_keys` runs parallel to `children`; a child whose key
/// matches no parent is an internal consistency violation.
pub fn group_by_id<C>(children: Vec<C>, child_keys: &Vec<i32>, parent_keys: &Vec<i32>) -> (r:
    Result<Vec<Vec<C>>, DbError>)
    requires
        child_keys@.len() == children@.len(),
        distinct_keys(parent_keys@),
    ensures
        grouped(r, children@, child_keys@, parent_keys@),
{
    let ghost cs = children@;
    let ghost ck = child_keys@;
    let ghost pk = parent_keys@;

    let mut groups: Vec<Vec<C>> = Vec::new();
    let mut i: usize = 0;
    while i < parent_keys.len()
        invariant
            groups@.len() == i,
            i <= pk.len(),
            pk == parent_keys@,
            forall|t: int| 0 <= t < i ==> #[trigger] groups@[t]@ == Seq::<C>::empty(),
        decreases pk.len() - i,
    {
        groups.push(Vec::new());
        i += 1;
    }

    let mut rest = children;
    let mut j: usize = 0;
    while j < child_keys.len()
        invariant
            ck.len() == cs.len(),
            j <= cs.len(),
            ck == child_keys@,
            pk == parent_keys@,
            distinct_keys(pk),
            rest@ == cs.skip(j as int),
            groups@.len() == pk.len(),
            forall|t: int|
                0 <= t < pk.len() ==> #[trigger] groups@[t]@ == select_by_key(
                    cs.take(j as int),
                    ck.take(j as int),
                    pk[t],
                ),
            forall|jj: int| 0 <= jj < j ==> pk.contains(#[trigger] ck[jj]),
        decreases cs.len() - j,
    {
        assert(rest@.len() > 0);
        let c = rest.remove(0);
        proof {
            assert(c == cs[j as int]);
            assert(rest@ =~= cs.skip(j as int + 1));
        }
        let key = child_keys[j];
        match find_key_i32(parent_keys, key) {
            None => {
                assert(!pk.contains(ck[j as int]));
                return Err(DbError::InternalConsistency);
            },
            Some(p) => {
                let mut g = groups.remove(p);
                g.push(c);
                groups.insert(p, g);
                proof {
                    assert(cs.take(j as int + 1) =~= cs.take(j as int).push(cs[j as int]));
                    assert(ck.take(j as int + 1) =~= ck.take(j as int).push(ck[j as int]));
                    assert forall|t: int| 0 <= t < pk.len() implies #[trigger] groups@[t]@
                        == select_by_key(cs.take(j as int + 1), ck.take(j as int + 1), pk[t]) by {
                        lemma_select_push(
                            cs.take(j as int),
                            ck.take(j as int),
                            cs[j as int],
                            ck[j as int],
                            pk[t],
                        );
                    }
                    assert(pk.contains(ck[j as int]));
                }
            },
        }
        j += 1;
    }
    proof {
        assert(cs.take(cs.len() as int) =~= cs);
        assert(ck.take(ck.len() as int) =~= ck);
    }
    Ok(groups)
}

/// Groups `children` by the parents' string keys, compared by characters:
/// one group per parent, aligned by index. A child whose key matches no
/// parent is an internal consistency violation.
pub fn group_by_name<C>(children: Vec<C>, child_keys: &Vec<String>, parent_keys: &Vec<String>) -> (r:
    Result<Vec<Vec<C>>, DbError>)
    requires
        child_keys@.len() == children@.len(),
        distinct_keys(name_views(parent_keys@)),
    ensures
        grouped(r, children@, name_views(child_keys@), name_views(parent_keys@)),
{
    let ghost cs = children@;
    let ghost ck = name_views(child_keys@);
    let ghost pk = name_views(parent_keys@);

    let mut groups: Vec<Vec<C>> = Vec::new();
    let mut i: usize = 0;
    while i < parent_keys.len()
        invariant
            groups@.len() == i,
            i <= pk.len(),
            pk == name_views(parent_keys@),
            pk.len() == parent_keys@.len(),
            forall|t: int| 0 <= t < i ==> #[trigger] groups@[t]@ == Seq::<C>::empty(),
        decreases pk.len() - i,
    {
        groups.push(Vec::new());
        i += 1;
    }

    let mut rest = children;
    let mut j: usize = 0;
    while j < child_keys.len()
        invariant
            ck.len() == cs.len(),
            j <= cs.len(),
            ck == name_views(child_keys@),
            ck.len() == child_keys@.len(),
            pk == name_views(parent_keys@),
            pk.len() == parent_keys@.len(),
            distinct_keys(pk),
            rest@ == cs.skip(j as int),
            groups@.len() == pk.len(),
            forall|t: int|
                0 <= t < pk.len() ==> #[trigger] groups@[t]@ == select_by_key(
                    cs.take(j as int),
                    ck.take(j as int),
                    pk[t],
                ),
            forall|jj: int| 0 <= jj < j ==> pk.contains(#[trigger] ck[jj]),
        decreases cs.len() - j,
    {
        assert(rest@.len() > 0);
        let c = rest.remove(0);
        proof {
            assert(c == cs[j as int]);
            assert(rest@ =~= cs.skip(j as int + 1));
        }
        let key = &child_keys[j];
        assert(key@ == ck[j as int]);
        match find_key_name(parent_keys, key) {
            None => {
                assert(!pk.contains(ck[j as int])) by {
                    assert forall|t: int| 0 <= t < pk.len() implies pk[t] != ck[j as int] by {
                        assert(pk[t] == parent_keys@[t]@);
                    }
                }
                return Err(DbError::InternalConsistency);
            },
            Some(p) => {
                let mut g = groups.remove(p);
                g.push(c);
                groups.insert(p, g);
                proof {
                    assert(pk[p as int] == parent_keys@[p as int]@);
                    assert(cs.take(j as int + 1) =~= cs.take(j as int).push(cs[j as int]));
                    assert(ck.take(j as int + 1) =~= ck.take(j as int).push(ck[j as int]));
                    assert forall|t: int| 0 <= t < pk.len() implies #[trigger] groups@[t]@
                        == select_by_key(cs.take(j as int + 1), ck.take(j as int + 1), pk[t]) by {
                        lemma_select_push(
                            cs.take(j as int),
                            ck.take(j as int),
                            cs[j as int],
                            ck[j as int],
                            pk[t],
                        );
                    }
                    assert(pk.contains(ck[j as int]));
                }
            },
        }
        j += 1;
    }
    proof {
        assert(cs.take(cs.len() as int) =~= cs);
        assert(ck.take(ck.len() as int) =~= ck);
    }
    Ok(groups)
}

/// Every selected element comes from the child sequence.
pub proof fn lemma_select_elements<C, K>(children: Seq<C>, keys: Seq<K>, key: K)
    ensures
        forall|i: int|
            0 <= i < select_by_key(children, keys, key).len() ==> exists|t: int|
                0 <= t < children.len() && children[t] == #[trigger] select_by_key(
                    children,
                    keys,
                    key,
                )[i],
    decreases children.len(),
{
    if children.len() > 0 {
        let c0 = children.drop_last();
        let k0 = keys.drop_last();
        lemma_select_elements(c0, k0, key);
        let sub = select_by_key(c0, k0, key);
        assert forall|i: int| 0 <= i < select_by_key(children, keys, key).len() implies exists|
            t: int,
        |
            0 <= t < children.len() && children[t] == #[trigger] select_by_key(
                children,
                keys,
                key,
            )[i] by {
            if i < sub.len() {
                let t = choose|t: int| 0 <= t < c0.len() && c0[t] == sub[i];
                assert(children[t] == select_by_key(children, keys, key)[i]);
            } else {
                assert(select_by_key(children, keys, key)[i] == children.last());
                assert(children[children.len() - 1] == select_by_key(children, keys, key)[i]);
            }
        }
    }
}

/// Selecting from zipped pairs and projecting the first components equals
/// selecting from the first components alone.
pub proof fn lemma_select_zip_first<A, B, K>(
    pairs: Seq<(A, B)>,
    firsts: Seq<A>,
    keys: Seq<K>,
    key: K,
)
    requires
        pairs.len() == firsts.len(),
        keys.len() == firsts.len(),
        forall|i: int| 0 <= i < pairs.len() ==> (#[trigger] pairs[i]).0 == firsts[i],
    ensures
        select_by_key(pairs, keys, key).map_values(|p: (A, B)| p.0) == select_by_key(
            firsts,
            keys,
            key,
        ),
    decreases pairs.len(),
{
    if pairs.len() > 0 {
        let p0 = pairs.drop_last();
        let f0 = firsts.drop_last();
        let k0 = keys.drop_last();
        assert(forall|i: int| 0 <= i < p0.len() ==> (#[trigger] p0[i]).0 == f0[i]);
        lemma_select_zip_first(p0, f0, k0, key);
        if keys.last() == key {
            assert(pairs.last().0 == firsts.last());
            assert(select_by_key(pairs, keys, key).map_values(|p: (A, B)| p.0) =~= select_by_key(
                firsts,
                keys,
                key,
            ));
        }
    }
}

/// Selecting from two parallel sequences under the same keys keeps any
/// pointwise relation between them.
pub proof fn lemma_select_parallel<A, B, K>(
    xs: Seq<A>,
    ys: Seq<B>,
    keys: Seq<K>,
    key: K,
    rel: spec_fn(A, B) -> bool,
)
    requires
        xs.len() == ys.len(),
        keys.len() == xs.len(),
        forall|i: int| 0 <= i < xs.len() ==> rel(#[trigger] xs[i], ys[i]),
    ensures
        select_by_key(xs, keys, key).len() == select_by_key(ys, keys, key).len(),
        forall|j: int|
            0 <= j < select_by_key(xs, keys, key).len() ==> rel(
                #[trigger] select_by_key(xs, keys, key)[j],
                select_by_key(ys, keys, key)[j],
            ),
    decreases xs.len(),
{
    if xs.len() > 0 {
        let x0 = xs.drop_last();
        let y0 = ys.drop_last();
        let k0 = keys.drop_last();
        assert(forall|i: int| 0 <= i < x0.len() ==> rel(#[trigger] x0[i], y0[i]));
        lemma_select_parallel(x0, y0, k0, key, rel);
        if keys.last() == key {
            assert(rel(xs.last(), ys.last()));
            assert(select_by_key(xs, keys, key).last() == xs.last());
            assert(select_by_key(ys, keys, key).last() == ys.last());
        }
    }
}

/// How many of the keys equal `key`.
pub open spec fn count_key<K>(keys: Seq<K>, key: K) -> int
    decreases keys.len(),
{
    if keys.len() == 0 {
        0
    } else {
        count_key(keys.drop_last(), key) + if keys.last() == key {
            1int
        } else {
            0int
        }
    }
}

proof fn lemma_count_key_distinct<K>(keys: Seq<K>, key: K)
    requires
        distinct_keys(keys),
        keys.contains(key),
    ensures
        count_key(keys, key) == 1,
    decreases keys.len(),
{
    if keys.len() > 0 {
        let head = keys.drop_last();
        assert(distinct_keys(head));
        if keys.last() == key {
            assert(!head.contains(key)) by {
                if head.contains(key) {
                    let i = choose|i: int| 0 <= i < head.len() && head[i] == key;
                    assert(keys[i] == keys[keys.len() - 1]);
                }
            }
            lemma_count_key_absent(head, key);
        } else {
            assert(head.contains(key)) by {
                let i = choose|i: int| 0 <= i < keys.len() && keys[i] == key;
                assert(head[i] == key);
            }
            lemma_count_key_distinct(head, key);
        }
    }
}

proof fn lemma_count_key_absent<K>(keys: Seq<K>, key: K)
    requires
        !keys.contains(key),
    ensures
        count_key(keys, key) == 0,
    decreases keys.len(),
{
    if keys.len() > 0 {
        let head = keys.drop_last();
        assert(!head.contains(key)) by {
            if head.contains(key) {
                let i = choose|i: int| 0 <= i < head.len() && head[i] == key;
                assert(keys[i] == key);
            }
        }
        lemma_count_key_absent(head, key);
    }
}

/// Sum of the group sizes over all parent keys.
pub open spec fn sum_group_lens<C, K>(children: Seq<C>, keys: Seq<K>, parent_keys: Seq<K>) -> int
    decreases parent_keys.len(),
{
    if parent_keys.len() == 0 {
        0
    } else {
        sum_group_lens(children, keys, parent_keys.drop_last()) + select_by_key(
            children,
            keys,
            parent_keys.last(),
        ).len()
    }
}

proof fn lemma_sum_group_lens_empty<C, K>(children: Seq<C>, keys: Seq<K>, parent_keys: Seq<K>)
    requires
        children.len() == 0,
    ensures
        sum_group_lens(children, keys, parent_keys) == 0,
    decreases parent_keys.len(),
{
    if parent_keys.len() > 0 {
        lemma_sum_group_lens_empty(children, keys, parent_keys.drop_last());
    }
}

proof fn lemma_sum_group_lens_push<C, K>(
    children: Seq<C>,
    keys: Seq<K>,
    parent_keys: Seq<K>,
    c: C,
    k: K,
)
    requires
        keys.len() == children.len(),
    ensures
        sum_group_lens(children.push(c), keys.push(k), parent_keys) == sum_group_lens(
            children,
            keys,
            parent_keys,
        ) + count_key(parent_keys, k),
    decreases parent_keys.len(),
{
    if parent_keys.len() > 0 {
        lemma_sum_group_lens_push(children, keys, parent_keys.drop_last(), c, k);
        lemma_select_push(children, keys, c, k, parent_keys.last());
    }
}

/// Law: grouping a child set under pairwise-distinct parent keys that cover
/// every child key partitions the children. Each group holds exactly the
/// children bearing that parent's key, in their original relative order
/// (this is what `select_by_key` states), and the group sizes add up to the
/// whole child set, so every child lands in exactly one group.
pub proof fn lemma_group_partitions<C, K>(children: Seq<C>, keys: Seq<K>, parent_keys: Seq<K>)
    requires
        keys.len() == children.len(),
        distinct_keys(parent_keys),
        forall|j: int| 0 <= j < keys.len() ==> parent_keys.contains(#[trigger] keys[j]),
    ensures
        sum_group_lens(children, keys, parent_keys) == children.len(),
    decreases children.len(),
{
    if children.len() == 0 {
        lemma_sum_group_lens_empty(children, keys, parent_keys);
    } else {
        let c0 = children.drop_last();
        let k0 = keys.drop_last();
        assert(forall|j: int| 0 <= j < k0.len() ==> parent_keys.contains(#[trigger] k0[j]))
            by {
            assert(forall|j: int| 0 <= j < k0.len() ==> k0[j] == keys[j]);
        }
        lemma_group_partitions(c0, k0, parent_keys);
        lemma_sum_group_lens_push(c0, k0, parent_keys, children.last(), keys.last());
        lemma_count_key_distinct(parent_keys, keys.last());
        assert(children =~= c0.push(children.last()));
        assert(keys =~= k0.push(keys.last()));
    }
}

} // verus!
