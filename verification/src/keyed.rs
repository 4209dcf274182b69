use vstd::prelude::*;

verus! {

/// No two elements of `s` carry the same key.
pub open spec fn unique_keys<T>(s: Seq<T>, key: spec_fn(T) -> u32) -> bool {
    forall|i: int, j: int|
        0 <= i < s.len() && 0 <= j < s.len() && i != j ==> key(s[i]) != key(s[j])
}

/// The mapping a keyed sequence denotes: each element under its key, later
/// elements overriding earlier ones.
pub open spec fn key_map<T, V>(s: Seq<T>, key: spec_fn(T) -> u32, val: spec_fn(T) -> V) -> Map<
    u32,
    V,
>
    decreases s.len(),
{
    if s.len() == 0 {
        Map::empty()
    } else {
        key_map(s.drop_last(), key, val).insert(key(s.last()), val(s.last()))
    }
}

/// A key is in the mapping exactly when some element carries it.
pub proof fn lemma_key_map_dom<T, V>(s: Seq<T>, key: spec_fn(T) -> u32, val: spec_fn(T) -> V)
    ensures
        forall|a: u32|
            #[trigger] key_map(s, key, val).contains_key(a) <==> exists|i: int|
                0 <= i < s.len() && key(#[trigger] s[i]) == a,
    decreases s.len(),
{
    if s.len() > 0 {
        lemma_key_map_dom(s.drop_last(), key, val);
        assert forall|a: u32| #[trigger] key_map(s, key, val).contains_key(a) implies exists|i: int|
            0 <= i < s.len() && key(#[trigger] s[i]) == a by {
            if a == key(s.last()) {
                assert(key(s[s.len() - 1]) == a);
            } else {
                assert(key_map(s.drop_last(), key, val).contains_key(a));
                let i = choose|i: int| 0 <= i < s.drop_last().len() && key(#[trigger] s.drop_last()[i]) == a;
                assert(s.drop_last()[i] == s[i]);
            }
        }
        assert forall|a: u32|
            (exists|i: int| 0 <= i < s.len() && key(#[trigger] s[i]) == a) implies #[trigger] key_map(
            s,
            key,
            val,
        ).contains_key(a) by {
            let i = choose|i: int| 0 <= i < s.len() && key(#[trigger] s[i]) == a;
            if i < s.len() - 1 {
                assert(s.drop_last()[i] == s[i]);
                assert(key(s.drop_last()[i]) == a);
                assert(key_map(s.drop_last(), key, val).contains_key(a));
            } else {
                assert(a == key(s.last()));
            }
        }
    }
}

/// With unique keys, the mapping sends each element's key to that element.
pub proof fn lemma_key_map_val<T, V>(s: Seq<T>, key: spec_fn(T) -> u32, val: spec_fn(T) -> V)
    requires
        unique_keys(s, key),
    ensures
        forall|i: int|
            0 <= i < s.len() ==> key_map(s, key, val).contains_key(key(#[trigger] s[i]))
                && key_map(s, key, val)[key(s[i])] == val(s[i]),
    decreases s.len(),
{
    if s.len() > 0 {
        lemma_key_map_val(s.drop_last(), key, val);
        assert forall|i: int| 0 <= i < s.len() implies key_map(s, key, val).contains_key(
            key(#[trigger] s[i]),
        ) && key_map(s, key, val)[key(s[i])] == val(s[i]) by {
            if i < s.len() - 1 {
                assert(s.drop_last()[i] == s[i]);
                assert(key(s.last()) != key(s[i]));
            }
        }
    }
}

/// With unique keys, the mapping is finite and has one entry per element.
pub proof fn lemma_key_map_len<T, V>(s: Seq<T>, key: spec_fn(T) -> u32, val: spec_fn(T) -> V)
    requires
        unique_keys(s, key),
    ensures
        key_map(s, key, val).dom().finite(),
        key_map(s, key, val).len() == s.len(),
    decreases s.len(),
{
    if s.len() == 0 {
        assert(key_map(s, key, val).dom() =~= Set::<u32>::empty());
    } else {
        lemma_key_map_len(s.drop_last(), key, val);
        lemma_key_map_dom(s.drop_last(), key, val);
        assert forall|i: int|
            0 <= i < s.drop_last().len() implies key(#[trigger] s.drop_last()[i]) != key(
            s.last(),
        ) by {
            assert(s.drop_last()[i] == s[i]);
        }
        assert(!key_map(s.drop_last(), key, val).contains_key(key(s.last())));
    }
}

/// Replacing the element at `i` by one with the same key replaces that
/// key's entry in the mapping.
pub proof fn lemma_key_map_update<T, V>(
    s: Seq<T>,
    i: int,
    t: T,
    key: spec_fn(T) -> u32,
    val: spec_fn(T) -> V,
)
    requires
        unique_keys(s, key),
        0 <= i < s.len(),
        key(t) == key(s[i]),
    ensures
        unique_keys(s.update(i, t), key),
        key_map(s.update(i, t), key, val) == key_map(s, key, val).insert(key(t), val(t)),
{
    let s1 = s.update(i, t);
    let m0 = key_map(s, key, val);
    assert forall|k: int| 0 <= k < s1.len() implies key(#[trigger] s1[k]) == key(s[k]) by {}
    assert(unique_keys(s1, key));
    lemma_key_map_dom(s, key, val);
    lemma_key_map_val(s, key, val);
    lemma_key_map_dom(s1, key, val);
    lemma_key_map_val(s1, key, val);
    assert(key_map(s1, key, val) =~= m0.insert(key(t), val(t))) by {
        assert forall|x: u32| #[trigger] key_map(s1, key, val).contains_key(x) implies m0.insert(
            key(t),
            val(t),
        ).contains_key(x) by {
            let j = choose|j: int| 0 <= j < s1.len() && key(#[trigger] s1[j]) == x;
            assert(key(s[j]) == x);
        }
        assert forall|x: u32| m0.insert(key(t), val(t)).contains_key(x) implies
            #[trigger] key_map(s1, key, val).contains_key(x) by {
            if x == key(t) {
                assert(key(s1[i]) == x);
            } else {
                let j = choose|j: int| 0 <= j < s.len() && key(#[trigger] s[j]) == x;
                assert(key(s1[j]) == x);
            }
        }
        assert forall|x: u32| key_map(s1, key, val).contains_key(x) implies key_map(s1, key, val)[x]
            == m0.insert(key(t), val(t))[x] by {
            if x == key(t) {
                assert(key(s1[i]) == x);
                assert(key_map(s1, key, val)[key(s1[i])] == val(s1[i]));
            } else {
                let j = choose|j: int| 0 <= j < s1.len() && key(#[trigger] s1[j]) == x;
                assert(j != i);
                assert(s1[j] == s[j]);
                assert(key_map(s1, key, val)[key(s1[j])] == val(s1[j]));
                assert(key_map(s, key, val)[key(s[j])] == val(s[j]));
            }
        }
    }
}

/// Appending an element with a fresh key adds that key's entry.
pub proof fn lemma_key_map_push<T, V>(s: Seq<T>, t: T, key: spec_fn(T) -> u32, val: spec_fn(
    T,
) -> V)
    requires
        unique_keys(s, key),
        forall|j: int| 0 <= j < s.len() ==> key(#[trigger] s[j]) != key(t),
    ensures
        unique_keys(s.push(t), key),
        key_map(s.push(t), key, val) == key_map(s, key, val).insert(key(t), val(t)),
{
    let s1 = s.push(t);
    assert forall|k: int, l: int|
        0 <= k < s1.len() && 0 <= l < s1.len() && k != l implies key(#[trigger] s1[k]) != key(
        #[trigger] s1[l],
    ) by {
        if k < s.len() && l < s.len() {
            assert(s1[k] == s[k] && s1[l] == s[l]);
        } else if k < s.len() {
            assert(s1[k] == s[k] && s1[l] == t);
        } else {
            assert(s1[k] == t && s1[l] == s[l]);
        }
    }
    assert(s1.drop_last() =~= s);
    assert(s1.last() == t);
}

/// Removing the element at `i` removes exactly that key's entry.
pub proof fn lemma_key_map_remove<T, V>(
    s: Seq<T>,
    i: int,
    key: spec_fn(T) -> u32,
    val: spec_fn(T) -> V,
)
    requires
        unique_keys(s, key),
        0 <= i < s.len(),
    ensures
        unique_keys(s.remove(i), key),
        key_map(s.remove(i), key, val) == key_map(s, key, val).remove(key(s[i])),
{
    let s1 = s.remove(i);
    let m0 = key_map(s, key, val);
    let a = key(s[i]);
    assert forall|k: int, l: int|
        0 <= k < s1.len() && 0 <= l < s1.len() && k != l implies key(#[trigger] s1[k]) != key(
        #[trigger] s1[l],
    ) by {
        let k0: int = if k < i { k } else { k + 1 };
        let l0: int = if l < i { l } else { l + 1 };
        assert(s1[k] == s[k0] && s1[l] == s[l0]);
    }
    lemma_key_map_dom(s, key, val);
    lemma_key_map_val(s, key, val);
    lemma_key_map_dom(s1, key, val);
    lemma_key_map_val(s1, key, val);
    assert(key_map(s1, key, val) =~= m0.remove(a)) by {
        assert forall|x: u32| #[trigger] key_map(s1, key, val).contains_key(x) implies m0.remove(
            a,
        ).contains_key(x) by {
            let j = choose|j: int| 0 <= j < s1.len() && key(#[trigger] s1[j]) == x;
            let j0: int = if j < i { j } else { j + 1 };
            assert(s1[j] == s[j0]);
            assert(key(s[j0]) == x);
            assert(x != a);
        }
        assert forall|x: u32| m0.remove(a).contains_key(x) implies #[trigger] key_map(
            s1,
            key,
            val,
        ).contains_key(x) by {
            let j0 = choose|j0: int| 0 <= j0 < s.len() && key(#[trigger] s[j0]) == x;
            assert(j0 != i);
            let j: int = if j0 < i { j0 } else { j0 - 1 };
            assert(s1[j] == s[j0]);
            assert(key(s1[j]) == x);
        }
        assert forall|x: u32| key_map(s1, key, val).contains_key(x) implies key_map(s1, key, val)[x]
            == m0.remove(a)[x] by {
            let j = choose|j: int| 0 <= j < s1.len() && key(#[trigger] s1[j]) == x;
            let j0: int = if j < i { j } else { j + 1 };
            assert(s1[j] == s[j0]);
            assert(key_map(s1, key, val)[key(s1[j])] == val(s1[j]));
            assert(key_map(s, key, val)[key(s[j0])] == val(s[j0]));
        }
    }
}

/// Removing a key no element carries changes nothing.
pub proof fn lemma_key_map_absent<T, V>(s: Seq<T>, a: u32, key: spec_fn(T) -> u32, val: spec_fn(
    T,
) -> V)
    requires
        forall|j: int| 0 <= j < s.len() ==> key(#[trigger] s[j]) != a,
    ensures
        !key_map(s, key, val).contains_key(a),
        key_map(s, key, val).remove(a) == key_map(s, key, val),
{
    lemma_key_map_dom(s, key, val);
    assert(key_map(s, key, val).remove(a) =~= key_map(s, key, val));
}

/// `m` with every element of `ups` inserted under its key, in order.
pub open spec fn upserted<V>(m: Map<u32, V>, ups: Seq<V>, key: spec_fn(V) -> u32) -> Map<u32, V>
    decreases ups.len(),
{
    if ups.len() == 0 {
        m
    } else {
        upserted(m, ups.drop_last(), key).insert(key(ups.last()), ups.last())
    }
}

/// `m` with every key of `rems` removed, in order.
pub open spec fn removed_keys<V>(m: Map<u32, V>, rems: Seq<u32>) -> Map<u32, V>
    decreases rems.len(),
{
    if rems.len() == 0 {
        m
    } else {
        removed_keys(m, rems.drop_last()).remove(rems.last())
    }
}

/// What upserting does, read pointwise, when the upserted keys are unique.
pub proof fn lemma_upserted<V>(m: Map<u32, V>, ups: Seq<V>, key: spec_fn(V) -> u32)
    requires
        unique_keys(ups, key),
    ensures
        forall|a: u32|
            #[trigger] upserted(m, ups, key).contains_key(a) <==> (m.contains_key(a) || exists|i: int|
                0 <= i < ups.len() && key(#[trigger] ups[i]) == a),
        forall|i: int|
            0 <= i < ups.len() ==> upserted(m, ups, key)[key(#[trigger] ups[i])] == ups[i],
        forall|a: u32|
            m.contains_key(a) && !(exists|i: int| 0 <= i < ups.len() && key(#[trigger] ups[i]) == a)
                ==> upserted(m, ups, key)[a] == m[a],
    decreases ups.len(),
{
    if ups.len() > 0 {
        assert forall|i: int, j: int|
            0 <= i < ups.drop_last().len() && 0 <= j < ups.drop_last().len() && i != j implies key(
            #[trigger] ups.drop_last()[i],
        ) != key(#[trigger] ups.drop_last()[j]) by {
            assert(ups.drop_last()[i] == ups[i] && ups.drop_last()[j] == ups[j]);
        }
        lemma_upserted(m, ups.drop_last(), key);
        assert forall|i: int| 0 <= i < ups.len() implies upserted(m, ups, key)[key(
            #[trigger] ups[i],
        )] == ups[i] by {
            if i < ups.len() - 1 {
                assert(ups.drop_last()[i] == ups[i]);
                assert(key(ups.last()) != key(ups[i]));
            }
        }
        assert forall|a: u32| #[trigger] upserted(m, ups, key).contains_key(a) implies (
        m.contains_key(a) || exists|i: int| 0 <= i < ups.len() && key(#[trigger] ups[i]) == a) by {
            if a == key(ups.last()) {
                assert(key(ups[ups.len() - 1]) == a);
            } else if !m.contains_key(a) {
                assert(upserted(m, ups.drop_last(), key).contains_key(a));
                let i = choose|i: int|
                    0 <= i < ups.drop_last().len() && key(#[trigger] ups.drop_last()[i]) == a;
                assert(ups.drop_last()[i] == ups[i]);
            }
        }
        assert forall|a: u32|
            (m.contains_key(a) || exists|i: int|
                0 <= i < ups.len() && key(#[trigger] ups[i]) == a) implies #[trigger] upserted(
            m,
            ups,
            key,
        ).contains_key(a) by {
            if m.contains_key(a) {
                assert(upserted(m, ups.drop_last(), key).contains_key(a));
            } else if a != key(ups.last()) {
                let i = choose|i: int| 0 <= i < ups.len() && key(#[trigger] ups[i]) == a;
                assert(i < ups.len() - 1);
                assert(ups.drop_last()[i] == ups[i]);
                assert(key(ups.drop_last()[i]) == a);
                assert(upserted(m, ups.drop_last(), key).contains_key(a));
            } else {
                assert(a == key(ups.last()));
            }
        }
        assert forall|a: u32|
            m.contains_key(a) && !(exists|i: int|
                0 <= i < ups.len() && key(#[trigger] ups[i]) == a) implies upserted(m, ups, key)[a]
            == m[a] by {
            assert(key(ups[ups.len() - 1]) != a);
            assert(!(exists|i: int|
                0 <= i < ups.drop_last().len() && key(#[trigger] ups.drop_last()[i]) == a)) by {
                if exists|i: int|
                    0 <= i < ups.drop_last().len() && key(#[trigger] ups.drop_last()[i]) == a {
                    let i = choose|i: int|
                        0 <= i < ups.drop_last().len() && key(#[trigger] ups.drop_last()[i]) == a;
                    assert(key(ups[i]) == a);
                }
            }
        }
    }
}

/// What removing does, read pointwise.
pub proof fn lemma_removed_keys<V>(m: Map<u32, V>, rems: Seq<u32>)
    ensures
        forall|a: u32|
            #[trigger] removed_keys(m, rems).contains_key(a) <==> (m.contains_key(a)
                && !rems.contains(a)),
        forall|a: u32|
            m.contains_key(a) && !rems.contains(a) ==> removed_keys(m, rems)[a] == m[a],
    decreases rems.len(),
{
    if rems.len() > 0 {
        lemma_removed_keys(m, rems.drop_last());
        assert forall|a: u32| #[trigger] removed_keys(m, rems).contains_key(a) implies (
        m.contains_key(a) && !rems.contains(a)) by {
            assert(removed_keys(m, rems.drop_last()).contains_key(a) && a != rems.last());
            if rems.contains(a) {
                let i = choose|i: int| 0 <= i < rems.len() && rems[i] == a;
                assert(rems.drop_last()[i] == a);
            }
        }
        assert forall|a: u32|
            (m.contains_key(a) && !rems.contains(a)) implies #[trigger] removed_keys(
            m,
            rems,
        ).contains_key(a) by {
            assert(!rems.drop_last().contains(a)) by {
                if rems.drop_last().contains(a) {
                    let i = choose|i: int| 0 <= i < rems.drop_last().len() && rems.drop_last()[i] == a;
                    assert(rems[i] == a);
                }
            }
            assert(rems[rems.len() - 1] != a);
        }
        assert forall|a: u32|
            m.contains_key(a) && !rems.contains(a) implies removed_keys(m, rems)[a] == m[a] by {
            assert(!rems.drop_last().contains(a)) by {
                if rems.drop_last().contains(a) {
                    let i = choose|i: int| 0 <= i < rems.drop_last().len() && rems.drop_last()[i] == a;
                    assert(rems[i] == a);
                }
            }
            assert(rems[rems.len() - 1] != a);
        }
    }
}

} // verus!
