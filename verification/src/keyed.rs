//! Lists of (name, value) pairs that stand for maps keyed by name.
use vstd::prelude::*;

verus! {

/// The map a list of pairs stands for; a later pair wins over an earlier
/// one with the same key.
pub open spec fn spec_keyed_map<V>(es: Seq<(String, V)>) -> Map<Seq<char>, V>
    decreases es.len(),
{
    if es.len() == 0 {
        Map::empty()
    } else {
        spec_keyed_map(es.drop_last()).insert(es.last().0@, es.last().1)
    }
}

/// No key occurs twice.
pub open spec fn keys_unique<V>(es: Seq<(String, V)>) -> bool {
    forall|i: int, j: int| 0 <= i < j < es.len() ==> (#[trigger] es[i]).0@ != (#[trigger] es[j]).0@
}

/// A key is in the map exactly when some pair carries it; with unique keys
/// the map holds that pair's value and has one key per pair.
pub proof fn lemma_keyed_map<V>(es: Seq<(String, V)>)
    ensures
        spec_keyed_map(es).dom().finite(),
        forall|k: Seq<char>| #[trigger] spec_keyed_map(es).contains_key(k)
            <==> exists|i: int| 0 <= i < es.len() && es[i].0@ == k,
        keys_unique(es) ==> forall|i: int| 0 <= i < es.len()
            ==> spec_keyed_map(es)[#[trigger] es[i].0@] == es[i].1,
        keys_unique(es) ==> spec_keyed_map(es).dom().len() == es.len(),
    decreases es.len(),
{
    if es.len() > 0 {
        let init = es.drop_last();
        lemma_keyed_map(init);
        let m = spec_keyed_map(init);
        let k = es.last().0@;
        assert forall|q: Seq<char>| #[trigger] spec_keyed_map(es).contains_key(q)
            <==> exists|i: int| 0 <= i < es.len() && es[i].0@ == q by {
            if spec_keyed_map(es).contains_key(q) && q != k {
                let i = choose|i: int| 0 <= i < init.len() && init[i].0@ == q;
                assert(es[i] == init[i]);
            }
            if exists|i: int| 0 <= i < es.len() && es[i].0@ == q {
                let i = choose|i: int| 0 <= i < es.len() && es[i].0@ == q;
                if i < es.len() - 1 {
                    assert(init[i] == es[i]);
                }
            }
        }
        if keys_unique(es) {
            assert(keys_unique(init)) by {
                assert forall|i: int, j: int| 0 <= i < j < init.len() implies
                    (#[trigger] init[i]).0@ != (#[trigger] init[j]).0@ by {
                    assert(init[i] == es[i] && init[j] == es[j]);
                }
            }
            assert(!m.contains_key(k)) by {
                if m.contains_key(k) {
                    let i = choose|i: int| 0 <= i < init.len() && init[i].0@ == k;
                    assert(es[i] == init[i]);
                    assert(es[i].0@ != es[es.len() - 1].0@);
                }
            }
            assert forall|i: int| 0 <= i < es.len() implies
                spec_keyed_map(es)[#[trigger] es[i].0@] == es[i].1 by {
                if i < es.len() - 1 {
                    assert(init[i] == es[i]);
                    assert(es[i].0@ != es[es.len() - 1].0@);
                }
            }
            assert(m.insert(k, es.last().1).dom() =~= m.dom().insert(k));
        }
    }
}

/// Replacing the value of an existing key updates the map at that key.
pub proof fn lemma_keyed_map_set<V>(es: Seq<(String, V)>, i: int, k2: String, v: V)
    requires
        keys_unique(es),
        0 <= i < es.len(),
        k2@ == es[i].0@,
    ensures
        spec_keyed_map(es.update(i, (k2, v))) == spec_keyed_map(es).insert(es[i].0@, v),
        keys_unique(es.update(i, (k2, v))),
    decreases es.len(),
{
    let es2 = es.update(i, (k2, v));
    let k = es[i].0@;
    let init = es.drop_last();
    if i == es.len() - 1 {
        assert(es2.drop_last() =~= init);
        assert(spec_keyed_map(es2) =~= spec_keyed_map(es).insert(k, v));
    } else {
        assert(keys_unique(init)) by {
            assert forall|a: int, b: int| 0 <= a < b < init.len() implies
                (#[trigger] init[a]).0@ != (#[trigger] init[b]).0@ by {
                assert(init[a] == es[a] && init[b] == es[b]);
            }
        }
        lemma_keyed_map_set(init, i, k2, v);
        assert(es2.drop_last() =~= init.update(i, (k2, v)));
        assert(es.last().0@ != k);
        assert(spec_keyed_map(es2) =~= spec_keyed_map(es).insert(k, v));
    }
    assert forall|a: int, b: int| 0 <= a < b < es2.len() implies
        (#[trigger] es2[a]).0@ != (#[trigger] es2[b]).0@ by {
        assert(es2[a].0@ == es[a].0@ && es2[b].0@ == es[b].0@);
    }
}

/// Removing the pair of a key removes the key from the map.
pub proof fn lemma_keyed_map_remove<V>(es: Seq<(String, V)>, i: int)
    requires
        keys_unique(es),
        0 <= i < es.len(),
    ensures
        spec_keyed_map(es.remove(i)) == spec_keyed_map(es).remove(es[i].0@),
        keys_unique(es.remove(i)),
    decreases es.len(),
{
    let es2 = es.remove(i);
    let k = es[i].0@;
    let init = es.drop_last();
    assert(keys_unique(init)) by {
        assert forall|a: int, b: int| 0 <= a < b < init.len() implies
            (#[trigger] init[a]).0@ != (#[trigger] init[b]).0@ by {
            assert(init[a] == es[a] && init[b] == es[b]);
        }
    }
    lemma_keyed_map(init);
    if i == es.len() - 1 {
        assert(es2 =~= init);
        assert(!spec_keyed_map(init).contains_key(k)) by {
            if spec_keyed_map(init).contains_key(k) {
                let j = choose|j: int| 0 <= j < init.len() && init[j].0@ == k;
                assert(es[j] == init[j]);
            }
        }
        assert(spec_keyed_map(es2) =~= spec_keyed_map(es).remove(k));
    } else {
        lemma_keyed_map_remove(init, i);
        assert(es2.drop_last() =~= init.remove(i));
        assert(es2.last() == es.last());
        assert(es.last().0@ != k);
        assert(spec_keyed_map(es2) =~= spec_keyed_map(es).remove(k));
    }
    assert forall|a: int, b: int| 0 <= a < b < es2.len() implies
        (#[trigger] es2[a]).0@ != (#[trigger] es2[b]).0@ by {
        let a2 = if a < i { a } else { a + 1 };
        let b2 = if b < i { b } else { b + 1 };
        assert(es2[a] == es[a2] && es2[b] == es[b2]);
    }
}

/// Appending a pair whose key is new adds it to the map.
pub proof fn lemma_keyed_map_push<V>(es: Seq<(String, V)>, k: String, v: V)
    requires
        keys_unique(es),
        forall|j: int| 0 <= j < es.len() ==> es[j].0@ != k@,
    ensures
        spec_keyed_map(es.push((k, v))) == spec_keyed_map(es).insert(k@, v),
        keys_unique(es.push((k, v))),
{
    let es2 = es.push((k, v));
    assert(es2.drop_last() =~= es);
    assert forall|a: int, b: int| 0 <= a < b < es2.len() implies
        (#[trigger] es2[a]).0@ != (#[trigger] es2[b]).0@ by {
        if b < es.len() {
            assert(es2[a] == es[a] && es2[b] == es[b]);
        } else {
            assert(es2[a] == es[a]);
        }
    }
}

/// The position of the pair carrying `k`, if any.
pub fn find_key<V>(es: &Vec<(String, V)>, k: &str) -> (r: Option<usize>)
    ensures
        match r {
            Some(i) => i < es@.len() && es@[i as int].0@ == k@,
            None => forall|j: int| 0 <= j < es@.len() ==> es@[j].0@ != k@,
        },
{
    let wanted = k.to_owned();
    let mut i: usize = 0;
    while i < es.len()
        invariant
            i <= es@.len(),
            wanted@ == k@,
            forall|j: int| 0 <= j < i ==> es@[j].0@ != k@,
        decreases es@.len() - i,
    {
        if es[i].0 == wanted {
            return Some(i);
        }
        i = i + 1;
    }
    None
}

} // verus!
