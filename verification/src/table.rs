use vstd::prelude::*;
use vstd::map::*;

use crate::namespace::{Namespace, NamespaceView};

verus! {

/// A list of entries keyed by namespace in which no key repeats.
pub open spec fn table_wf<V>(es: Seq<(Namespace, V)>) -> bool {
    forall|i: int, j: int| 0 <= i < j < es.len() ==> es[i].0@ != es[j].0@
}

/// Map held by a list of keyed entries; a later entry overrides an
/// earlier one with the same key.
pub open spec fn table_map<V: View>(es: Seq<(Namespace, V)>) -> Map<NamespaceView, V::V>
    decreases es.len(),
{
    if es.len() == 0 {
        Map::empty()
    } else {
        table_map(es.drop_last()).insert(es.last().0@, es.last().1@)
    }
}

/// A key is in the map exactly when some entry holds it.
pub proof fn lemma_table_map_contains<V: View>(es: Seq<(Namespace, V)>, k: NamespaceView)
    ensures
        table_map(es).contains_key(k) <==> exists|i: int|
            0 <= i < es.len() && es[i].0@ == k,
    decreases es.len(),
{
    if es.len() > 0 {
        lemma_table_map_contains(es.drop_last(), k);
        if table_map(es).contains_key(k) {
            if es.last().0@ != k {
                let i = choose|i: int| 0 <= i < es.drop_last().len() && es.drop_last()[i].0@ == k;
                assert(es[i].0@ == k);
            } else {
                assert(es[es.len() - 1].0@ == k);
            }
        }
        if exists|i: int| 0 <= i < es.len() && es[i].0@ == k {
            let i = choose|i: int| 0 <= i < es.len() && es[i].0@ == k;
            if i < es.len() - 1 {
                assert(es.drop_last()[i].0@ == k);
            }
        }
    }
}

/// Under `table_wf`, the entry holding a key gives the map's value at it.
pub proof fn lemma_table_map_index<V: View>(es: Seq<(Namespace, V)>, i: int)
    requires
        table_wf(es),
        0 <= i < es.len(),
    ensures
        table_map(es).contains_key(es[i].0@),
        table_map(es)[es[i].0@] == es[i].1@,
    decreases es.len(),
{
    if i == es.len() - 1 {
        lemma_table_map_contains(es, es[i].0@);
    } else {
        assert(table_wf(es.drop_last()));
        lemma_table_map_index(es.drop_last(), i);
        assert(es.drop_last()[i] == es[i]);
        assert(es[i].0@ != es.last().0@);
    }
}

/// Replacing the entry that holds a key updates the map at that key.
proof fn lemma_table_map_update<V: View>(es: Seq<(Namespace, V)>, i: int, e: (Namespace, V))
    requires
        table_wf(es),
        0 <= i < es.len(),
        e.0@ == es[i].0@,
    ensures
        table_wf(es.update(i, e)),
        table_map(es.update(i, e)) == table_map(es).insert(e.0@, e.1@),
    decreases es.len(),
{
    let upd = es.update(i, e);
    assert forall|a: int, b: int| 0 <= a < b < upd.len() implies upd[a].0@ != upd[b].0@ by {
        assert(es[a].0@ != es[b].0@);
    }
    if i == es.len() - 1 {
        assert(upd.drop_last() =~= es.drop_last());
        assert(upd.last() == e);
        assert(table_map(upd) =~= table_map(es).insert(e.0@, e.1@));
    } else {
        assert(upd.drop_last() =~= es.drop_last().update(i, e));
        assert(table_wf(es.drop_last()));
        assert(es.drop_last()[i] == es[i]);
        lemma_table_map_update(es.drop_last(), i, e);
        assert(upd.last() == es.last());
        assert(e.0@ != es.last().0@);
        assert(table_map(upd) =~= table_map(es).insert(e.0@, e.1@));
    }
}

/// Removing the entry that holds a key removes that key from the map.
proof fn lemma_table_map_remove<V: View>(es: Seq<(Namespace, V)>, i: int)
    requires
        table_wf(es),
        0 <= i < es.len(),
    ensures
        table_wf(es.remove(i)),
        table_map(es.remove(i)) == table_map(es).remove(es[i].0@),
    decreases es.len(),
{
    let rem = es.remove(i);
    assert forall|a: int, b: int| 0 <= a < b < rem.len() implies rem[a].0@ != rem[b].0@ by {
        let a0 = if a < i { a } else { a + 1 };
        let b0 = if b < i { b } else { b + 1 };
        assert(rem[a] == es[a0]);
        assert(rem[b] == es[b0]);
        assert(es[a0].0@ != es[b0].0@);
    }
    if i == es.len() - 1 {
        assert(rem =~= es.drop_last());
        lemma_table_map_contains(es.drop_last(), es[i].0@);
        assert forall|j: int| 0 <= j < es.drop_last().len() implies es.drop_last()[j].0@
            != es[i].0@ by {
            assert(es[j].0@ != es[i].0@);
        }
        assert(!table_map(es.drop_last()).contains_key(es[i].0@));
        assert(table_map(rem) =~= table_map(es).remove(es[i].0@));
    } else {
        assert(rem.drop_last() =~= es.drop_last().remove(i));
        assert(table_wf(es.drop_last()));
        assert(es.drop_last()[i] == es[i]);
        lemma_table_map_remove(es.drop_last(), i);
        assert(rem.last() == es.last());
        assert(es[i].0@ != es.last().0@);
        assert(table_map(rem) =~= table_map(es).remove(es[i].0@));
    }
}

/// Index of the entry holding `key`, if any.
pub fn table_find<V>(es: &Vec<(Namespace, V)>, key: &Namespace) -> (r: Option<usize>)
    ensures
        match r {
            Some(i) => 0 <= i < es@.len() && es@[i as int].0@ == key@,
            None => forall|i: int| 0 <= i < es@.len() ==> es@[i].0@ != key@,
        },
{
    let mut i: usize = 0;
    while i < es.len()
        invariant
            i <= es@.len(),
            forall|j: int| 0 <= j < i ==> es@[j].0@ != key@,
        decreases es@.len() - i,
    {
        if es[i].0.same_as(key) {
            return Some(i);
        }
        i = i + 1;
    }
    None
}

/// Put `value` under `key`, replacing the entry with that key if one is
/// there.
pub fn table_insert<V: View>(es: &mut Vec<(Namespace, V)>, key: Namespace, value: V)
    requires
        table_wf(old(es)@),
    ensures
        table_wf(final(es)@),
        table_map(final(es)@) == table_map(old(es)@).insert(key@, value@),
{
    let found = table_find(es, &key);
    match found {
        Some(i) => {
            proof {
                lemma_table_map_update(es@, i as int, (key, value));
            }
            es.set(i, (key, value));
        },
        None => {
            proof {
                let pushed = es@.push((key, value));
                assert(pushed.drop_last() =~= es@);
                assert forall|a: int, b: int| 0 <= a < b < pushed.len() implies pushed[a].0@
                    != pushed[b].0@ by {
                    if b < pushed.len() - 1 {
                        assert(es@[a].0@ != es@[b].0@);
                    } else {
                        assert(es@[a].0@ != key@);
                    }
                }
            }
            es.push((key, value));
        },
    }
}

/// Take out the entry holding `key`, if any, and give back its value.
pub fn table_remove<V: View>(es: &mut Vec<(Namespace, V)>, key: &Namespace) -> (r: Option<V>)
    requires
        table_wf(old(es)@),
    ensures
        table_wf(final(es)@),
        table_map(final(es)@) == table_map(old(es)@).remove(key@),
        match r {
            Some(v) => table_map(old(es)@).contains_key(key@) && table_map(old(es)@)[key@]
                == v@,
            None => !table_map(old(es)@).contains_key(key@),
        },
{
    let found = table_find(es, key);
    match found {
        Some(i) => {
            proof {
                lemma_table_map_remove(es@, i as int);
                lemma_table_map_index(es@, i as int);
            }
            let e = es.remove(i);
            Some(e.1)
        },
        None => {
            proof {
                lemma_table_map_contains(es@, key@);
                assert(table_map(es@).remove(key@) =~= table_map(es@));
            }
            None
        },
    }
}

/// Value under `key`, if any.
pub fn table_get<'a, V: View>(es: &'a Vec<(Namespace, V)>, key: &Namespace) -> (r: Option<
    &'a V,
>)
    requires
        table_wf(es@),
    ensures
        match r {
            Some(v) => table_map(es@).contains_key(key@) && table_map(es@)[key@] == v@,
            None => !table_map(es@).contains_key(key@),
        },
{
    let found = table_find(es, key);
    match found {
        Some(i) => {
            proof {
                lemma_table_map_index(es@, i as int);
            }
            Some(&es[i].1)
        },
        None => {
            proof {
                lemma_table_map_contains(es@, key@);
            }
            None
        },
    }
}

} // verus!
