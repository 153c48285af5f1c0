use vstd::prelude::*;

verus! {

/// The map that a list of entries stands for; a later entry for a key
/// replaces an earlier one.
pub open spec fn table_view<V: View>(v: Seq<(String, V)>) -> Map<Seq<char>, V::V>
    decreases v.len(),
{
    if v.len() == 0 {
        Map::empty()
    } else {
        table_view(v.drop_last()).insert(v.last().0@, v.last().1@)
    }
}

/// No two entries share a key.
pub open spec fn unique_keys<V>(v: Seq<(String, V)>) -> bool {
    forall|i: int, j: int| 0 <= i < j < v.len() ==> v[i].0@ != v[j].0@
}

pub proof fn lemma_table_has<V: View>(v: Seq<(String, V)>, i: int)
    requires
        unique_keys(v),
        0 <= i < v.len(),
    ensures
        table_view(v).contains_key(v[i].0@),
        table_view(v)[v[i].0@] == v[i].1@,
    decreases v.len(),
{
    if i < v.len() - 1 {
        lemma_table_has(v.drop_last(), i);
    }
}

pub proof fn lemma_table_lacks<V: View>(v: Seq<(String, V)>, k: Seq<char>)
    requires
        forall|i: int| 0 <= i < v.len() ==> v[i].0@ != k,
    ensures
        !table_view(v).contains_key(k),
    decreases v.len(),
{
    if v.len() > 0 {
        lemma_table_lacks(v.drop_last(), k);
    }
}

proof fn lemma_table_update<V: View>(v: Seq<(String, V)>, i: int, e: (String, V))
    requires
        unique_keys(v),
        0 <= i < v.len(),
        e.0@ == v[i].0@,
    ensures
        table_view(v.update(i, e)) == table_view(v).insert(e.0@, e.1@),
    decreases v.len(),
{
    let w = v.update(i, e);
    if i == v.len() - 1 {
        assert(w.drop_last() =~= v.drop_last());
        assert(table_view(w) =~= table_view(v).insert(e.0@, e.1@));
    } else {
        assert(w.drop_last() =~= v.drop_last().update(i, e));
        lemma_table_update(v.drop_last(), i, e);
        assert(v.last().0@ != e.0@);
        assert(table_view(w) =~= table_view(v).insert(e.0@, e.1@));
    }
}

/// Sets the entry of `key` to `value`, replacing the one it had.
pub fn upsert<V: View>(t: &mut Vec<(String, V)>, key: String, value: V)
    requires
        unique_keys(old(t)@),
    ensures
        unique_keys(final(t)@),
        table_view(final(t)@) == table_view(old(t)@).insert(key@, value@),
{
    let n = t.len();
    let mut i: usize = 0;
    while i < n
        invariant
            n == t@.len(),
            t@ == old(t)@,
            unique_keys(t@),
            i <= n,
            forall|j: int| 0 <= j < i ==> t@[j].0@ != key@,
        decreases n - i,
    {
        if t[i].0 == key {
            let ghost before = t@;
            let ghost e = (key, value);
            proof {
                lemma_table_update(before, i as int, e);
            }
            t.set(i, (key, value));
            proof {
                assert(t@ == before.update(i as int, e));
                assert forall|a: int, b: int| 0 <= a < b < t@.len() implies t@[a].0@ != t@[b].0@ by {
                    assert(t@[a].0@ == before[a].0@);
                    assert(t@[b].0@ == before[b].0@);
                }
            }
            return;
        }
        i = i + 1;
    }
    let ghost before = t@;
    t.push((key, value));
    proof {
        assert(t@.drop_last() =~= before);
        assert forall|a: int, b: int| 0 <= a < b < t@.len() implies t@[a].0@ != t@[b].0@ by {
            if b < before.len() {
                assert(t@[a] == before[a]);
                assert(t@[b] == before[b]);
            } else {
                assert(t@[a] == before[a]);
            }
        }
    }
}

/// The value of `key`, if it has an entry.
pub fn lookup<'a, V: View>(t: &'a Vec<(String, V)>, key: &str) -> (r: Option<&'a V>)
    requires
        unique_keys(t@),
    ensures
        r is Some <==> table_view(t@).contains_key(key@),
        r is Some ==> r->0@ == table_view(t@)[key@],
{
    let n = t.len();
    let mut i: usize = 0;
    while i < n
        invariant
            n == t@.len(),
            unique_keys(t@),
            i <= n,
            forall|j: int| 0 <= j < i ==> t@[j].0@ != key@,
        decreases n - i,
    {
        if crate::text::same_text(t[i].0.as_str(), key) {
            proof {
                lemma_table_has(t@, i as int);
            }
            return Some(&t[i].1);
        }
        i = i + 1;
    }
    proof {
        lemma_table_lacks(t@, key@);
    }
    None
}

} // verus!
