//! Ordered tables from names to values.
//!
//! A table is a `Vec<(String, V)>`; a name resolves to its most recent
//! entry, so a later entry shadows an earlier one of the same name.
use vstd::prelude::*;

verus! {

/// The value that `name` resolves to: the value of its last entry.
pub open spec fn find<V>(s: Seq<(String, V)>, name: Seq<char>) -> Option<V>
    decreases s.len(),
{
    if s.len() == 0 {
        None
    } else if s.last().0@ == name {
        Some(s.last().1)
    } else {
        find(s.drop_last(), name)
    }
}

/// A table seen as a map from names to the values they resolve to.
pub open spec fn as_map<V>(s: Seq<(String, V)>) -> Map<Seq<char>, V> {
    Map::new(|k: Seq<char>| find(s, k) is Some, |k: Seq<char>| find(s, k)->Some_0)
}

/// No name has two entries.
pub open spec fn unique_names<V>(s: Seq<(String, V)>) -> bool {
    forall|i: int, j: int| 0 <= i < s.len() && 0 <= j < s.len() && i != j ==> s[i].0@ != s[j].0@
}

pub proof fn lemma_find_push<V>(s: Seq<(String, V)>, e: (String, V), k: Seq<char>)
    ensures
        find(s.push(e), k) == if k == e.0@ { Some(e.1) } else { find(s, k) },
{
    assert(s.push(e).drop_last() =~= s);
}

/// Overwriting the last entry of a name changes what that name resolves to
/// and nothing else.
pub proof fn lemma_find_update<V>(s: Seq<(String, V)>, i: int, e: (String, V), k: Seq<char>)
    requires
        0 <= i < s.len(),
        s[i].0@ == e.0@,
        forall|j: int| i < j < s.len() ==> s[j].0@ != e.0@,
    ensures
        find(s.update(i, e), k) == if k == e.0@ { Some(e.1) } else { find(s, k) },
    decreases s.len(),
{
    let t = s.update(i, e);
    if i < s.len() - 1 {
        assert(t.drop_last() =~= s.drop_last().update(i, e));
        lemma_find_update(s.drop_last(), i, e, k);
    } else {
        assert(t.drop_last() =~= s.drop_last());
    }
}

/// Whether two strings hold the same characters.
pub fn same_text(a: &str, b: &str) -> (r: bool)
    ensures
        r == (a@ == b@),
{
    let n = a.unicode_len();
    if n != b.unicode_len() {
        return false;
    }
    let mut i: usize = 0;
    while i < n
        invariant
            n == a@.len(),
            n == b@.len(),
            i <= n,
            a@.subrange(0, i as int) == b@.subrange(0, i as int),
        decreases n - i,
    {
        if a.get_char(i) != b.get_char(i) {
            return false;
        }
        assert(a@.subrange(0, i + 1) =~= a@.subrange(0, i as int).push(a@[i as int]));
        assert(b@.subrange(0, i + 1) =~= b@.subrange(0, i as int).push(b@[i as int]));
        i = i + 1;
    }
    assert(a@ =~= a@.subrange(0, n as int));
    assert(b@ =~= b@.subrange(0, n as int));
    true
}

/// Looks `name` up, most recent entry first.
pub fn lookup<'a, V>(entries: &'a Vec<(String, V)>, name: &str) -> (r: Option<&'a V>)
    ensures
        match r {
            Some(v) => find(entries@, name@) == Some(*v),
            None => find(entries@, name@) is None,
        },
{
    let mut i: usize = entries.len();
    assert(entries@.subrange(0, i as int) =~= entries@);
    while i > 0
        invariant
            i <= entries.len(),
            find(entries@, name@) == find(entries@.subrange(0, i as int), name@),
        decreases i,
    {
        let sub = Ghost(entries@.subrange(0, i as int));
        assert(sub@.drop_last() =~= entries@.subrange(0, i - 1));
        if same_text(entries[i - 1].0.as_str(), name) {
            return Some(&entries[i - 1].1);
        }
        i = i - 1;
    }
    None
}

/// Binds `name` to `value`: overwrites the name's last entry, or appends one
/// when the name has none. Names stay unique where they were.
pub fn insert<V>(entries: &mut Vec<(String, V)>, name: String, value: V)
    ensures
        forall|k: Seq<char>|
            #![trigger find(final(entries)@, k)]
            find(final(entries)@, k) == if k == name@ { Some(value) } else { find(old(entries)@, k) },
        as_map(final(entries)@) == as_map(old(entries)@).insert(name@, value),
        unique_names(old(entries)@) ==> unique_names(final(entries)@),
{
    let ghost nv = name@;
    let ghost s = entries@;
    let mut i: usize = entries.len();
    while i > 0
        invariant
            i <= entries.len(),
            entries@ == s,
            s == old(entries)@,
            nv == name@,
            forall|j: int| i <= j < s.len() ==> s[j].0@ != nv,
        decreases i,
    {
        if same_text(entries[i - 1].0.as_str(), name.as_str()) {
            let ghost e = (name, value);
            proof {
                assert forall|k: Seq<char>| #[trigger]
                    find(s.update(i - 1, e), k) == if k == nv { Some(value) } else { find(s, k) } by {
                    lemma_find_update(s, i - 1, e, k);
                }
            }
            entries.set(i - 1, (name, value));
            assert(as_map(entries@) =~= as_map(s).insert(nv, value));
            return;
        }
        i = i - 1;
    }
    proof {
        assert forall|k: Seq<char>| #[trigger]
            find(s.push((name, value)), k) == if k == nv { Some(value) } else { find(s, k) } by {
            lemma_find_push(s, (name, value), k);
        }
    }
    entries.push((name, value));
    assert(as_map(entries@) =~= as_map(s).insert(nv, value));
}

} // verus!
