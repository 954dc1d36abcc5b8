//! Association lists keyed by `u64` identities, used to model the
//! per-key entries of the hosting ledger's persistent store.
//!
//! Entries carry distinct keys, so a list behaves exactly like a finite
//! map: `al_get` is the lookup, and the executable `alist_get` /
//! `alist_set` operations are specified purely through it.

use vstd::prelude::*;

verus! {

/// First-match lookup of `k` in the entry sequence.
pub open spec fn al_get<V>(s: Seq<(u64, V)>, k: u64) -> Option<V>
    decreases s.len(),
{
    if s.len() == 0 {
        None
    } else if s[0].0 == k {
        Some(s[0].1)
    } else {
        al_get(s.drop_first(), k)
    }
}

/// No two entries share a key, so lookup order never matters.
pub open spec fn keys_distinct<V>(s: Seq<(u64, V)>) -> bool {
    forall|i: int, j: int| 0 <= i < j < s.len() ==> (#[trigger] s[i]).0 != (#[trigger] s[j]).0
}

/// Lookup finds the entry at the first index holding the key.
pub proof fn lemma_al_get_present<V>(s: Seq<(u64, V)>, k: u64, i: int)
    requires
        0 <= i < s.len(),
        s[i].0 == k,
        forall|j: int| 0 <= j < i ==> (#[trigger] s[j]).0 != k,
    ensures
        al_get(s, k) == Some(s[i].1),
    decreases i,
{
    if i > 0 {
        assert(forall|j: int| 0 <= j < i - 1 ==> (#[trigger] s.drop_first()[j]).0 != k);
        lemma_al_get_present(s.drop_first(), k, i - 1);
    }
}

/// Lookup misses when no entry holds the key.
pub proof fn lemma_al_get_absent<V>(s: Seq<(u64, V)>, k: u64)
    requires
        forall|j: int| 0 <= j < s.len() ==> (#[trigger] s[j]).0 != k,
    ensures
        al_get(s, k) is None,
    decreases s.len(),
{
    if s.len() > 0 {
        assert(forall|j: int| 0 <= j < s.len() - 1 ==> (#[trigger] s.drop_first()[j]).0 != k);
        lemma_al_get_absent(s.drop_first(), k);
    }
}

/// A successful lookup names an actual entry of the list.
pub proof fn lemma_al_get_index<V>(s: Seq<(u64, V)>, k: u64)
    requires
        al_get(s, k) is Some,
    ensures
        exists|i: int| 0 <= i < s.len() && #[trigger] s[i] == (k, al_get(s, k)->Some_0),
    decreases s.len(),
{
    if s.len() > 0 && s[0].0 != k {
        lemma_al_get_index(s.drop_first(), k);
        let i = choose|i: int|
            0 <= i < s.drop_first().len() && #[trigger] s.drop_first()[i] == (
            k,
            al_get(s.drop_first(), k)->Some_0,
            );
        assert(s[i + 1] == (k, al_get(s, k)->Some_0));
    }
}

/// A missed lookup means no entry holds the key.
pub proof fn lemma_al_get_none<V>(s: Seq<(u64, V)>, k: u64)
    requires
        al_get(s, k) is None,
    ensures
        forall|j: int| 0 <= j < s.len() ==> (#[trigger] s[j]).0 != k,
    decreases s.len(),
{
    if s.len() > 0 {
        lemma_al_get_none(s.drop_first(), k);
        assert forall|j: int| 0 <= j < s.len() implies (#[trigger] s[j]).0 != k by {
            if j > 0 {
                assert(s.drop_first()[j - 1] == s[j]);
            }
        }
    }
}

/// Looks `k` up in the list.
pub fn alist_get<V: Copy>(v: &Vec<(u64, V)>, k: u64) -> (r: Option<V>)
    ensures
        r == al_get(v@, k),
{
    let n = v.len();
    let mut i: usize = 0;
    while i < n
        invariant
            n == v@.len(),
            0 <= i <= n,
            forall|j: int| 0 <= j < i ==> (#[trigger] v@[j]).0 != k,
        decreases n - i,
    {
        if v[i].0 == k {
            proof {
                lemma_al_get_present(v@, k, i as int);
            }
            return Some(v[i].1);
        }
        i = i + 1;
    }
    proof {
        lemma_al_get_absent(v@, k);
    }
    None
}

/// Binds `k` to `val`, replacing an existing entry or appending a new
/// one; every other key keeps its binding.
pub fn alist_set<V: Copy>(v: &mut Vec<(u64, V)>, k: u64, val: V)
    requires
        keys_distinct(old(v)@),
    ensures
        keys_distinct(final(v)@),
        al_get(final(v)@, k) == Some(val),
        forall|k2: u64| k2 != k ==> #[trigger] al_get(final(v)@, k2) == al_get(old(v)@, k2),
        final(v)@.len() <= old(v)@.len() + 1,
{
    let n = v.len();
    let mut i: usize = 0;
    while i < n
        invariant
            n == v@.len(),
            0 <= i <= n,
            v@ == old(v)@,
            keys_distinct(old(v)@),
            forall|j: int| 0 <= j < i ==> (#[trigger] v@[j]).0 != k,
        decreases n - i,
    {
        if v[i].0 == k {
            v.set(i, (k, val));
            proof {
                lemma_set_update(old(v)@, v@, k, val, i as int);
            }
            return ;
        }
        i = i + 1;
    }
    v.push((k, val));
    proof {
        lemma_set_push(old(v)@, v@, k, val);
    }
}

/// The map semantics of replacing the entry at index `i` with `(k, val)`.
proof fn lemma_set_update<V>(s: Seq<(u64, V)>, t: Seq<(u64, V)>, k: u64, val: V, i: int)
    requires
        keys_distinct(s),
        0 <= i < s.len(),
        s[i].0 == k,
        t == s.update(i, (k, val)),
    ensures
        keys_distinct(t),
        al_get(t, k) == Some(val),
        forall|k2: u64| k2 != k ==> #[trigger] al_get(t, k2) == al_get(s, k2),
{
    assert(keys_distinct(t));
    assert(forall|j: int| 0 <= j < i ==> (#[trigger] t[j]).0 != k);
    lemma_al_get_present(t, k, i);
    assert forall|k2: u64| k2 != k implies #[trigger] al_get(t, k2) == al_get(s, k2) by {
        if al_get(s, k2) is Some {
            lemma_al_get_index(s, k2);
            let j = choose|j: int| 0 <= j < s.len() && #[trigger] s[j] == (k2, al_get(s, k2)->Some_0);
            assert(forall|m: int| 0 <= m < j ==> (#[trigger] t[m]).0 != k2);
            lemma_al_get_present(t, k2, j);
        } else {
            lemma_al_get_none(s, k2);
            assert(forall|j: int| 0 <= j < t.len() ==> (#[trigger] t[j]).0 != k2);
            lemma_al_get_absent(t, k2);
        }
    }
}

/// The map semantics of appending a fresh entry `(k, val)`.
proof fn lemma_set_push<V>(s: Seq<(u64, V)>, t: Seq<(u64, V)>, k: u64, val: V)
    requires
        keys_distinct(s),
        forall|j: int| 0 <= j < s.len() ==> (#[trigger] s[j]).0 != k,
        t == s.push((k, val)),
    ensures
        keys_distinct(t),
        al_get(t, k) == Some(val),
        forall|k2: u64| k2 != k ==> #[trigger] al_get(t, k2) == al_get(s, k2),
{
    assert(keys_distinct(t));
    lemma_al_get_present(t, k, s.len() as int);
    assert forall|k2: u64| k2 != k implies #[trigger] al_get(t, k2) == al_get(s, k2) by {
        if al_get(s, k2) is Some {
            lemma_al_get_index(s, k2);
            let j = choose|j: int| 0 <= j < s.len() && #[trigger] s[j] == (k2, al_get(s, k2)->Some_0);
            assert(forall|m: int| 0 <= m < j ==> (#[trigger] t[m]).0 != k2);
            lemma_al_get_present(t, k2, j);
        } else {
            lemma_al_get_none(s, k2);
            assert(forall|j: int| 0 <= j < t.len() ==> (#[trigger] t[j]).0 != k2);
            lemma_al_get_absent(t, k2);
        }
    }
}

/// First-match lookup of the byte key `k` in the entry sequence.
pub open spec fn bl_get<V>(s: Seq<(Vec<u8>, V)>, k: Seq<u8>) -> Option<V>
    decreases s.len(),
{
    if s.len() == 0 {
        None
    } else if s[0].0@ == k {
        Some(s[0].1)
    } else {
        bl_get(s.drop_first(), k)
    }
}

/// No two entries share a byte key.
pub open spec fn bkeys_distinct<V>(s: Seq<(Vec<u8>, V)>) -> bool {
    forall|i: int, j: int| 0 <= i < j < s.len() ==> (#[trigger] s[i]).0@ != (#[trigger] s[j]).0@
}

/// Lookup finds the entry at the first index holding the byte key.
pub proof fn lemma_bl_get_present<V>(s: Seq<(Vec<u8>, V)>, k: Seq<u8>, i: int)
    requires
        0 <= i < s.len(),
        s[i].0@ == k,
        forall|j: int| 0 <= j < i ==> (#[trigger] s[j]).0@ != k,
    ensures
        bl_get(s, k) == Some(s[i].1),
    decreases i,
{
    if i > 0 {
        assert(forall|j: int| 0 <= j < i - 1 ==> (#[trigger] s.drop_first()[j]).0@ != k);
        lemma_bl_get_present(s.drop_first(), k, i - 1);
    }
}

/// Lookup misses when no entry holds the byte key.
pub proof fn lemma_bl_get_absent<V>(s: Seq<(Vec<u8>, V)>, k: Seq<u8>)
    requires
        forall|j: int| 0 <= j < s.len() ==> (#[trigger] s[j]).0@ != k,
    ensures
        bl_get(s, k) is None,
    decreases s.len(),
{
    if s.len() > 0 {
        assert(forall|j: int| 0 <= j < s.len() - 1 ==> (#[trigger] s.drop_first()[j]).0@ != k);
        lemma_bl_get_absent(s.drop_first(), k);
    }
}

/// A missed byte-key lookup means no entry holds the key.
pub proof fn lemma_bl_get_none<V>(s: Seq<(Vec<u8>, V)>, k: Seq<u8>)
    requires
        bl_get(s, k) is None,
    ensures
        forall|j: int| 0 <= j < s.len() ==> (#[trigger] s[j]).0@ != k,
    decreases s.len(),
{
    if s.len() > 0 {
        lemma_bl_get_none(s.drop_first(), k);
        assert forall|j: int| 0 <= j < s.len() implies (#[trigger] s[j]).0@ != k by {
            if j > 0 {
                assert(s.drop_first()[j - 1] == s[j]);
            }
        }
    }
}

/// A successful byte-key lookup names an actual entry of the list.
pub proof fn lemma_bl_get_index<V>(s: Seq<(Vec<u8>, V)>, k: Seq<u8>)
    requires
        bl_get(s, k) is Some,
    ensures
        exists|i: int|
            0 <= i < s.len() && (#[trigger] s[i]).0@ == k && s[i].1 == bl_get(s, k)->Some_0,
    decreases s.len(),
{
    if s.len() > 0 && s[0].0@ != k {
        lemma_bl_get_index(s.drop_first(), k);
        let i = choose|i: int|
            0 <= i < s.drop_first().len() && (#[trigger] s.drop_first()[i]).0@ == k
                && s.drop_first()[i].1 == bl_get(s.drop_first(), k)->Some_0;
        assert(s[i + 1].0@ == k && s[i + 1].1 == bl_get(s, k)->Some_0);
    }
}

/// Byte-wise equality of two byte vectors.
pub fn bytes_eq(a: &Vec<u8>, b: &Vec<u8>) -> (r: bool)
    ensures
        r == (a@ == b@),
{
    if a.len() != b.len() {
        return false;
    }
    let n = a.len();
    let mut i: usize = 0;
    while i < n
        invariant
            n == a@.len(),
            n == b@.len(),
            0 <= i <= n,
            forall|j: int| 0 <= j < i ==> a@[j] == b@[j],
        decreases n - i,
    {
        if a[i] != b[i] {
            return false;
        }
        i = i + 1;
    }
    proof {
        assert(a@ =~= b@);
    }
    true
}

/// A fresh copy of a byte vector.
pub fn clone_bytes(v: &Vec<u8>) -> (r: Vec<u8>)
    ensures
        r@ == v@,
{
    let n = v.len();
    let mut out: Vec<u8> = Vec::new();
    let mut i: usize = 0;
    while i < n
        invariant
            n == v@.len(),
            0 <= i <= n,
            out@ == v@.subrange(0, i as int),
        decreases n - i,
    {
        out.push(v[i]);
        proof {
            assert(out@ =~= v@.subrange(0, i + 1));
        }
        i = i + 1;
    }
    proof {
        assert(out@ =~= v@);
    }
    out
}

/// Looks the byte key `k` up in the list.
pub fn blist_get<V: Copy>(v: &Vec<(Vec<u8>, V)>, k: &Vec<u8>) -> (r: Option<V>)
    ensures
        r == bl_get(v@, k@),
{
    let n = v.len();
    let mut i: usize = 0;
    while i < n
        invariant
            n == v@.len(),
            0 <= i <= n,
            forall|j: int| 0 <= j < i ==> (#[trigger] v@[j]).0@ != k@,
        decreases n - i,
    {
        if bytes_eq(&v[i].0, k) {
            proof {
                lemma_bl_get_present(v@, k@, i as int);
            }
            return Some(v[i].1);
        }
        i = i + 1;
    }
    proof {
        lemma_bl_get_absent(v@, k@);
    }
    None
}

/// Binds the byte key `k` to `val`, replacing an existing entry or
/// appending a new one; every other key keeps its binding.
pub fn blist_set<V: Copy>(v: &mut Vec<(Vec<u8>, V)>, k: Vec<u8>, val: V)
    requires
        bkeys_distinct(old(v)@),
    ensures
        bkeys_distinct(final(v)@),
        bl_get(final(v)@, k@) == Some(val),
        forall|k2: Seq<u8>| k2 != k@ ==> #[trigger] bl_get(final(v)@, k2) == bl_get(old(v)@, k2),
        final(v)@.len() <= old(v)@.len() + 1,
{
    let n = v.len();
    let mut i: usize = 0;
    while i < n
        invariant
            n == v@.len(),
            0 <= i <= n,
            v@ == old(v)@,
            bkeys_distinct(old(v)@),
            forall|j: int| 0 <= j < i ==> (#[trigger] v@[j]).0@ != k@,
        decreases n - i,
    {
        if bytes_eq(&v[i].0, &k) {
            let ghost s = v@;
            v.set(i, (k, val));
            proof {
                lemma_bl_set_update(s, v@, i as int, val);
            }
            return ;
        }
        i = i + 1;
    }
    v.push((k, val));
    proof {
        lemma_bl_set_push(old(v)@, v@, val);
    }
}

/// The map semantics of replacing the byte-keyed entry at index `i`.
proof fn lemma_bl_set_update<V>(s: Seq<(Vec<u8>, V)>, t: Seq<(Vec<u8>, V)>, i: int, val: V)
    requires
        bkeys_distinct(s),
        0 <= i < s.len(),
        t.len() == s.len(),
        t[i].0@ == s[i].0@,
        t[i].1 == val,
        forall|j: int| 0 <= j < s.len() && j != i ==> #[trigger] t[j] == s[j],
    ensures
        bkeys_distinct(t),
        bl_get(t, s[i].0@) == Some(val),
        forall|k2: Seq<u8>| k2 != s[i].0@ ==> #[trigger] bl_get(t, k2) == bl_get(s, k2),
{
    let k = s[i].0@;
    assert(bkeys_distinct(t));
    assert(forall|j: int| 0 <= j < i ==> (#[trigger] t[j]).0@ != k);
    lemma_bl_get_present(t, k, i);
    assert forall|k2: Seq<u8>| k2 != k implies #[trigger] bl_get(t, k2) == bl_get(s, k2) by {
        if bl_get(s, k2) is Some {
            lemma_bl_get_index(s, k2);
            let j = choose|j: int|
                0 <= j < s.len() && (#[trigger] s[j]).0@ == k2 && s[j].1 == bl_get(s, k2)->Some_0;
            assert(forall|m: int| 0 <= m < j ==> (#[trigger] t[m]).0@ != k2);
            lemma_bl_get_present(t, k2, j);
        } else {
            lemma_bl_get_none(s, k2);
            assert(forall|j: int| 0 <= j < t.len() ==> (#[trigger] t[j]).0@ != k2);
            lemma_bl_get_absent(t, k2);
        }
    }
}

/// The map semantics of appending a fresh byte-keyed entry.
proof fn lemma_bl_set_push<V>(s: Seq<(Vec<u8>, V)>, t: Seq<(Vec<u8>, V)>, val: V)
    requires
        bkeys_distinct(s),
        t.len() == s.len() + 1,
        forall|j: int| 0 <= j < s.len() ==> #[trigger] t[j] == s[j],
        t[s.len() as int].1 == val,
        forall|j: int| 0 <= j < s.len() ==> (#[trigger] s[j]).0@ != t[s.len() as int].0@,
    ensures
        bkeys_distinct(t),
        bl_get(t, t[s.len() as int].0@) == Some(val),
        forall|k2: Seq<u8>| k2 != t[s.len() as int].0@ ==> #[trigger] bl_get(t, k2) == bl_get(
            s,
            k2,
        ),
{
    let k = t[s.len() as int].0@;
    assert(bkeys_distinct(t));
    lemma_bl_get_present(t, k, s.len() as int);
    assert forall|k2: Seq<u8>| k2 != k implies #[trigger] bl_get(t, k2) == bl_get(s, k2) by {
        if bl_get(s, k2) is Some {
            lemma_bl_get_index(s, k2);
            let j = choose|j: int|
                0 <= j < s.len() && (#[trigger] s[j]).0@ == k2 && s[j].1 == bl_get(s, k2)->Some_0;
            assert(forall|m: int| 0 <= m < j ==> (#[trigger] t[m]).0@ != k2);
            lemma_bl_get_present(t, k2, j);
        } else {
            lemma_bl_get_none(s, k2);
            assert(forall|j: int| 0 <= j < t.len() ==> (#[trigger] t[j]).0@ != k2);
            lemma_bl_get_absent(t, k2);
        }
    }
}

} // verus!
