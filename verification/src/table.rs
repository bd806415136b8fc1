//! Tables keyed by text, kept in ascending key order, one entry per key.
//!
//! The analysis walks its owners, borrows and moved places in key order, so
//! the order is part of what it reports. Keys are compared character by
//! character by code point, which is the order of their UTF-8 bytes.

use vstd::prelude::*;

verus! {

/// `a` comes before `b`: at the first difference `a` has the smaller code
/// point, or `a` is a proper prefix of `b`.
pub open spec fn key_lt(a: Seq<char>, b: Seq<char>) -> bool
    decreases a.len(),
{
    if a.len() == 0 {
        b.len() > 0
    } else if b.len() == 0 {
        false
    } else if a[0] < b[0] {
        true
    } else if a[0] == b[0] {
        key_lt(a.drop_first(), b.drop_first())
    } else {
        false
    }
}

/// The keys ascend strictly, so each key occurs once.
pub open spec fn strictly_sorted<V>(t: Seq<(Seq<char>, V)>) -> bool {
    forall|i: int, j: int| 0 <= i < j < t.len() ==> key_lt(#[trigger] t[i].0, #[trigger] t[j].0)
}

/// The number of leading entries whose key comes before `k`: where `k` stands
/// or would be inserted.
pub open spec fn lower_bound<V>(t: Seq<(Seq<char>, V)>, k: Seq<char>) -> int
    decreases t.len(),
{
    if t.len() > 0 && key_lt(t[0].0, k) {
        1 + lower_bound(t.drop_first(), k)
    } else {
        0
    }
}

/// The value stored under `k`.
pub open spec fn table_get<V>(t: Seq<(Seq<char>, V)>, k: Seq<char>) -> Option<V> {
    let i = lower_bound(t, k);
    if i < t.len() && t[i].0 == k {
        Some(t[i].1)
    } else {
        None
    }
}

/// The table with `k` mapped to `v`: the entry for `k` is replaced, or a new
/// entry is placed where the order puts it.
pub open spec fn table_insert<V>(t: Seq<(Seq<char>, V)>, k: Seq<char>, v: V) -> Seq<
    (Seq<char>, V),
> {
    let i = lower_bound(t, k);
    if i < t.len() && t[i].0 == k {
        t.update(i, (k, v))
    } else {
        t.insert(i, (k, v))
    }
}

/// An entry of a table.
pub struct Entry<V> {
    pub key: Vec<char>,
    pub value: V,
}

/// The view of a table: its keys' texts with their values' views, in order.
pub open spec fn table_view<V: View>(t: Seq<Entry<V>>) -> Seq<(Seq<char>, V::V)> {
    Seq::new(t.len(), |i: int| (t[i].key@, t[i].value@))
}

/// No key comes before itself.
pub proof fn lemma_key_lt_irreflexive(a: Seq<char>)
    ensures
        !key_lt(a, a),
    decreases a.len(),
{
    if a.len() > 0 {
        lemma_key_lt_irreflexive(a.drop_first());
    }
}

/// The key order is transitive.
pub proof fn lemma_key_lt_transitive(a: Seq<char>, b: Seq<char>, c: Seq<char>)
    requires
        key_lt(a, b),
        key_lt(b, c),
    ensures
        key_lt(a, c),
    decreases a.len(),
{
    if a.len() > 0 && b.len() > 0 && c.len() > 0 && a[0] == b[0] && b[0] == c[0] {
        lemma_key_lt_transitive(a.drop_first(), b.drop_first(), c.drop_first());
    }
}

/// Of two different keys, one comes before the other.
pub proof fn lemma_key_lt_total(a: Seq<char>, b: Seq<char>)
    requires
        a != b,
    ensures
        key_lt(a, b) || key_lt(b, a),
    decreases a.len(),
{
    if a.len() == 0 {
        assert(b.len() > 0) by {
            if b.len() == 0 {
                assert(a =~= b);
            }
        }
    } else if b.len() == 0 {
    } else if a[0] == b[0] {
        if a.drop_first() == b.drop_first() {
            assert(a =~= seq![a[0]] + a.drop_first());
            assert(b =~= seq![b[0]] + b.drop_first());
        }
        lemma_key_lt_total(a.drop_first(), b.drop_first());
    }
}

/// The entries before the lower bound come before `k`; in a sorted table the
/// others do not.
pub proof fn lemma_lower_bound_split<V>(t: Seq<(Seq<char>, V)>, k: Seq<char>)
    ensures
        0 <= lower_bound(t, k) <= t.len(),
        forall|j: int| 0 <= j < lower_bound(t, k) ==> key_lt(#[trigger] t[j].0, k),
        strictly_sorted(t) ==> forall|j: int|
            lower_bound(t, k) <= j < t.len() ==> !key_lt(#[trigger] t[j].0, k),
    decreases t.len(),
{
    if t.len() > 0 && key_lt(t[0].0, k) {
        let r = t.drop_first();
        lemma_lower_bound_split(r, k);
        assert forall|j: int| 0 <= j < lower_bound(t, k) implies key_lt(#[trigger] t[j].0, k) by {
            if j > 0 {
                assert(t[j] == r[j - 1]);
            }
        }
        if strictly_sorted(t) {
            assert(strictly_sorted(r)) by {
                assert forall|a: int, b: int| 0 <= a < b < r.len() implies key_lt(
                    #[trigger] r[a].0,
                    #[trigger] r[b].0,
                ) by {
                    assert(r[a] == t[a + 1] && r[b] == t[b + 1]);
                }
            }
            assert forall|j: int| lower_bound(t, k) <= j < t.len() implies !key_lt(
                #[trigger] t[j].0,
                k,
            ) by {
                assert(t[j] == r[j - 1]);
            }
        }
    } else if t.len() > 0 && strictly_sorted(t) {
        assert forall|j: int| 0 <= j < t.len() implies !key_lt(#[trigger] t[j].0, k) by {
            if j > 0 && key_lt(t[j].0, k) {
                assert(key_lt(t[0].0, t[j].0));
                lemma_key_lt_transitive(t[0].0, t[j].0, k);
            }
        }
    }
}

/// In a sorted table, a lookup finds exactly the entry with that key.
pub proof fn lemma_get_sorted<V>(t: Seq<(Seq<char>, V)>, k: Seq<char>)
    requires
        strictly_sorted(t),
    ensures
        forall|j: int| 0 <= j < t.len() && t[j].0 == k ==> table_get(t, k) == Some(t[j].1),
        (forall|j: int| 0 <= j < t.len() ==> t[j].0 != k) ==> table_get(t, k) is None,
{
    lemma_lower_bound_split(t, k);
    let i = lower_bound(t, k);
    assert forall|j: int| 0 <= j < t.len() && t[j].0 == k implies table_get(t, k) == Some(
        t[j].1,
    ) by {
        if j < i {
            lemma_key_lt_irreflexive(k);
        } else if j > i {
            assert(key_lt(t[i].0, t[j].0));
            lemma_key_lt_total(t[i].0, k);
        }
    }
}

/// Inserting keeps a table sorted; afterwards a lookup of the inserted key
/// gives the inserted value, and a lookup of any other key gives what it gave
/// before.
pub proof fn lemma_table_insert<V>(t: Seq<(Seq<char>, V)>, k: Seq<char>, v: V)
    requires
        strictly_sorted(t),
    ensures
        strictly_sorted(table_insert(t, k, v)),
        table_get(table_insert(t, k, v), k) == Some(v),
        forall|k2: Seq<char>| k2 != k ==> table_get(table_insert(t, k, v), k2) == table_get(t, k2),
{
    lemma_lower_bound_split(t, k);
    let i = lower_bound(t, k);
    let r = table_insert(t, k, v);
    if i < t.len() && t[i].0 == k {
        assert(strictly_sorted(r)) by {
            assert forall|a: int, b: int| 0 <= a < b < r.len() implies key_lt(
                #[trigger] r[a].0,
                #[trigger] r[b].0,
            ) by {
                assert(r[a].0 == t[a].0 && r[b].0 == t[b].0);
            }
        }
        lemma_get_sorted(r, k);
        assert(r[i].0 == k);
        assert forall|k2: Seq<char>| k2 != k implies table_get(r, k2) == table_get(t, k2) by {
            lemma_get_sorted(r, k2);
            lemma_get_sorted(t, k2);
            if exists|j: int| 0 <= j < t.len() && t[j].0 == k2 {
                let j = choose|j: int| 0 <= j < t.len() && t[j].0 == k2;
                assert(r[j] == t[j]);
            } else {
                assert forall|j: int| 0 <= j < r.len() implies r[j].0 != k2 by {
                    if j != i {
                        assert(r[j] == t[j]);
                    }
                }
            }
        }
    } else {
        assert forall|j: int| i <= j < t.len() implies key_lt(k, #[trigger] t[j].0) by {
            if t[j].0 == k {
                if j > i {
                    assert(key_lt(t[i].0, t[j].0));
                    lemma_key_lt_total(t[i].0, k);
                }
            } else {
                lemma_key_lt_total(t[j].0, k);
            }
        }
        assert(strictly_sorted(r)) by {
            assert forall|a: int, b: int| 0 <= a < b < r.len() implies key_lt(
                #[trigger] r[a].0,
                #[trigger] r[b].0,
            ) by {
                if b < i {
                    assert(r[a] == t[a] && r[b] == t[b]);
                } else if b == i {
                    assert(r[a] == t[a]);
                } else if a < i {
                    assert(r[a] == t[a] && r[b] == t[b - 1]);
                    assert(key_lt(k, t[b - 1].0));
                    lemma_key_lt_transitive(t[a].0, k, t[b - 1].0);
                } else if a == i {
                    assert(r[b] == t[b - 1]);
                } else {
                    assert(r[a] == t[a - 1] && r[b] == t[b - 1]);
                }
            }
        }
        lemma_get_sorted(r, k);
        assert(r[i].0 == k);
        assert forall|k2: Seq<char>| k2 != k implies table_get(r, k2) == table_get(t, k2) by {
            lemma_get_sorted(r, k2);
            lemma_get_sorted(t, k2);
            if exists|j: int| 0 <= j < t.len() && t[j].0 == k2 {
                let j = choose|j: int| 0 <= j < t.len() && t[j].0 == k2;
                if j < i {
                    assert(r[j] == t[j]);
                } else {
                    assert(r[j + 1] == t[j]);
                }
            } else {
                assert forall|j: int| 0 <= j < r.len() implies r[j].0 != k2 by {
                    if j < i {
                        assert(r[j] == t[j]);
                    } else if j > i {
                        assert(r[j] == t[j - 1]);
                    }
                }
            }
        }
    }
}

pub proof fn lemma_lower_bound_range<V>(t: Seq<(Seq<char>, V)>, k: Seq<char>)
    ensures
        0 <= lower_bound(t, k) <= t.len(),
    decreases t.len(),
{
    if t.len() > 0 && key_lt(t[0].0, k) {
        lemma_lower_bound_range(t.drop_first(), k);
    }
}

pub fn key_lt_exec(a: &Vec<char>, b: &Vec<char>) -> (r: bool)
    ensures
        r == key_lt(a@, b@),
{
    let mut i: usize = 0;
    assert(a@.skip(0) =~= a@);
    assert(b@.skip(0) =~= b@);
    while i < a.len() && i < b.len() && a[i] == b[i]
        invariant
            i <= a.len(),
            i <= b.len(),
            key_lt(a@, b@) == key_lt(a@.skip(i as int), b@.skip(i as int)),
        decreases a.len() - i,
    {
        assert(a@.skip(i as int).drop_first() =~= a@.skip(i + 1));
        assert(b@.skip(i as int).drop_first() =~= b@.skip(i + 1));
        i += 1;
    }
    if i == a.len() {
        i < b.len()
    } else if i == b.len() {
        false
    } else {
        a[i] < b[i]
    }
}

/// Where `k` stands in the table, or would be inserted.
pub fn lower_bound_exec<V: View>(t: &Vec<Entry<V>>, k: &Vec<char>) -> (i: usize)
    ensures
        i as int == lower_bound(table_view(t@), k@),
        i <= t.len(),
{
    let ghost tv = table_view(t@);
    let mut i: usize = 0;
    assert(tv.skip(0) =~= tv);
    while i < t.len() && key_lt_exec(&t[i].key, k)
        invariant
            i <= t.len(),
            tv == table_view(t@),
            lower_bound(tv, k@) == i + lower_bound(tv.skip(i as int), k@),
        decreases t.len() - i,
    {
        assert(tv.skip(i as int).drop_first() =~= tv.skip(i + 1));
        i += 1;
    }
    i
}

/// The position of the entry for `k`, if there is one.
pub fn table_find<V: View>(t: &Vec<Entry<V>>, k: &Vec<char>) -> (r: Option<usize>)
    ensures
        r matches Some(i) ==> i < t.len() && i as int == lower_bound(table_view(t@), k@) && t@[i as int].key@
            == k@,
        r is None ==> table_get(table_view(t@), k@) is None,
        r is None <==> table_get(table_view(t@), k@) is None,
{
    let i = lower_bound_exec(t, k);
    if i < t.len() && crate::text::chars_eq(&t[i].key, k) {
        Some(i)
    } else {
        None
    }
}

/// Maps `k` to `v` in the table.
pub fn table_insert_exec<V: View>(t: &mut Vec<Entry<V>>, k: Vec<char>, v: V)
    ensures
        table_view(final(t)@) == table_insert(table_view(old(t)@), k@, v@),
{
    let i = lower_bound_exec(t, &k);
    if i < t.len() && crate::text::chars_eq(&t[i].key, &k) {
        let _ = t.remove(i);
        t.insert(i, Entry { key: k, value: v });
        assert(table_view(t@) =~= table_insert(table_view(old(t)@), k@, v@));
    } else {
        t.insert(i, Entry { key: k, value: v });
        assert(table_view(t@) =~= table_insert(table_view(old(t)@), k@, v@));
    }
}

} // verus!
