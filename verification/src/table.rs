use vstd::prelude::*;

verus! {

/// A record that is filed in a sequence under a key drawn from one of its
/// fields. Members are filed under their identity, groups and projects
/// under their numeric id, users under their identity.
pub trait Keyed {
    type Key;

    /// The key under which this record is filed.
    spec fn key(self) -> Self::Key;
}

/// A canister id set is a table whose records are their own keys.
impl Keyed for Seq<u8> {
    type Key = Seq<u8>;

    open spec fn key(self) -> Seq<u8> {
        self
    }
}

/// The first record filed under `k`, if any.
pub open spec fn table_lookup<T: Keyed>(s: Seq<T>, k: T::Key) -> Option<T>
    decreases s.len(),
{
    if s.len() == 0 {
        None
    } else if s[0].key() == k {
        Some(s[0])
    } else {
        table_lookup(s.drop_first(), k)
    }
}

/// Whether some record is filed under `k`.
pub open spec fn table_contains<T: Keyed>(s: Seq<T>, k: T::Key) -> bool {
    table_lookup(s, k) is Some
}

/// The sequence with the first record filed under `k` replaced by `v`, or
/// with `v` appended when no record is filed under `k`.
pub open spec fn table_update<T: Keyed>(s: Seq<T>, k: T::Key, v: T) -> Seq<T>
    decreases s.len(),
{
    if s.len() == 0 {
        seq![v]
    } else if s[0].key() == k {
        seq![v] + s.drop_first()
    } else {
        seq![s[0]] + table_update(s.drop_first(), k, v)
    }
}

/// The sequence without the first record filed under `k`.
pub open spec fn table_remove<T: Keyed>(s: Seq<T>, k: T::Key) -> Seq<T>
    decreases s.len(),
{
    if s.len() == 0 {
        s
    } else if s[0].key() == k {
        s.drop_first()
    } else {
        seq![s[0]] + table_remove(s.drop_first(), k)
    }
}

/// No two records share a key.
pub open spec fn table_unique<T: Keyed>(s: Seq<T>) -> bool {
    forall|i: int, j: int| 0 <= i < j < s.len() ==> s[i].key() != s[j].key()
}

/// The table built by filing the records of `s` in order, so that for each
/// key the last record of `s` under that key is the one that remains.
pub open spec fn table_of<T: Keyed>(s: Seq<T>) -> Seq<T>
    decreases s.len(),
{
    if s.len() == 0 {
        s
    } else {
        table_update(table_of(s.drop_last()), s.last().key(), s.last())
    }
}

/// A lookup lands on the record at the first index whose key matches.
pub proof fn lemma_lookup_at<T: Keyed>(s: Seq<T>, i: int)
    requires
        0 <= i < s.len(),
        forall|j: int| 0 <= j < i ==> s[j].key() != s[i].key(),
    ensures
        table_lookup(s, s[i].key()) == Some(s[i]),
    decreases i,
{
    if i > 0 {
        lemma_lookup_at(s.drop_first(), i - 1);
    }
}

/// A lookup under a key that no record carries finds nothing.
pub proof fn lemma_lookup_none<T: Keyed>(s: Seq<T>, k: T::Key)
    requires
        forall|j: int| 0 <= j < s.len() ==> s[j].key() != k,
    ensures
        table_lookup(s, k) is None,
    decreases s.len(),
{
    if s.len() > 0 {
        lemma_lookup_none(s.drop_first(), k);
    }
}

/// Replacing the record at the first matching index is a table update.
pub proof fn lemma_update_at<T: Keyed>(s: Seq<T>, i: int, v: T)
    requires
        0 <= i < s.len(),
        forall|j: int| 0 <= j < i ==> s[j].key() != s[i].key(),
    ensures
        table_update(s, s[i].key(), v) == s.update(i, v),
    decreases i,
{
    if i == 0 {
        assert(table_update(s, s[i].key(), v) =~= s.update(i, v));
    } else {
        lemma_update_at(s.drop_first(), i - 1, v);
        assert(table_update(s, s[i].key(), v) =~= s.update(i, v));
    }
}

/// Appending a record whose key is absent is a table update.
pub proof fn lemma_update_absent<T: Keyed>(s: Seq<T>, k: T::Key, v: T)
    requires
        forall|j: int| 0 <= j < s.len() ==> s[j].key() != k,
    ensures
        table_update(s, k, v) == s.push(v),
    decreases s.len(),
{
    if s.len() == 0 {
        assert(table_update(s, k, v) =~= s.push(v));
    } else {
        lemma_update_absent(s.drop_first(), k, v);
        assert(table_update(s, k, v) =~= s.push(v));
    }
}

/// Dropping the record at the first matching index is a table removal.
pub proof fn lemma_remove_at<T: Keyed>(s: Seq<T>, i: int)
    requires
        0 <= i < s.len(),
        forall|j: int| 0 <= j < i ==> s[j].key() != s[i].key(),
    ensures
        table_remove(s, s[i].key()) == s.remove(i),
    decreases i,
{
    if i == 0 {
        assert(table_remove(s, s[i].key()) =~= s.remove(i));
    } else {
        lemma_remove_at(s.drop_first(), i - 1);
        assert(table_remove(s, s[i].key()) =~= s.remove(i));
    }
}

/// Removing a key that no record carries changes nothing.
pub proof fn lemma_remove_absent<T: Keyed>(s: Seq<T>, k: T::Key)
    requires
        forall|j: int| 0 <= j < s.len() ==> s[j].key() != k,
    ensures
        table_remove(s, k) == s,
    decreases s.len(),
{
    if s.len() > 0 {
        lemma_remove_absent(s.drop_first(), k);
        assert(table_remove(s, k) =~= s);
    }
}

/// A found record carries the key it was looked up under, and stands
/// somewhere in the table.
pub proof fn lemma_lookup_properties<T: Keyed>(s: Seq<T>, k: T::Key)
    ensures
        match table_lookup(s, k) {
            Some(r) => r.key() == k && exists|i: int| 0 <= i < s.len() && s[i] == r,
            None => true,
        },
    decreases s.len(),
{
    if s.len() > 0 && s[0].key() != k {
        lemma_lookup_properties(s.drop_first(), k);
        match table_lookup(s, k) {
            Some(r) => {
                let i = choose|i: int| 0 <= i < s.drop_first().len() && s.drop_first()[i] == r;
                assert(s[i + 1] == r);
            },
            None => {},
        }
    }
}

/// What a lookup finds after an update: the new record under its own key,
/// and under any other key whatever was found before.
pub proof fn lemma_lookup_update<T: Keyed>(s: Seq<T>, k: T::Key, v: T, k2: T::Key)
    requires
        v.key() == k,
    ensures
        table_lookup(table_update(s, k, v), k2) == if k2 == k {
            Some(v)
        } else {
            table_lookup(s, k2)
        },
    decreases s.len(),
{
    let t = table_update(s, k, v);
    if s.len() == 0 {
        assert(t =~= seq![v]);
        assert(t[0] == v);
        if k2 != k {
            assert(t.drop_first() =~= Seq::<T>::empty());
            assert(table_lookup(t.drop_first(), k2) is None);
        }
    } else if s[0].key() == k {
        assert(t =~= seq![v] + s.drop_first());
        assert(t[0] == v);
        if k2 != k {
            assert(t.drop_first() =~= s.drop_first());
            assert(table_lookup(t, k2) == table_lookup(s.drop_first(), k2));
            assert(table_lookup(s, k2) == table_lookup(s.drop_first(), k2));
        }
    } else {
        lemma_lookup_update(s.drop_first(), k, v, k2);
        assert(t =~= seq![s[0]] + table_update(s.drop_first(), k, v));
        assert(t[0] == s[0]);
        assert(t.drop_first() =~= table_update(s.drop_first(), k, v));
        if k2 == s[0].key() {
            assert(table_lookup(t, k2) == Some(s[0]));
            assert(table_lookup(s, k2) == Some(s[0]));
        } else {
            assert(table_lookup(t, k2) == table_lookup(t.drop_first(), k2));
            assert(table_lookup(s, k2) == table_lookup(s.drop_first(), k2));
        }
    }
}

/// What a lookup finds after a removal, provided keys are unique: nothing
/// under the removed key, and under any other key whatever was found before.
pub proof fn lemma_lookup_remove<T: Keyed>(s: Seq<T>, k: T::Key, k2: T::Key)
    requires
        table_unique(s),
    ensures
        table_lookup(table_remove(s, k), k2) == if k2 == k {
            None::<T>
        } else {
            table_lookup(s, k2)
        },
    decreases s.len(),
{
    if s.len() == 0 {
    } else if s[0].key() == k {
        if k2 == k {
            assert(forall|j: int| 0 <= j < s.drop_first().len() ==> s.drop_first()[j].key() != k);
            lemma_lookup_none(s.drop_first(), k);
        }
    } else {
        assert(table_unique(s.drop_first())) by {
            assert(forall|i: int, j: int|
                0 <= i < j < s.drop_first().len() ==> s.drop_first()[i].key()
                    != s.drop_first()[j].key());
        }
        lemma_lookup_remove(s.drop_first(), k, k2);
        assert(table_remove(s, k).drop_first() =~= table_remove(s.drop_first(), k));
    }
}

/// An update keeps keys unique when the new record is filed under the key
/// it carries.
pub proof fn lemma_update_unique<T: Keyed>(s: Seq<T>, k: T::Key, v: T)
    requires
        table_unique(s),
        v.key() == k,
    ensures
        table_unique(table_update(s, k, v)),
        table_update(s, k, v).len() == if table_contains(s, k) {
            s.len()
        } else {
            s.len() + 1
        },
    decreases s.len(),
{
    if s.len() == 0 {
    } else if s[0].key() == k {
        assert(table_update(s, k, v) =~= seq![v] + s.drop_first());
        assert(table_unique(s.drop_first()));
        assert forall|i: int, j: int|
            0 <= i < j < table_update(s, k, v).len() implies table_update(s, k, v)[i].key()
            != table_update(s, k, v)[j].key() by {
            if i == 0 {
                assert(table_update(s, k, v)[j] == s[j]);
                assert(s[0].key() != s[j].key());
            }
        }
    } else {
        assert(table_unique(s.drop_first()));
        lemma_update_unique(s.drop_first(), k, v);
        lemma_lookup_update(s.drop_first(), k, v, k);
        let t = table_update(s, k, v);
        assert(t =~= seq![s[0]] + table_update(s.drop_first(), k, v));
        assert forall|i: int, j: int| 0 <= i < j < t.len() implies t[i].key() != t[j].key() by {
            if i == 0 {
                let tu = table_update(s.drop_first(), k, v);
                assert(t[j] == tu[j - 1]);
                if t[j].key() == s[0].key() {
                    lemma_lookup_member(tu, j - 1);
                    lemma_lookup_update(s.drop_first(), k, v, t[j].key());
                    lemma_lookup_properties(s.drop_first(), t[j].key());
                    let w = choose|w: int|
                        0 <= w < s.drop_first().len() && s.drop_first()[w]
                            == table_lookup(s.drop_first(), t[j].key()).unwrap();
                    assert(s[w + 1].key() == s[0].key());
                }
            }
        }
    }
}

/// A removal keeps keys unique.
pub proof fn lemma_remove_unique<T: Keyed>(s: Seq<T>, k: T::Key)
    requires
        table_unique(s),
    ensures
        table_unique(table_remove(s, k)),
        table_remove(s, k).len() == if table_contains(s, k) {
            s.len() - 1
        } else {
            s.len() as int
        },
    decreases s.len(),
{
    if s.len() == 0 {
    } else if s[0].key() == k {
        assert(table_unique(s.drop_first()));
    } else {
        assert(table_unique(s.drop_first()));
        lemma_remove_unique(s.drop_first(), k);
        let t = table_remove(s, k);
        assert(t =~= seq![s[0]] + table_remove(s.drop_first(), k));
        assert forall|i: int, j: int| 0 <= i < j < t.len() implies t[i].key() != t[j].key() by {
            if i == 0 {
                lemma_remove_is_subset(s.drop_first(), k, j - 1);
            }
        }
    }
}

/// Every record of an update's result is the new record or was already
/// filed before the update.
pub proof fn lemma_update_is_subset<T: Keyed>(s: Seq<T>, k: T::Key, v: T, i: int)
    requires
        0 <= i < table_update(s, k, v).len(),
    ensures
        table_update(s, k, v)[i] == v || exists|j: int|
            0 <= j < s.len() && s[j] == table_update(s, k, v)[i],
    decreases s.len(),
{
    let t = table_update(s, k, v);
    if s.len() == 0 {
    } else if s[0].key() == k {
        assert(t =~= seq![v] + s.drop_first());
        if i > 0 {
            assert(s[i] == t[i]);
        }
    } else {
        assert(t =~= seq![s[0]] + table_update(s.drop_first(), k, v));
        if i == 0 {
            assert(s[0] == t[0]);
        } else {
            lemma_update_is_subset(s.drop_first(), k, v, i - 1);
            if t[i] != v {
                let j = choose|j: int|
                    0 <= j < s.drop_first().len() && s.drop_first()[j] == table_update(
                        s.drop_first(),
                        k,
                        v,
                    )[i - 1];
                assert(s[j + 1] == t[i]);
            }
        }
    }
}

/// Every record of a removal's result was already filed before the removal.
pub proof fn lemma_remove_is_subset<T: Keyed>(s: Seq<T>, k: T::Key, i: int)
    requires
        0 <= i < table_remove(s, k).len(),
    ensures
        exists|j: int| 0 <= j < s.len() && s[j] == table_remove(s, k)[i],
    decreases s.len(),
{
    if s.len() == 0 {
    } else if s[0].key() == k {
        assert(s[i + 1] == table_remove(s, k)[i]);
    } else {
        if i == 0 {
            assert(s[0] == table_remove(s, k)[0]);
        } else {
            assert(table_remove(s, k) =~= seq![s[0]] + table_remove(s.drop_first(), k));
            lemma_remove_is_subset(s.drop_first(), k, i - 1);
            let j = choose|j: int|
                0 <= j < s.drop_first().len() && s.drop_first()[j] == table_remove(
                    s.drop_first(),
                    k,
                )[i - 1];
            assert(s[j + 1] == table_remove(s, k)[i]);
        }
    }
}

/// Updating a key with the very record already filed there changes nothing.
pub proof fn lemma_update_same<T: Keyed>(s: Seq<T>, k: T::Key)
    requires
        table_contains(s, k),
    ensures
        table_update(s, k, table_lookup(s, k)->0) == s,
    decreases s.len(),
{
    if s.len() > 0 {
        if s[0].key() == k {
            assert(table_update(s, k, s[0]) =~= s);
        } else {
            lemma_update_same(s.drop_first(), k);
            assert(table_update(s, k, table_lookup(s, k)->0) =~= s);
        }
    }
}

/// If a record stands at index `i`, the lookup under its key finds a record
/// (not necessarily the one at `i`).
pub proof fn lemma_lookup_member<T: Keyed>(s: Seq<T>, i: int)
    requires
        0 <= i < s.len(),
    ensures
        table_contains(s, s[i].key()),
    decreases i,
{
    if s[0].key() == s[i].key() {
    } else {
        lemma_lookup_member(s.drop_first(), i - 1);
    }
}

/// A lookup that finds nothing means no record carries the key.
pub proof fn lemma_lookup_none_elements<T: Keyed>(s: Seq<T>, k: T::Key)
    requires
        table_lookup(s, k) is None,
    ensures
        forall|j: int| 0 <= j < s.len() ==> s[j].key() != k,
    decreases s.len(),
{
    if s.len() > 0 {
        lemma_lookup_none_elements(s.drop_first(), k);
        assert forall|j: int| 0 <= j < s.len() implies s[j].key() != k by {
            if j > 0 {
                assert(s.drop_first()[j - 1] == s[j]);
            }
        }
    }
}

/// Removal is idempotent on missing keys: dropping a key that no record
/// carries leaves the table exactly as it was. This is why removing a
/// member, a group or a project under an id that is not present succeeds
/// as a no-op instead of failing.
pub proof fn law_absent_removal_noop<T: Keyed>(s: Seq<T>, k: T::Key)
    requires
        !table_contains(s, k),
    ensures
        table_remove(s, k) == s,
{
    lemma_lookup_none_elements(s, k);
    lemma_remove_absent(s, k);
}

/// Filing records whose keys are already unique changes nothing: the table
/// built from them is the record list itself.
pub proof fn lemma_table_of_unique<T: Keyed>(s: Seq<T>)
    requires
        table_unique(s),
    ensures
        table_of(s) == s,
    decreases s.len(),
{
    if s.len() > 0 {
        assert(table_unique(s.drop_last()));
        lemma_table_of_unique(s.drop_last());
        assert(forall|j: int| 0 <= j < s.drop_last().len() ==> s.drop_last()[j].key() != s.last().key());
        lemma_update_absent(s.drop_last(), s.last().key(), s.last());
        assert(s.drop_last().push(s.last()) =~= s);
    }
}

} // verus!
