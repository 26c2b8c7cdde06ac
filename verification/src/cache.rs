//! A cache that forgets its oldest entries when the bytes it retains pass a limit.

use vstd::prelude::*;

verus! {

/// The bytes that one cache retains at most.
pub const CACHE_LIMIT: usize = 33554432;

/// One remembered value: its key, its model and its size in bytes.
pub type Remembered<M> = (usize, M, usize);

/// The bytes of all entries.
pub open spec fn total<M>(entries: Seq<Remembered<M>>) -> nat
    decreases entries.len(),
{
    if entries.len() == 0 {
        0
    } else {
        total(entries.drop_last()) + entries.last().2 as nat
    }
}

/// The latest entries that together stay within the limit.
pub open spec fn fitting<M>(entries: Seq<Remembered<M>>) -> Seq<Remembered<M>>
    decreases entries.len(),
{
    if total(entries) > CACHE_LIMIT && entries.len() > 0 {
        fitting(entries.skip(1))
    } else {
        entries
    }
}

/// The position of a key, or the length where there is none.
pub open spec fn position<M>(entries: Seq<Remembered<M>>, key: usize) -> int
    decreases entries.len(),
{
    if entries.len() == 0 {
        0
    } else if entries[0].0 == key {
        0
    } else {
        1 + position(entries.skip(1), key)
    }
}

/// The value remembered for a key.
pub open spec fn lookup<M>(entries: Seq<Remembered<M>>, key: usize) -> Option<M> {
    let at = position(entries, key);
    if at < entries.len() {
        Some(entries[at].1)
    } else {
        None
    }
}

/// The entries but for the one of a key.
pub open spec fn without<M>(entries: Seq<Remembered<M>>, key: usize) -> Seq<Remembered<M>> {
    let at = position(entries, key);
    if at < entries.len() {
        entries.remove(at)
    } else {
        entries
    }
}

/// The entries after a value was put in last.
pub open spec fn inserted<M>(
    entries: Seq<Remembered<M>>,
    key: usize,
    value: M,
    bytes: usize,
) -> Seq<Remembered<M>> {
    fitting(without(entries, key).push((key, value, bytes)))
}

/// The entries with the value of a key exchanged.
pub open spec fn replaced<M>(entries: Seq<Remembered<M>>, key: usize, value: M) -> Seq<
    Remembered<M>,
> {
    let at = position(entries, key);
    if at < entries.len() {
        entries.update(at, (key, value, entries[at].2))
    } else {
        entries
    }
}

/// No key occurs twice and the limit is kept.
pub open spec fn sound<M>(entries: Seq<Remembered<M>>) -> bool {
    &&& forall|i: int, j: int|
        0 <= i < j < entries.len() ==> (#[trigger] entries[i]).0 != (#[trigger] entries[j]).0
    &&& total(entries) <= CACHE_LIMIT
}

pub proof fn lemma_position<M>(entries: Seq<Remembered<M>>, key: usize)
    ensures
        0 <= position(entries, key) <= entries.len(),
        position(entries, key) < entries.len() ==> entries[position(entries, key)].0 == key,
        forall|i: int| 0 <= i < position(entries, key) ==> (#[trigger] entries[i]).0 != key,
    decreases entries.len(),
{
    if entries.len() > 0 && entries[0].0 != key {
        let rest = entries.skip(1);
        lemma_position(rest, key);
        assert forall|i: int| 0 <= i < position(entries, key) implies (#[trigger] entries[i]).0
            != key by {
            if i > 0 {
                assert(rest[i - 1] == entries[i]);
            }
        }
        if position(rest, key) < rest.len() {
            assert(rest[position(rest, key)] == entries[position(entries, key)]);
        }
    }
}

proof fn lemma_position_at<M>(entries: Seq<Remembered<M>>, key: usize, at: int)
    requires
        0 <= at <= entries.len(),
        at < entries.len() ==> entries[at].0 == key,
        forall|i: int| 0 <= i < at ==> (#[trigger] entries[i]).0 != key,
    ensures
        position(entries, key) == at,
{
    lemma_position(entries, key);
    let found = position(entries, key);
    if found < at {
        assert(entries[found].0 != key);
    }
}

proof fn lemma_total_first<M>(entries: Seq<Remembered<M>>)
    requires
        entries.len() > 0,
    ensures
        total(entries) == entries[0].2 + total(entries.skip(1)),
    decreases entries.len(),
{
    if entries.len() > 1 {
        lemma_total_first(entries.drop_last());
        assert(entries.drop_last().skip(1) =~= entries.skip(1).drop_last());
    } else {
        assert(entries.skip(1) =~= Seq::empty());
        assert(entries.drop_last() =~= Seq::empty());
    }
}

proof fn lemma_total_remove<M>(entries: Seq<Remembered<M>>, at: int)
    requires
        0 <= at < entries.len(),
    ensures
        total(entries) == total(entries.remove(at)) + entries[at].2,
    decreases entries.len(),
{
    if at == entries.len() - 1 {
        assert(entries.remove(at) =~= entries.drop_last());
    } else {
        lemma_total_remove(entries.drop_last(), at);
        assert(entries.drop_last().remove(at) =~= entries.remove(at).drop_last());
    }
}

proof fn lemma_total_update<M>(entries: Seq<Remembered<M>>, at: int, value: M)
    requires
        0 <= at < entries.len(),
    ensures
        total(entries.update(at, (entries[at].0, value, entries[at].2))) == total(entries),
    decreases entries.len(),
{
    let changed = entries.update(at, (entries[at].0, value, entries[at].2));
    if at == entries.len() - 1 {
        assert(changed.drop_last() =~= entries.drop_last());
    } else {
        lemma_total_update(entries.drop_last(), at, value);
        assert(changed.drop_last() =~= entries.drop_last().update(
            at,
            (entries[at].0, value, entries[at].2),
        ));
    }
}

proof fn lemma_fitting<M>(entries: Seq<Remembered<M>>)
    ensures
        total(fitting(entries)) <= CACHE_LIMIT,
        fitting(entries).len() <= entries.len(),
        fitting(entries) == entries.skip(entries.len() - fitting(entries).len()),
    decreases entries.len(),
{
    if total(entries) > CACHE_LIMIT && entries.len() > 0 {
        lemma_fitting(entries.skip(1));
        let kept = fitting(entries);
        assert(kept =~= entries.skip(entries.len() - kept.len()));
    } else {
        assert(entries.skip(0) =~= entries);
    }
}

/// Putting a value in keeps the cache sound.
pub proof fn insertion_keeps_soundness<M>(
    entries: Seq<Remembered<M>>,
    key: usize,
    value: M,
    bytes: usize,
)
    requires
        sound(entries),
    ensures
        sound(inserted(entries, key, value, bytes)),
{
    lemma_position(entries, key);
    let kept = without(entries, key);
    let all = kept.push((key, value, bytes));
    lemma_fitting(all);
    assert forall|i: int, j: int| 0 <= i < j < all.len() implies (#[trigger] all[i]).0 != (
    #[trigger] all[j]).0 by {
        let at = position(entries, key);
        let p = if i < at { i } else { i + 1 };
        if j == all.len() - 1 {
            if at < entries.len() {
                assert(all[i] == entries[p]);
                if p > at {
                    assert(entries[at].0 != entries[p].0);
                }
            } else {
                assert(all[i] == entries[i]);
            }
        } else if at < entries.len() {
            let q = if j < at { j } else { j + 1 };
            assert(all[i] == entries[p]);
            assert(all[j] == entries[q]);
        } else {
            assert(all[i] == entries[i]);
            assert(all[j] == entries[j]);
        }
    }
    let result = fitting(all);
    let dropped = all.len() - result.len();
    assert forall|i: int, j: int| 0 <= i < j < result.len() implies (#[trigger] result[i]).0 != (
    #[trigger] result[j]).0 by {
        assert(result[i] == all[i + dropped]);
        assert(result[j] == all[j + dropped]);
    }
}

proof fn lemma_fitting_keeps_last<M>(entries: Seq<Remembered<M>>)
    requires
        entries.len() > 0,
        entries.last().2 <= CACHE_LIMIT,
    ensures
        fitting(entries).len() > 0,
        fitting(entries).last() == entries.last(),
    decreases entries.len(),
{
    if total(entries) > CACHE_LIMIT {
        if entries.len() == 1 {
            assert(entries.drop_last() =~= Seq::empty());
            assert(total(entries.drop_last()) == 0);
            assert(false);
        }
        lemma_fitting_keeps_last(entries.skip(1));
        assert(entries.skip(1).last() == entries.last());
    }
}

/// A value that fits is found again after it was put in, and one that does not
/// fit by itself leaves the cache empty.
pub proof fn insertion_is_found<M>(
    entries: Seq<Remembered<M>>,
    key: usize,
    value: M,
    bytes: usize,
)
    requires
        sound(entries),
    ensures
        bytes <= CACHE_LIMIT ==> lookup(inserted(entries, key, value, bytes), key) == Some(value),
        bytes > CACHE_LIMIT ==> inserted(entries, key, value, bytes).len() == 0,
{
    let all = without(entries, key).push((key, value, bytes));
    let result = inserted(entries, key, value, bytes);
    insertion_keeps_soundness(entries, key, value, bytes);
    lemma_fitting(all);
    if bytes <= CACHE_LIMIT {
        lemma_fitting_keeps_last(all);
        assert forall|i: int| 0 <= i < result.len() - 1 implies (#[trigger] result[i]).0 != key by {
            assert(result[i].0 != result[result.len() - 1].0);
        }
        lemma_position_at(result, key, result.len() - 1);
    } else if result.len() > 0 {
        assert(result.last() == all.last());
        assert(total(result) >= bytes);
    }
}

/// Putting a value in never changes what is remembered for another key: it stays
/// as it was or is forgotten.
pub proof fn insertion_keeps_other_values<M>(
    entries: Seq<Remembered<M>>,
    key: usize,
    value: M,
    bytes: usize,
    other: usize,
)
    requires
        sound(entries),
        other != key,
    ensures
        lookup(inserted(entries, key, value, bytes), other) is None || lookup(
            inserted(entries, key, value, bytes),
            other,
        ) == lookup(entries, other),
{
    let kept = without(entries, key);
    let all = kept.push((key, value, bytes));
    let result = fitting(all);
    lemma_position(entries, key);
    lemma_position(entries, other);
    lemma_fitting(all);
    lemma_position(result, other);
    let at = position(result, other);
    if at < result.len() {
        let dropped = all.len() - result.len();
        assert(result[at] == all[at + dropped]);
        let p = at + dropped;
        assert(p < kept.len());
        let gone = position(entries, key);
        let q = if gone < entries.len() && p >= gone { p + 1 } else { p };
        assert(kept[p] == entries[q]);
        let found = position(entries, other);
        if found < q {
            assert(entries[found].0 != entries[q].0);
        } else if found > q {
            assert(entries[q].0 != other);
        }
    }
}

/// A cache of values by file index.
pub struct Cache<V> {
    entries: Vec<(usize, V, usize)>,
    bytes: usize,
}

impl<V: DeepView> DeepView for Cache<V> {
    type V = Seq<Remembered<V::V>>;

    closed spec fn deep_view(&self) -> Seq<Remembered<V::V>> {
        Seq::new(
            self.entries@.len(),
            |i: int|
                (self.entries@[i].0, self.entries@[i].1.deep_view(), self.entries@[i].2),
        )
    }
}

impl<V: DeepView> Cache<V> {
    /// The stored byte count is that of the entries, which are sound.
    pub closed spec fn well_formed(&self) -> bool {
        &&& self.bytes == total(self.deep_view())
        &&& sound(self.deep_view())
    }

    /// The entries of a well-formed cache are sound.
    pub proof fn caches_are_sound(&self)
        requires
            self.well_formed(),
        ensures
            sound(self.deep_view()),
    {
    }

    /// An empty cache.
    pub fn new() -> (r: Cache<V>)
        ensures
            r.well_formed(),
            r.deep_view() == Seq::<Remembered<V::V>>::empty(),
    {
        let r = Cache { entries: Vec::new(), bytes: 0 };
        assert(r.deep_view() =~= Seq::<Remembered<V::V>>::empty());
        r
    }

    fn find(&self, key: usize) -> (r: usize)
        ensures
            r == position(self.deep_view(), key),
            r <= self.entries@.len(),
            self.entries@.len() == self.deep_view().len(),
    {
        let mut i: usize = 0;
        while i < self.entries.len() && self.entries[i].0 != key
            invariant
                i <= self.entries@.len(),
                self.entries@.len() == self.deep_view().len(),
                forall|j: int| 0 <= j < i ==> (#[trigger] self.deep_view()[j]).0 != key,
            decreases self.entries@.len() - i,
        {
            i = i + 1;
        }
        proof {
            lemma_position_at(self.deep_view(), key, i as int);
        }
        i
    }

    /// Remembers a value, forgetting what was remembered for the key and then the
    /// oldest entries until the limit is kept.
    pub fn insert(&mut self, key: usize, value: V, bytes: usize)
        requires
            old(self).well_formed(),
        ensures
            final(self).well_formed(),
            final(self).deep_view() == inserted(
                old(self).deep_view(),
                key,
                value.deep_view(),
                bytes,
            ),
    {
        let ghost before = self.deep_view();
        let ghost kept = without(before, key);
        let ghost all = kept.push((key, value.deep_view(), bytes));
        proof {
            insertion_keeps_soundness(before, key, value.deep_view(), bytes);
            lemma_position(before, key);
        }
        let at: usize = self.find(key);
        if at < self.entries.len() {
            proof {
                lemma_total_remove(before, at as int);
            }
            let gone = self.entries.remove(at);
            self.bytes = self.bytes.saturating_sub(gone.2);
            assert(self.deep_view() =~= before.remove(at as int));
        }
        assert(self.deep_view() == kept);
        assert(self.bytes == total(kept));
        self.entries.push((key, value, bytes));
        assert(self.deep_view() =~= all);
        assert(all.drop_last() =~= kept);
        self.bytes = self.bytes.saturating_add(bytes);
        let ghost excess = total(all) - self.bytes;
        assert(excess == 0 || bytes - excess > CACHE_LIMIT);
        while self.bytes > CACHE_LIMIT
            invariant
                fitting(self.deep_view()) == fitting(all),
                self.entries@.len() == self.deep_view().len(),
                all.last().2 == bytes,
                excess == 0 || bytes - excess > CACHE_LIMIT,
                excess >= 0,
                self.deep_view().len() > 0 ==> self.deep_view().last() == all.last(),
                self.deep_view().len() > 0 ==> total(self.deep_view()) - self.bytes == excess,
                self.deep_view().len() == 0 ==> self.bytes == 0,
            decreases self.entries@.len(),
        {
            let ghost now = self.deep_view();
            proof {
                lemma_total_first(now);
                if now.len() > 1 {
                    assert(now.skip(1).last() == now.last());
                    assert(total(now.skip(1)) >= bytes);
                } else {
                    assert(now.skip(1) =~= Seq::empty());
                }
            }
            let gone = self.entries.remove(0);
            self.bytes = self.bytes.saturating_sub(gone.2);
            assert(self.deep_view() =~= now.skip(1));
        }
        proof {
            let now = self.deep_view();
            if now.len() > 0 {
                assert(total(now) >= now.last().2);
            }
            assert(self.bytes == total(now));
            assert(fitting(now) == now);
        }
    }

    /// The value remembered for a key.
    pub fn get(&self, key: usize) -> (r: Option<&V>)
        ensures
            match r {
                Some(value) => lookup(self.deep_view(), key) == Some(value.deep_view()),
                None => lookup(self.deep_view(), key) is None,
            },
    {
        let at: usize = self.find(key);
        if at < self.entries.len() {
            Some(&self.entries[at].1)
        } else {
            None
        }
    }

    /// The value remembered for a key, for changing it in place.
    pub fn get_mut(&mut self, key: usize) -> (r: Option<&mut V>)
        requires
            old(self).well_formed(),
        ensures
            match r {
                Some(value) => {
                    &&& lookup(old(self).deep_view(), key) == Some((*value).deep_view())
                    &&& final(self).deep_view() =~= replaced(
                        old(self).deep_view(),
                        key,
                        (*final(value)).deep_view(),
                    )
                    &&& final(self).well_formed()
                },
                None => {
                    &&& lookup(old(self).deep_view(), key) is None
                    &&& *final(self) == *old(self)
                },
            },
    {
        let ghost before = self.deep_view();
        let at: usize = self.find(key);
        proof {
            lemma_position(before, key);
        }
        if at < self.entries.len() {
            assert forall|m: V::V|
                total(#[trigger] replaced(before, key, m)) == total(before) && sound(
                    replaced(before, key, m),
                ) by {
                lemma_total_update(before, at as int, m);
                let changed = replaced(before, key, m);
                assert forall|i: int, j: int| 0 <= i < j < changed.len() implies (
                #[trigger] changed[i]).0 != (#[trigger] changed[j]).0 by {
                    assert(before[i].0 != before[j].0);
                }
            }
            Some(&mut self.entries[at].1)
        } else {
            None
        }
    }

    /// Forgets everything.
    pub fn clear(&mut self)
        ensures
            final(self).well_formed(),
            final(self).deep_view() == Seq::<Remembered<V::V>>::empty(),
    {
        self.entries.clear();
        self.bytes = 0;
        assert(self.deep_view() =~= Seq::<Remembered<V::V>>::empty());
    }
}

} // verus!
