use vstd::prelude::*;
use vstd::string::*;
use crate::error::Error;
use crate::metrics::{count_of, dump, has_key, occurrences, Counters, Table};

verus! {

/// Counters under a set of keys that is fixed when they are made: an
/// increment of any other key is refused.
pub struct AmapMetrics {
    table: Table,
}

/// The counters that a list of names registers: one for each name, at
/// zero, in the order of the list; a name that occurs again is passed over.
pub open spec fn registered(names: Seq<Seq<char>>) -> Counters
    decreases names.len(),
{
    if names.len() == 0 {
        Counters::empty()
    } else {
        let earlier = registered(names.drop_last());
        if has_key(earlier, names.last()) {
            earlier
        } else {
            earlier.push((names.last(), 0))
        }
    }
}

/// The count that follows `count` when a counter wraps around at the ends
/// of `i64`.
pub open spec fn next_count(count: int) -> int {
    if count >= i64::MAX {
        i64::MIN as int
    } else {
        count + 1
    }
}

/// The counters after one increment of `key` in a fixed set: the count
/// under `key` moves on to the next, and nothing else changes.
pub open spec fn advanced(counters: Counters, key: Seq<char>) -> Counters {
    Seq::new(
        counters.len(),
        |i: int|
            if counters[i].0 == key {
                (key, next_count(counters[i].1))
            } else {
                counters[i]
            },
    )
}

/// The counters of a fixed set after the increments of `keys`, one after
/// the other; an increment of a key that the set does not hold changes
/// nothing.
pub open spec fn advanced_through(counters: Counters, keys: Seq<Seq<char>>) -> Counters
    decreases keys.len(),
{
    if keys.len() == 0 {
        counters
    } else {
        advanced(advanced_through(counters, keys.drop_last()), keys.last())
    }
}

/// One increment in a fixed set moves the count of its key on, where the
/// set holds the key, changes no other count, and adds or removes no key.
pub proof fn lemma_advanced_count(counters: Counters, key: Seq<char>, other: Seq<char>)
    ensures
        has_key(advanced(counters, key), other) == has_key(counters, other),
        count_of(advanced(counters, key), other) == if other == key && has_key(counters, key) {
            next_count(count_of(counters, other))
        } else {
            count_of(counters, other)
        },
    decreases counters.len(),
{
    let after = advanced(counters, key);
    if has_key(counters, other) {
        let i = choose|i: int| 0 <= i < counters.len() && (#[trigger] counters[i]).0 == other;
        assert(after[i].0 == other);
    }
    if has_key(after, other) {
        let i = choose|i: int| 0 <= i < after.len() && (#[trigger] after[i]).0 == other;
        assert(counters[i].0 == other);
    }
    if counters.len() > 0 {
        let rest = counters.drop_last();
        assert(after.drop_last() =~= advanced(rest, key));
        lemma_advanced_count(rest, key, other);
        if counters.last().0 == key {
            assert(counters[counters.len() - 1].0 == key);
        } else if has_key(counters, key) {
            let i = choose|i: int| 0 <= i < counters.len() && (#[trigger] counters[i]).0 == key;
            assert(rest[i].0 == key);
        } else if has_key(rest, key) {
            let i = choose|i: int| 0 <= i < rest.len() && (#[trigger] rest[i]).0 == key;
            assert(counters[i].0 == key);
        }
    }
}

/// No update is lost in a fixed set either: after any sequence of
/// increments, in whatever order the increments of several callers were
/// interleaved, the count of a key of the set has risen by exactly the
/// number of increments of that key, as long as it stays within `i64`.
pub proof fn law_every_registered_increment_counts(
    counters: Counters,
    keys: Seq<Seq<char>>,
    key: Seq<char>,
)
    requires
        has_key(counters, key),
        count_of(counters, key) + occurrences(keys, key) <= i64::MAX,
    ensures
        count_of(advanced_through(counters, keys), key) == count_of(counters, key) + occurrences(
            keys,
            key,
        ),
        has_key(advanced_through(counters, keys), key),
    decreases keys.len(),
{
    if keys.len() > 0 {
        law_every_registered_increment_counts(counters, keys.drop_last(), key);
        lemma_advanced_count(advanced_through(counters, keys.drop_last()), keys.last(), key);
    }
}

/// The texts of a list of names.
pub open spec fn texts(names: Seq<&'static str>) -> Seq<Seq<char>> {
    Seq::new(names.len(), |i: int| names[i]@)
}

impl View for AmapMetrics {
    type V = Counters;

    closed spec fn view(&self) -> Counters {
        self.table@
    }
}

impl AmapMetrics {
    /// Counters for the given names, all at zero. No key can be added
    /// later.
    pub fn new(metrics_names: &[&'static str]) -> (m: Self)
        ensures
            m@ == registered(texts(metrics_names@)),
    {
        let mut table = Table::new();
        let mut i: usize = 0;
        assert(texts(metrics_names@).take(0) =~= Seq::<Seq<char>>::empty());
        while i < metrics_names.len()
            invariant
                i <= metrics_names@.len(),
                table@ == registered(texts(metrics_names@).take(i as int)),
            decreases metrics_names@.len() - i,
        {
            let name = String::from_str(metrics_names[i]);
            proof {
                let all = texts(metrics_names@);
                assert(all.take(i + 1).drop_last() =~= all.take(i as int));
                assert(all.take(i + 1).last() == name@);
            }
            let at = table.position(&name);
            if at == table.len() {
                table.append(name, 0);
            }
            i = i + 1;
        }
        assert(texts(metrics_names@).take(i as int) =~= texts(metrics_names@));
        AmapMetrics { table }
    }

    /// The count under `key`, if it is one of the keys.
    pub fn get(&self, key: &str) -> (count: Option<i64>)
        ensures
            match count {
                Some(c) => has_key(self@, key@) && c == count_of(self@, key@),
                None => !has_key(self@, key@),
            },
    {
        self.table.get(key)
    }

    /// Counts one more access under `key`, which has to be one of the keys
    /// that the counters were made with; otherwise the key is reported as
    /// not found and nothing changes. A counter that has reached the
    /// largest `i64` starts again at the smallest.
    pub fn inc(&mut self, key: &str) -> (result: Result<(), Error>)
        ensures
            match result {
                Ok(_) => has_key(old(self)@, key@) && final(self)@ == advanced(old(self)@, key@),
                Err(e) => e == Error::KeyNotFound && !has_key(old(self)@, key@) && final(self)@
                    == old(self)@,
            },
    {
        let key = String::from_str(key);
        let at = self.table.position(&key);
        if at < self.table.len() {
            let count = self.table.count_at(at);
            self.table.store(at, count.wrapping_add(1));
            assert(self@ =~= advanced(old(self)@, key@));
            Ok(())
        } else {
            Err(Error::KeyNotFound)
        }
    }

    /// The dump of the counters: a line `key: count` for each key, in the
    /// order in which the keys were given.
    pub fn to_string(&self) -> (s: String)
        ensures
            s@ == dump(self@),
    {
        self.table.to_string()
    }
}

} // verus!
