use vstd::prelude::*;
use vstd::string::*;
use crate::metrics::{bumped, count_of, dump, has_key, Counters, Table};

verus! {

/// Counters under keys that need not be known beforehand: an increment of a
/// key that is not held yet adds it.
pub struct Metrics {
    table: Table,
}

impl View for Metrics {
    type V = Counters;

    closed spec fn view(&self) -> Counters {
        self.table@
    }
}

impl Metrics {
    /// An empty set of counters.
    pub fn new() -> (m: Self)
        ensures
            m@ == Counters::empty(),
    {
        Metrics { table: Table::new() }
    }

    /// The count under `key`, if the counters hold it.
    pub fn get(&self, key: &str) -> (count: Option<i64>)
        ensures
            match count {
                Some(c) => has_key(self@, key@) && c == count_of(self@, key@),
                None => !has_key(self@, key@),
            },
    {
        self.table.get(key)
    }

    /// Counts one more access under `key`; a key that is not held yet is
    /// added with the count one.
    ///
    /// The count must be able to rise: a counter that has reached the
    /// largest `i64` cannot be incremented.
    pub fn inc(&mut self, key: &str)
        requires
            count_of(old(self)@, key@) < i64::MAX,
        ensures
            final(self)@ == bumped(old(self)@, key@),
    {
        let key = String::from_str(key);
        let at = self.table.position(&key);
        if at < self.table.len() {
            let count = self.table.count_at(at);
            self.table.store(at, count + 1);
            assert(self@ =~= bumped(old(self)@, key@));
        } else {
            self.table.append(key, 1);
        }
    }

    /// The dump of the counters: a line `key: count` for each key, in the
    /// order in which the keys were first counted.
    pub fn to_string(&self) -> (s: String)
        ensures
            s@ == dump(self@),
    {
        self.table.to_string()
    }
}

impl Default for Metrics {
    fn default() -> (m: Self)
        ensures
            m@ == Counters::empty(),
    {
        Metrics::new()
    }
}

} // verus!
