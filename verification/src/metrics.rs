use vstd::prelude::*;
use vstd::string::*;
use crate::text::{decimal, lemma_lines_push, lines, push_decimal};

pub mod amap;
pub mod cmap;

verus! {

/// What a set of counters stands for: its keys with their counts, in the
/// order in which a dump lists them.
pub type Counters = Seq<(Seq<char>, int)>;

/// Whether the counters hold `key`.
pub open spec fn has_key(counters: Counters, key: Seq<char>) -> bool {
    exists|i: int| 0 <= i < counters.len() && (#[trigger] counters[i]).0 == key
}

/// The count that the counters hold for `key`; zero for a key they do not
/// hold.
pub open spec fn count_of(counters: Counters, key: Seq<char>) -> int
    decreases counters.len(),
{
    if counters.len() == 0 {
        0
    } else if counters.last().0 == key {
        counters.last().1
    } else {
        count_of(counters.drop_last(), key)
    }
}

/// Whether no key occurs twice.
pub open spec fn distinct_keys(counters: Counters) -> bool {
    forall|i: int, j: int|
        0 <= i < j < counters.len() ==> (#[trigger] counters[i]).0 != (#[trigger] counters[j]).0
}

/// The counters with the count under `key` raised by one; counters that do
/// not hold `key` stay as they are.
pub open spec fn raised(counters: Counters, key: Seq<char>) -> Counters {
    Seq::new(
        counters.len(),
        |i: int|
            if counters[i].0 == key {
                (key, counters[i].1 + 1)
            } else {
                counters[i]
            },
    )
}

/// The counters after one increment of `key` in a set that takes any key:
/// the count of a key that is held goes up by one, a new key is appended
/// with the count one.
pub open spec fn bumped(counters: Counters, key: Seq<char>) -> Counters {
    if has_key(counters, key) {
        raised(counters, key)
    } else {
        counters.push((key, 1))
    }
}

/// The counters after the increments of `keys`, one after the other.
pub open spec fn tallied(counters: Counters, keys: Seq<Seq<char>>) -> Counters
    decreases keys.len(),
{
    if keys.len() == 0 {
        counters
    } else {
        bumped(tallied(counters, keys.drop_last()), keys.last())
    }
}

/// How often `key` occurs in `keys`.
pub open spec fn occurrences(keys: Seq<Seq<char>>, key: Seq<char>) -> nat
    decreases keys.len(),
{
    if keys.len() == 0 {
        0
    } else {
        let rest = occurrences(keys.drop_last(), key);
        if keys.last() == key {
            rest + 1
        } else {
            rest
        }
    }
}

/// The line that a dump writes for one counter, without its line ending.
pub open spec fn counter_line(counter: (Seq<char>, int)) -> Seq<char> {
    counter.0 + seq![':', ' '] + decimal(counter.1)
}

/// The dump of the counters: one line `key: count` for each, in order, each
/// ended by a line feed.
pub open spec fn dump(counters: Counters) -> Seq<char> {
    lines(Seq::new(counters.len(), |i: int| counter_line(counters[i])), seq!['\n'])
}

/// A key that the counters do not hold counts as zero.
pub proof fn lemma_count_of_absent(counters: Counters, key: Seq<char>)
    requires
        !has_key(counters, key),
    ensures
        count_of(counters, key) == 0,
    decreases counters.len(),
{
    if counters.len() > 0 {
        let rest = counters.drop_last();
        assert(counters[counters.len() - 1].0 != key);
        assert forall|i: int| 0 <= i < rest.len() implies (#[trigger] rest[i]).0 != key by {
            assert(counters[i].0 != key);
        }
        lemma_count_of_absent(rest, key);
    }
}

/// A key that the counters hold once counts as its entry says.
pub proof fn lemma_count_of_entry(counters: Counters, i: int)
    requires
        distinct_keys(counters),
        0 <= i < counters.len(),
    ensures
        count_of(counters, counters[i].0) == counters[i].1,
    decreases counters.len(),
{
    if i < counters.len() - 1 {
        let rest = counters.drop_last();
        assert(counters[i].0 != counters[counters.len() - 1].0);
        assert forall|x: int, y: int| 0 <= x < y < rest.len() implies (#[trigger] rest[x]).0 != (
        #[trigger] rest[y]).0 by {
            assert(counters[x].0 != counters[y].0);
        }
        assert(rest[i] == counters[i]);
        lemma_count_of_entry(rest, i);
    }
}

/// One increment raises the count of its key by one and leaves every other
/// count as it was.
pub proof fn lemma_bumped_count(counters: Counters, key: Seq<char>, other: Seq<char>)
    ensures
        count_of(bumped(counters, key), other) == count_of(counters, other) + if other == key {
            1int
        } else {
            0int
        },
{
    if !has_key(counters, key) {
        assert(bumped(counters, key).drop_last() =~= counters);
        lemma_count_of_absent(counters, key);
    } else {
        lemma_raised_count(counters, key, other);
    }
}

/// Raising the count under `key` raises it by one where the counters hold
/// the key, and changes no other count.
pub proof fn lemma_raised_count(counters: Counters, key: Seq<char>, other: Seq<char>)
    ensures
        count_of(raised(counters, key), other) == count_of(counters, other) + if other == key
            && has_key(counters, key) {
            1int
        } else {
            0int
        },
    decreases counters.len(),
{
    if counters.len() > 0 {
        let rest = counters.drop_last();
        assert(raised(counters, key).drop_last() =~= raised(rest, key));
        lemma_raised_count(rest, key, other);
        if counters.last().0 == key {
            assert(counters[counters.len() - 1].0 == key);
        } else if has_key(counters, key) {
            let i = choose|i: int| 0 <= i < counters.len() && (#[trigger] counters[i]).0 == key;
            assert(rest[i].0 == key);
        } else if has_key(rest, key) {
            let i = choose|i: int| 0 <= i < rest.len() && (#[trigger] rest[i]).0 == key;
            assert(counters[i].0 == key);
        }
    }
}

/// No update is lost: after any sequence of increments, in whatever order
/// the increments of several callers were interleaved, the count of every
/// key has risen by exactly the number of increments of that key.
pub proof fn law_every_increment_counts(counters: Counters, keys: Seq<Seq<char>>, key: Seq<char>)
    ensures
        count_of(tallied(counters, keys), key) == count_of(counters, key) + occurrences(keys, key),
    decreases keys.len(),
{
    if keys.len() > 0 {
        law_every_increment_counts(counters, keys.drop_last(), key);
        lemma_bumped_count(tallied(counters, keys.drop_last()), keys.last(), key);
    }
}

/// The storage that both kinds of counters share: names and counts side by
/// side, no name twice.
pub(crate) struct Table {
    names: Vec<String>,
    counts: Vec<i64>,
}

impl View for Table {
    type V = Counters;

    closed spec fn view(&self) -> Counters {
        Seq::new(self.names@.len(), |i: int| (self.names@[i]@, self.counts@[i] as int))
    }
}

impl Table {
    #[verifier::type_invariant]
    spec fn consistent(self) -> bool {
        &&& self.names@.len() == self.counts@.len()
        &&& forall|i: int, j: int|
            0 <= i < j < self.names@.len() ==> (#[trigger] self.names@[i])@ != (
            #[trigger] self.names@[j])@
    }

    /// A table without counters.
    pub fn new() -> (t: Self)
        ensures
            t@ == Counters::empty(),
    {
        let t = Table { names: Vec::new(), counts: Vec::new() };
        assert(t@ =~= Counters::empty());
        t
    }

    /// The number of counters.
    pub fn len(&self) -> (n: usize)
        ensures
            n == self@.len(),
            distinct_keys(self@),
    {
        proof {
            use_type_invariant(self);
            assert forall|x: int, y: int| 0 <= x < y < self@.len() implies (#[trigger] self@[x]).0
                != (#[trigger] self@[y]).0 by {
                assert(self.names@[x]@ != self.names@[y]@);
            }
        }
        self.names.len()
    }

    /// The position of `key` among the names, or their number if it is not
    /// among them.
    pub fn position(&self, key: &String) -> (at: usize)
        ensures
            at <= self@.len(),
            at < self@.len() ==> self@[at as int].0 == key@ && count_of(self@, key@)
                == self@[at as int].1,
            at < self@.len() <==> has_key(self@, key@),
            distinct_keys(self@),
    {
        let n = self.len();
        let mut i: usize = 0;
        while i < n
            invariant
                i <= n,
                n == self@.len(),
                n == self.names@.len(),
                distinct_keys(self@),
                forall|k: int| 0 <= k < i ==> (#[trigger] self@[k]).0 != key@,
            decreases n - i,
        {
            if self.names[i] == *key {
                proof {
                    lemma_count_of_entry(self@, i as int);
                }
                return i;
            }
            i = i + 1;
        }
        i
    }

    /// The count at position `at`.
    pub fn count_at(&self, at: usize) -> (count: i64)
        requires
            at < self@.len(),
        ensures
            count == self@[at as int].1,
    {
        proof {
            use_type_invariant(self);
        }
        self.counts[at]
    }

    /// The count under `key`, if the table holds it.
    pub fn get(&self, key: &str) -> (count: Option<i64>)
        ensures
            match count {
                Some(c) => has_key(self@, key@) && c == count_of(self@, key@),
                None => !has_key(self@, key@),
            },
    {
        let key = String::from_str(key);
        let at = self.position(&key);
        if at < self.len() {
            Some(self.count_at(at))
        } else {
            None
        }
    }

    /// Replaces the count at position `at`.
    pub fn store(&mut self, at: usize, count: i64)
        requires
            at < old(self)@.len(),
        ensures
            final(self)@ == old(self)@.update(at as int, (old(self)@[at as int].0, count as int)),
    {
        let mut taken = Table::new();
        core::mem::swap(self, &mut taken);
        proof {
            use_type_invariant(&taken);
        }
        let ghost before = taken@;
        let Table { names, mut counts } = taken;
        counts[at] = count;
        *self = Table { names, counts };
        assert(self@ =~= before.update(at as int, (before[at as int].0, count as int)));
    }

    /// Adds a counter under a name that the table does not hold yet.
    pub fn append(&mut self, name: String, count: i64)
        requires
            !has_key(old(self)@, name@),
        ensures
            final(self)@ == old(self)@.push((name@, count as int)),
    {
        let mut taken = Table::new();
        core::mem::swap(self, &mut taken);
        proof {
            use_type_invariant(&taken);
        }
        let ghost before = taken@;
        let ghost key = name@;
        let Table { mut names, mut counts } = taken;
        names.push(name);
        counts.push(count);
        proof {
            assert forall|x: int, y: int| 0 <= x < y < names@.len() implies (#[trigger] names@[x])@
                != (#[trigger] names@[y])@ by {
                assert(before[x].0 == names@[x]@);
                if y < names@.len() - 1 {
                    assert(before[y].0 == names@[y]@);
                }
            }
        }
        *self = Table { names, counts };
        assert(self@ =~= before.push((key, count as int)));
    }

    /// The dump of the table: a line `key: count` for each counter, in
    /// order.
    pub fn to_string(&self) -> (s: String)
        ensures
            s@ == dump(self@),
    {
        proof {
            use_type_invariant(self);
            reveal_strlit(": ");
            reveal_strlit("\n");
        }
        let ghost end = seq!['\n'];
        let mut out = String::new();
        let mut i: usize = 0;
        assert(out@ =~= lines(Seq::new(0, |k: int| counter_line(self@[k])), end));
        while i < self.names.len()
            invariant
                i <= self.names@.len(),
                self.names@.len() == self.counts@.len(),
                self.names@.len() == self@.len(),
                end == seq!['\n'],
                ": "@ == seq![':', ' '],
                "\n"@ == end,
                out@ == lines(Seq::new(i as nat, |k: int| counter_line(self@[k])), end),
            decreases self.names@.len() - i,
        {
            let ghost shown = Seq::new(i as nat, |k: int| counter_line(self@[k]));
            let ghost before = out@;
            out.append(self.names[i].as_str());
            out.append(": ");
            push_decimal(&mut out, self.counts[i] as i128);
            out.append("\n");
            proof {
                let line = counter_line(self@[i as int]);
                lemma_lines_push(shown, end, line);
                assert(Seq::new((i + 1) as nat, |k: int| counter_line(self@[k])) =~= shown.push(
                    line,
                ));
                assert(out@ =~= before + line + end);
            }
            i = i + 1;
        }
        assert(Seq::new(self@.len(), |k: int| counter_line(self@[k])) =~= Seq::new(
            i as nat,
            |k: int| counter_line(self@[k]),
        ));
        out
    }
}

} // verus!
