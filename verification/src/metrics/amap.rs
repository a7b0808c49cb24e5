//! A registry whose counters are fixed when it is made: only the names given
//! then can be counted.

use crate::metrics::{
    count_of, counted, counters_text, distinct, index_of, lemma_index_of, listed, render, Counters,
};
use vstd::prelude::*;
use vstd::string::StringExecFns;

verus! {

/// Why a counter could not be incremented.
#[derive(Debug, Clone, Copy, PartialEq, Eq, Structural)]
pub enum MetricsError {
    /// The registry has no counter of that name.
    UnknownKey,
}

/// The message for a `key` that a registry has no counter of.
pub fn unknown_key_message(key: &str) -> (text: String)
    ensures
        text@ == "key: "@ + key@ + " is not exist!"@,
{
    let mut text = String::from_str("key: ");
    text.append(key);
    text.append(" is not exist!");
    assert(text@ =~= "key: "@ + key@ + " is not exist!"@);
    text
}

/// The names of `names`, each once, in the order in which they first occur.
pub open spec fn first_occurrences(names: Seq<Seq<char>>) -> Seq<Seq<char>>
    decreases names.len(),
{
    if names.len() == 0 {
        Seq::empty()
    } else if first_occurrences(names.drop_last()).contains(names.last()) {
        first_occurrences(names.drop_last())
    } else {
        first_occurrences(names.drop_last()).push(names.last())
    }
}

/// A counter at zero for each of `names`.
pub open spec fn zeroed(names: Seq<Seq<char>>) -> Counters {
    Seq::new(names.len(), |k: int| (names[k], 0int))
}

/// The first occurrences of `names` are the names of `names`, each once.
pub proof fn lemma_first_occurrences(names: Seq<Seq<char>>, name: Seq<char>)
    ensures
        first_occurrences(names).contains(name) <==> names.contains(name),
        first_occurrences(names).no_duplicates(),
    decreases names.len(),
{
    let kept = first_occurrences(names);
    if names.len() > 0 {
        let front = names.drop_last();
        let last = names.last();
        let before = first_occurrences(front);
        lemma_first_occurrences(front, name);
        lemma_first_occurrences(front, last);
        if kept.contains(name) {
            let k = choose|k: int| 0 <= k < kept.len() && kept[k] == name;
            if k < before.len() {
                assert(before[k] == name);
                let n = choose|n: int| 0 <= n < front.len() && front[n] == name;
                assert(names[n] == name);
            } else {
                assert(names[names.len() - 1] == name);
            }
        }
        if names.contains(name) {
            let n = choose|n: int| 0 <= n < names.len() && names[n] == name;
            if n < front.len() {
                assert(front[n] == name);
                let k = choose|k: int| 0 <= k < before.len() && before[k] == name;
                assert(kept[k] == name);
            } else if before.contains(last) {
                assert(kept == before);
            } else {
                assert(kept[before.len() as int] == name);
            }
        }
        assert forall|m: int, n: int| 0 <= m < kept.len() && 0 <= n < kept.len() && m != n implies kept[m]
            != kept[n] by {
            if m < before.len() && n < before.len() {
                assert(kept[m] == before[m] && kept[n] == before[n]);
            } else if m < before.len() {
                assert(before[m] == kept[m]);
            } else {
                assert(before[n] == kept[n]);
            }
        }
    }
}

/// A fresh registry counts exactly the names it was given: a name has a
/// counter if and only if it is among `names`, every count is zero, and no
/// name has two counters.
pub proof fn lemma_fresh_counters(names: Seq<Seq<char>>, name: Seq<char>)
    ensures
        distinct(zeroed(first_occurrences(names))),
        counted(zeroed(first_occurrences(names)), name) <==> names.contains(name),
        count_of(zeroed(first_occurrences(names)), name) == 0,
{
    let kept = first_occurrences(names);
    let fresh = zeroed(kept);
    lemma_first_occurrences(names, name);
    if counted(fresh, name) {
        let k = index_of(fresh, name);
        assert(kept[k] == name);
        assert(fresh[k].1 == 0);
    }
    if kept.contains(name) {
        let k = choose|k: int| 0 <= k < kept.len() && kept[k] == name;
        assert(fresh[k].0 == name);
    }
}

/// The count that follows `count` in a counter that wraps around at the
/// ends of `i64`.
pub open spec fn next_count(count: int) -> int {
    if count == i64::MAX {
        i64::MIN as int
    } else {
        count + 1
    }
}

/// The counters after `key`, which has one, was counted once more.
pub open spec fn bumped(entries: Counters, key: Seq<char>) -> Counters {
    entries.update(index_of(entries, key), (key, next_count(count_of(entries, key))))
}

/// Counting `key` moves its count on by one step and leaves every other
/// count, and the set of names, as it was.
pub proof fn lemma_bumped(entries: Counters, key: Seq<char>, name: Seq<char>)
    requires
        distinct(entries),
        counted(entries, key),
    ensures
        distinct(bumped(entries, key)),
        count_of(bumped(entries, key), name) == if name == key {
            next_count(count_of(entries, key))
        } else {
            count_of(entries, name)
        },
        counted(bumped(entries, key), name) <==> counted(entries, name),
{
    let after = bumped(entries, key);
    let i = index_of(entries, key);
    assert forall|m: int, n: int| 0 <= m < n < after.len() implies (#[trigger] after[m]).0 != (
    #[trigger] after[n]).0 by {
        assert(after[m].0 == entries[m].0);
        assert(after[n].0 == entries[n].0);
    }
    lemma_index_of(entries, i);
    lemma_index_of(after, i);
    if name != key {
        if counted(entries, name) {
            let j = index_of(entries, name);
            lemma_index_of(entries, j);
            assert(after[j] == entries[j]);
            lemma_index_of(after, j);
        } else if counted(after, name) {
            let j = index_of(after, name);
            assert(after[j].0 == entries[j].0);
        }
    }
}

/// Counters for a fixed set of names.
#[derive(Debug)]
pub struct AmapMetrics {
    entries: Vec<(String, i64)>,
}

impl View for AmapMetrics {
    type V = Counters;

    closed spec fn view(&self) -> Counters {
        listed(self.entries@)
    }
}

impl AmapMetrics {
    /// Every name has one counter at most.
    pub open spec fn wf(&self) -> bool {
        distinct(self@)
    }

    /// A registry with a counter at zero for each of `metric_names`; a name
    /// given more than once gets one counter.
    pub fn new(metric_names: &[&'static str]) -> (m: Self)
        ensures
            m.wf(),
            m@ == zeroed(first_occurrences(Seq::new(metric_names@.len(), |k: int| metric_names@[k]@))),
    {
        let ghost given = Seq::new(metric_names@.len(), |k: int| metric_names@[k]@);
        let mut entries: Vec<(String, i64)> = Vec::new();
        let mut k: usize = 0;
        proof {
            assert(given.take(0) =~= Seq::<Seq<char>>::empty());
            assert(listed(entries@) =~= zeroed(first_occurrences(given.take(0))));
        }
        while k < metric_names.len()
            invariant
                k <= metric_names@.len(),
                given == Seq::new(metric_names@.len(), |k: int| metric_names@[k]@),
                distinct(listed(entries@)),
                listed(entries@) == zeroed(first_occurrences(given.take(k as int))),
            decreases metric_names@.len() - k,
        {
            let name = String::from_str(metric_names[k]);
            let ghost seen = first_occurrences(given.take(k as int));
            let ghost before = listed(entries@);
            assert(seen.len() == before.len());
            let mut known = false;
            let mut i: usize = 0;
            while i < entries.len()
                invariant
                    i <= entries@.len(),
                    before == listed(entries@),
                    before == zeroed(seen),
                    seen.len() == entries@.len(),
                    known <==> exists|n: int| 0 <= n < i && seen[n] == name@,
                decreases entries@.len() - i,
            {
                proof {
                    assert(before[i as int] == zeroed(seen)[i as int]);
                    assert(seen[i as int] == entries@[i as int].0@);
                }
                if entries[i].0 == name {
                    known = true;
                }
                i = i + 1;
            }
            proof {
                let longer = given.take(k + 1);
                assert(longer.drop_last() =~= given.take(k as int));
                assert(longer.last() == name@);
                assert(known <==> seen.contains(name@));
            }
            if !known {
                entries.push((name, 0));
                proof {
                    let after = listed(entries@);
                    assert forall|n: int| 0 <= n < after.len() implies after[n] == zeroed(
                        seen.push(name@),
                    )[n] by {
                        if n < before.len() {
                            assert(after[n] == before[n]);
                            assert(before[n] == zeroed(seen)[n]);
                        }
                    }
                    assert(after =~= zeroed(seen.push(name@)));
                    assert forall|i: int, j: int| 0 <= i < j < after.len() implies (
                    #[trigger] after[i]).0 != (#[trigger] after[j]).0 by {
                        assert(after[i] == before[i]);
                        if j < before.len() {
                            assert(after[j] == before[j]);
                        } else {
                            assert(seen[i] == before[i].0);
                        }
                    }
                }
            }
            k = k + 1;
        }
        assert(given.take(k as int) =~= given);
        AmapMetrics { entries }
    }

    /// Adds one to the counter of `key`, wrapping around at the ends of
    /// `i64`. A name without a counter is rejected with
    /// [`MetricsError::UnknownKey`], and nothing changes.
    pub fn inc(&mut self, key: &str) -> (r: Result<(), MetricsError>)
        requires
            old(self).wf(),
        ensures
            final(self).wf(),
            counted(old(self)@, key@) <==> r is Ok,
            r is Err ==> r->Err_0 == MetricsError::UnknownKey && final(self)@ == old(self)@,
            r is Ok ==> final(self)@ == bumped(old(self)@, key@),
    {
        let wanted = String::from_str(key);
        let ghost before = self@;
        let mut k: usize = 0;
        while k < self.entries.len()
            invariant
                self@ == before,
                before == old(self)@,
                distinct(before),
                wanted@ == key@,
                k <= self.entries@.len(),
                forall|i: int| 0 <= i < k ==> (#[trigger] before[i]).0 != key@,
            decreases self.entries@.len() - k,
        {
            if self.entries[k].0 == wanted {
                proof {
                    assert(before[k as int].0 == key@);
                    lemma_index_of(before, k as int);
                    lemma_bumped(before, key@, key@);
                }
                let count: i64 = self.entries[k].1;
                self.entries.set(k, (wanted, count.wrapping_add(1)));
                assert(self@ =~= bumped(before, key@));
                return Ok(());
            }
            k = k + 1;
        }
        assert(!counted(before, key@));
        Err(MetricsError::UnknownKey)
    }

    /// The registry as text, one line for each counter.
    pub fn to_string(&self) -> (text: String)
        ensures
            text@ == counters_text(self@),
    {
        render(&self.entries)
    }
}

} // verus!
