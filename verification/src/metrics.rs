//! A registry of named counters, listed in the order in which the names were
//! first counted.

use crate::text::{debug_text, quoted, signed_decimal, signed_numeral};
use vstd::prelude::*;
use vstd::string::StringExecFns;

pub mod amap;

verus! {

/// Counters as the registries show them: each name with its count.
pub type Counters = Seq<(Seq<char>, int)>;

/// Whether `name` has a counter among `entries`.
pub open spec fn counted(entries: Counters, name: Seq<char>) -> bool {
    exists|i: int| 0 <= i < entries.len() && (#[trigger] entries[i]).0 == name
}

/// Where the counter of `name` stands among `entries`, if it has one.
pub open spec fn index_of(entries: Counters, name: Seq<char>) -> int {
    choose|i: int| 0 <= i < entries.len() && (#[trigger] entries[i]).0 == name
}

/// The count of `name`: zero while it has no counter.
pub open spec fn count_of(entries: Counters, name: Seq<char>) -> int {
    if counted(entries, name) {
        entries[index_of(entries, name)].1
    } else {
        0
    }
}

/// No name has two counters.
pub open spec fn distinct(entries: Counters) -> bool {
    forall|i: int, j: int|
        0 <= i < j < entries.len() ==> (#[trigger] entries[i]).0 != (#[trigger] entries[j]).0
}

/// One line for each counter: three spaces, the name as `{:?}` writes it, a
/// colon and a space, the count in decimal, and a line feed.
pub open spec fn counter_lines(entries: Counters) -> Seq<char>
    decreases entries.len(),
{
    if entries.len() == 0 {
        Seq::empty()
    } else {
        counter_lines(entries.drop_last()) + labelled_line(
            debug_text(entries.last().0),
            entries.last().1,
        )
    }
}

/// The line of a counter whose name is already written out as `label`.
pub open spec fn labelled_line(label: Seq<char>, count: int) -> Seq<char> {
    seq![' ', ' ', ' '] + label + seq![':', ' '] + signed_numeral(count) + seq!['\n']
}

/// The text of a registry: an opening brace on a line of its own, the
/// counters' lines, and a closing brace.
pub open spec fn counters_text(entries: Counters) -> Seq<char> {
    seq!['{', '\n'] + counter_lines(entries) + seq!['}']
}

/// The counters that `entries` holds: each name by its characters, each
/// count as an integer.
pub open spec fn listed(entries: Seq<(String, i64)>) -> Counters {
    Seq::new(entries.len(), |k: int| (entries[k].0@, entries[k].1 as int))
}

/// In a list without repeated names, the counter found for a name is the
/// one at the position where the name stands.
pub proof fn lemma_index_of(entries: Counters, i: int)
    requires
        distinct(entries),
        0 <= i < entries.len(),
    ensures
        counted(entries, entries[i].0),
        index_of(entries, entries[i].0) == i,
        count_of(entries, entries[i].0) == entries[i].1,
{
    let name = entries[i].0;
    let found = index_of(entries, name);
    if found < i {
        assert(entries[found].0 != entries[i].0);
    } else if i < found {
        assert(entries[i].0 != entries[found].0);
    }
}

/// The counters after `key` was counted once more: its count is one higher,
/// or, if it had no counter, it gets one at the end, which stands at one.
pub open spec fn incremented(entries: Counters, key: Seq<char>) -> Counters {
    if counted(entries, key) {
        entries.update(index_of(entries, key), (key, count_of(entries, key) + 1))
    } else {
        entries.push((key, 1))
    }
}

/// Counting `key` adds one to the count of `key` and leaves every other
/// count as it was; the names with a counter are those that had one, and
/// `key`. No name gets a second counter.
pub proof fn lemma_incremented(entries: Counters, key: Seq<char>, name: Seq<char>)
    requires
        distinct(entries),
    ensures
        distinct(incremented(entries, key)),
        count_of(incremented(entries, key), name) == count_of(entries, name) + if name == key {
            1int
        } else {
            0int
        },
        counted(incremented(entries, key), name) <==> counted(entries, name) || name == key,
{
    let after = incremented(entries, key);
    if counted(entries, key) {
        let i = index_of(entries, key);
        assert forall|m: int, n: int| 0 <= m < n < after.len() implies (#[trigger] after[m]).0 != (
        #[trigger] after[n]).0 by {
            assert(after[m].0 == entries[m].0);
            assert(after[n].0 == entries[n].0);
        }
        lemma_index_of(entries, i);
        lemma_index_of(after, i);
        if name != key {
            if counted(entries, name) {
                let j = index_of(entries, name);
                lemma_index_of(entries, j);
                assert(after[j] == entries[j]);
                lemma_index_of(after, j);
            } else if counted(after, name) {
                let j = index_of(after, name);
                assert(after[j].0 == entries[j].0);
            }
        }
    } else {
        let last = entries.len() as int;
        assert(after[last] == (key, 1int));
        assert forall|m: int, n: int| 0 <= m < n < after.len() implies (#[trigger] after[m]).0 != (
        #[trigger] after[n]).0 by {
            assert(after[m] == entries[m]);
            if n < last {
                assert(after[n] == entries[n]);
            }
        }
        lemma_index_of(after, last);
        if name != key {
            if counted(entries, name) {
                let j = index_of(entries, name);
                lemma_index_of(entries, j);
                assert(after[j] == entries[j]);
                lemma_index_of(after, j);
            } else if counted(after, name) {
                let j = index_of(after, name);
                assert(after[j] == entries[j]);
            }
        }
    }
}

/// Writes the line of a counter whose name is already written out as
/// `label`: three spaces, the label, a colon and a space, the count in
/// decimal, and a line feed.
pub fn counter_line(label: &str, count: i64) -> (line: String)
    ensures
        line@ == labelled_line(label@, count as int),
{
    let mut line = String::from_str("   ");
    line.append(label);
    line.append(": ");
    line.append(signed_decimal(count).as_str());
    line.append("\n");
    proof {
        reveal_strlit("   ");
        reveal_strlit(": ");
        reveal_strlit("\n");
        assert(line@ =~= labelled_line(label@, count as int));
    }
    line
}

/// Writes the registry text of the counters in `entries`.
pub(crate) fn render(entries: &Vec<(String, i64)>) -> (text: String)
    ensures
        text@ == counters_text(listed(entries@)),
{
    let ghost counters = listed(entries@);
    let mut text = String::from_str("{\n");
    let mut k: usize = 0;
    proof {
        reveal_strlit("{\n");
        assert(text@ =~= seq!['{', '\n'] + counter_lines(counters.take(0)));
    }
    while k < entries.len()
        invariant
            counters == listed(entries@),
            k <= entries@.len(),
            text@ == seq!['{', '\n'] + counter_lines(counters.take(k as int)),
        decreases entries@.len() - k,
    {
        let label = quoted(entries[k].0.as_str());
        text.append(counter_line(label.as_str(), entries[k].1).as_str());
        proof {
            let shorter = counters.take(k as int);
            let longer = counters.take(k + 1);
            assert(longer.drop_last() =~= shorter);
            assert(longer.last() == counters[k as int]);
            assert(text@ =~= seq!['{', '\n'] + counter_lines(longer));
        }
        k = k + 1;
    }
    text.append("}");
    proof {
        reveal_strlit("}");
        assert(counters.take(k as int) =~= counters);
        assert(text@ =~= counters_text(counters));
    }
    text
}

/// Counters by name. A name gets its counter when it is first counted.
#[derive(Debug)]
pub struct Metrics {
    entries: Vec<(String, i64)>,
}

impl View for Metrics {
    type V = Counters;

    closed spec fn view(&self) -> Counters {
        listed(self.entries@)
    }
}

impl Metrics {
    /// Every name has one counter at most.
    pub open spec fn wf(&self) -> bool {
        distinct(self@)
    }

    /// A registry without counters.
    pub fn new() -> (m: Self)
        ensures
            m.wf(),
            m@ == Counters::empty(),
    {
        let m = Metrics { entries: Vec::new() };
        assert(m@ =~= Counters::empty());
        m
    }

    /// Adds one to the counter of `key`. A name that has no counter yet gets
    /// one, which then stands at one, behind those that were there.
    pub fn inc(&mut self, key: String)
        requires
            old(self).wf(),
            count_of(old(self)@, key@) < i64::MAX,
        ensures
            final(self).wf(),
            final(self)@ == incremented(old(self)@, key@),
    {
        let ghost before = self@;
        proof {
            lemma_incremented(before, key@, key@);
        }
        let mut k: usize = 0;
        while k < self.entries.len()
            invariant
                self@ == before,
                before == old(self)@,
                distinct(before),
                k <= self.entries@.len(),
                count_of(before, key@) < i64::MAX,
                forall|i: int| 0 <= i < k ==> (#[trigger] before[i]).0 != key@,
            decreases self.entries@.len() - k,
        {
            if self.entries[k].0 == key {
                proof {
                    assert(before[k as int].0 == key@);
                    lemma_index_of(before, k as int);
                }
                let count: i64 = self.entries[k].1;
                self.entries.set(k, (key, count + 1));
                assert(self@ =~= incremented(before, key@));
                return ;
            }
            k = k + 1;
        }
        assert(!counted(before, key@));
        self.entries.push((key, 1));
        assert(self@ =~= incremented(before, key@));
    }

    /// The count of `key`: zero while it has no counter.
    pub fn count(&self, key: &str) -> (n: i64)
        requires
            self.wf(),
        ensures
            n == count_of(self@, key@),
    {
        let wanted = String::from_str(key);
        let mut k: usize = 0;
        while k < self.entries.len()
            invariant
                self.wf(),
                wanted@ == key@,
                k <= self.entries@.len(),
                forall|i: int| 0 <= i < k ==> (#[trigger] self@[i]).0 != key@,
            decreases self.entries@.len() - k,
        {
            if self.entries[k].0 == wanted {
                proof {
                    assert(self@[k as int].0 == key@);
                    lemma_index_of(self@, k as int);
                }
                return self.entries[k].1;
            }
            k = k + 1;
        }
        assert(!counted(self@, key@));
        0
    }

    /// A copy of the counters as they stand: each name with its count, in
    /// the registry's order.
    pub fn snapshot(&self) -> (entries: Vec<(String, i64)>)
        ensures
            listed(entries@) == self@,
    {
        let mut entries: Vec<(String, i64)> = Vec::with_capacity(self.entries.len());
        let mut k: usize = 0;
        while k < self.entries.len()
            invariant
                k <= self.entries@.len(),
                entries@.len() == k,
                forall|i: int| 0 <= i < k ==> (#[trigger] entries@[i]) == self.entries@[i],
            decreases self.entries@.len() - k,
        {
            entries.push((self.entries[k].0.clone(), self.entries[k].1));
            k = k + 1;
        }
        assert(listed(entries@) =~= self@);
        entries
    }

    /// The registry as text, one line for each counter.
    pub fn to_string(&self) -> (text: String)
        ensures
            text@ == counters_text(self@),
    {
        render(&self.entries)
    }
}

impl Default for Metrics {
    fn default() -> (m: Self)
        ensures
            m.wf(),
            m@ == Counters::empty(),
    {
        Metrics::new()
    }
}

} // verus!
