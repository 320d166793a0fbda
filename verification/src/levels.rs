//! How often each level occurs in a batch.
//!
//! The tally stands for a map from level to count. It is kept as a list in
//! which no level stands twice and no count is zero.

use crate::entry::LogEntry;
use vstd::prelude::*;

verus! {

/// One level and how often it was seen.
#[derive(Clone, Debug, PartialEq, Eq)]
pub struct LevelCount {
    pub level: String,
    pub count: usize,
}

/// The levels seen in a batch, each with its count.
#[derive(Clone, Debug)]
pub struct LevelTally {
    pub entries: Vec<LevelCount>,
}

/// How many of the first `upto` records are at `level`.
pub open spec fn occurrences(logs: Seq<LogEntry>, level: Seq<char>, upto: int) -> nat
    decreases upto,
{
    if upto <= 0 {
        0
    } else if logs[upto - 1].level@ == level {
        occurrences(logs, level, upto - 1) + 1
    } else {
        occurrences(logs, level, upto - 1)
    }
}

/// The map from each level among the first `upto` records to its count.
pub open spec fn tally_upto(logs: Seq<LogEntry>, upto: int) -> Map<Seq<char>, nat> {
    Map::new(
        |level: Seq<char>| occurrences(logs, level, upto) > 0,
        |level: Seq<char>| occurrences(logs, level, upto),
    )
}

/// The map from each level of a batch to its count.
pub open spec fn tally_of(logs: Seq<LogEntry>) -> Map<Seq<char>, nat> {
    tally_upto(logs, logs.len() as int)
}

/// How many errors a batch holds.
pub open spec fn error_total(logs: Seq<LogEntry>) -> nat {
    occurrences(logs, crate::entry::error_level(), logs.len() as int)
}

/// The sum of the first `upto` counts.
pub open spec fn count_total(entries: Seq<LevelCount>, upto: int) -> nat
    decreases upto,
{
    if upto <= 0 {
        0
    } else {
        count_total(entries, upto - 1) + entries[upto - 1].count as nat
    }
}

impl View for LevelTally {
    type V = Map<Seq<char>, nat>;

    open spec fn view(&self) -> Map<Seq<char>, nat> {
        Map::new(
            |level: Seq<char>| self.holds(level),
            |level: Seq<char>| self.entries[self.position(level)].count as nat,
        )
    }
}

/// No more records are at one level than there are records.
pub proof fn lemma_occurrences_bound(logs: Seq<LogEntry>, level: Seq<char>, upto: int)
    requires
        0 <= upto,
    ensures
        occurrences(logs, level, upto) <= upto,
    decreases upto,
{
    if upto > 0 {
        lemma_occurrences_bound(logs, level, upto - 1);
    }
}

/// Each count is part of the sum of the counts.
proof fn lemma_count_within_total(entries: Seq<LevelCount>, j: int, upto: int)
    requires
        0 <= j < upto <= entries.len(),
    ensures
        entries[j].count <= count_total(entries, upto),
    decreases upto,
{
    if j < upto - 1 {
        lemma_count_within_total(entries, j, upto - 1);
    }
}

/// Counts that agree in every place have the same sum.
proof fn lemma_total_agrees(a: Seq<LevelCount>, b: Seq<LevelCount>, upto: int)
    requires
        0 <= upto <= a.len(),
        upto <= b.len(),
        forall|k: int| 0 <= k < upto ==> (#[trigger] a[k]).count == b[k].count,
    ensures
        count_total(a, upto) == count_total(b, upto),
    decreases upto,
{
    if upto > 0 {
        lemma_total_agrees(a, b, upto - 1);
    }
}

/// Raising one count by one raises the sum by one.
proof fn lemma_total_after_raise(a: Seq<LevelCount>, b: Seq<LevelCount>, j: int, upto: int)
    requires
        0 <= j < a.len(),
        a.len() == b.len(),
        0 <= upto <= a.len(),
        b[j].count == a[j].count + 1,
        forall|k: int| 0 <= k < a.len() && k != j ==> (#[trigger] a[k]).count == b[k].count,
    ensures
        count_total(b, upto) == count_total(a, upto) + (if j < upto { 1nat } else { 0nat }),
    decreases upto,
{
    if upto > 0 {
        lemma_total_after_raise(a, b, j, upto - 1);
    }
}

impl LevelTally {
    /// The tally has an entry for `level`.
    pub open spec fn holds(self, level: Seq<char>) -> bool {
        exists|j: int| 0 <= j < self.entries.len() && (#[trigger] self.entries[j]).level@ == level
    }

    /// Where the entry for `level` stands.
    pub open spec fn position(self, level: Seq<char>) -> int {
        choose|j: int| 0 <= j < self.entries.len() && (#[trigger] self.entries[j]).level@ == level
    }

    /// No level stands twice and no count is zero.
    pub open spec fn wf(self) -> bool {
        &&& forall|j: int, k: int|
            0 <= j < k < self.entries.len() ==> (#[trigger] self.entries[j]).level@ != (
            #[trigger] self.entries[k]).level@
        &&& forall|j: int| 0 <= j < self.entries.len() ==> (#[trigger] self.entries[j]).count > 0
    }

    /// The sum of all counts.
    pub open spec fn total(self) -> nat {
        count_total(self.entries@, self.entries.len() as int)
    }

    /// The count of `level`, zero where the level was never seen.
    pub open spec fn count_at(self, level: Seq<char>) -> nat {
        if self@.dom().contains(level) {
            self@[level]
        } else {
            0
        }
    }

    /// The entry for a level is the only one with that level.
    pub proof fn lemma_position(self, j: int)
        requires
            self.wf(),
            0 <= j < self.entries.len(),
        ensures
            self.holds(self.entries[j].level@),
            self.position(self.entries[j].level@) == j,
            self@[self.entries[j].level@] == self.entries[j].count,
    {
        let level = self.entries[j].level@;
        assert(0 <= j < self.entries.len() && self.entries[j].level@ == level);
        let k = self.position(level);
        assert(0 <= k < self.entries.len() && self.entries[k].level@ == level);
        if k < j {
            assert(self.entries[k].level@ != self.entries[j].level@);
        } else if j < k {
            assert(self.entries[j].level@ != self.entries[k].level@);
        }
    }

    /// An empty tally.
    pub fn new() -> (r: LevelTally)
        ensures
            r.wf(),
            r@ == Map::<Seq<char>, nat>::empty(),
            r.total() == 0,
    {
        let r = LevelTally { entries: Vec::new() };
        proof {
            assert(r@ =~= Map::<Seq<char>, nat>::empty());
        }
        r
    }

    /// Where the entry for `level` stands, if there is one.
    pub fn find(&self, level: &String) -> (r: Option<usize>)
        ensures
            match r {
                Some(j) => j < self.entries.len() && self.entries[j as int].level@ == level@,
                None => !self.holds(level@),
            },
    {
        let n = self.entries.len();
        let mut j: usize = 0;
        while j < n
            invariant
                j <= n,
                n == self.entries.len(),
                forall|k: int| 0 <= k < j ==> (#[trigger] self.entries[k]).level@ != level@,
            decreases n - j,
        {
            if self.entries[j].level == *level {
                return Some(j);
            }
            j = j + 1;
        }
        None
    }

    /// The count of `level`, zero where the level was never seen.
    pub fn count_of(&self, level: &String) -> (r: usize)
        requires
            self.wf(),
        ensures
            r == self.count_at(level@),
    {
        match self.find(level) {
            Some(j) => {
                proof {
                    self.lemma_position(j as int);
                }
                self.entries[j].count
            },
            None => 0,
        }
    }

    /// Counts one more record at `level`.
    pub fn record(&mut self, level: &String)
        requires
            old(self).wf(),
            old(self).total() < usize::MAX,
        ensures
            final(self).wf(),
            final(self)@ == old(self)@.insert(level@, old(self).count_at(level@) + 1),
            final(self).total() == old(self).total() + 1,
    {
        let ghost before = *self;
        match self.find(level) {
            Some(j) => {
                proof {
                    before.lemma_position(j as int);
                    lemma_count_within_total(
                        before.entries@,
                        j as int,
                        before.entries.len() as int,
                    );
                }
                let count: usize = self.entries[j].count;
                self.entries.set(j, LevelCount { level: level.clone(), count: count + 1 });
                proof {
                    let after = *self;
                    lemma_total_after_raise(
                        before.entries@,
                        after.entries@,
                        j as int,
                        before.entries.len() as int,
                    );
                    assert forall|k: int| 0 <= k < after.entries.len() implies (
                    #[trigger] after.entries[k]).level@ == before.entries[k].level@ by {}
                    assert(after.wf());
                    assert forall|l: Seq<char>| after.holds(l) == before.holds(l) by {
                        if before.holds(l) {
                            let k = before.position(l);
                            assert(after.entries[k].level@ == l);
                        }
                        if after.holds(l) {
                            let k = after.position(l);
                            assert(before.entries[k].level@ == l);
                        }
                    }
                    assert forall|l: Seq<char>| after.holds(l) implies #[trigger] after@[l] == (
                    if l == level@ {
                        (count + 1) as nat
                    } else {
                        before@[l]
                    }) by {
                        let k = after.position(l);
                        after.lemma_position(k);
                        before.lemma_position(k);
                    }
                    assert(after@ =~= before@.insert(level@, before.count_at(level@) + 1));
                }
            },
            None => {
                self.entries.push(LevelCount { level: level.clone(), count: 1 });
                proof {
                    let after = *self;
                    let last = before.entries.len() as int;
                    lemma_total_agrees(before.entries@, after.entries@, last);
                    assert forall|j: int, k: int| 0 <= j < k < after.entries.len() implies (
                    #[trigger] after.entries[j]).level@ != (#[trigger] after.entries[k]).level@ by {
                        if k == last {
                            assert(before.entries[j].level@ != level@);
                        } else {
                            assert(before.entries[j].level@ != before.entries[k].level@);
                        }
                    }
                    assert(after.wf());
                    assert forall|l: Seq<char>|
                        after.holds(l) == (before.holds(l) || l == level@) by {
                        if before.holds(l) {
                            let k = before.position(l);
                            assert(after.entries[k].level@ == l);
                        }
                        if l == level@ {
                            assert(after.entries[last].level@ == l);
                        }
                        if after.holds(l) && l != level@ {
                            let k = after.position(l);
                            assert(before.entries[k].level@ == l);
                        }
                    }
                    assert forall|l: Seq<char>| after.holds(l) implies #[trigger] after@[l] == (
                    if l == level@ {
                        1nat
                    } else {
                        before@[l]
                    }) by {
                        let k = after.position(l);
                        after.lemma_position(k);
                        if k < last {
                            before.lemma_position(k);
                        }
                    }
                    assert(after@ =~= before@.insert(level@, before.count_at(level@) + 1));
                }
            },
        }
    }
}

/// How often the levels of the first `upto` entries occur, all together,
/// among the first `i` records.
pub open spec fn level_sum(entries: Seq<LevelCount>, logs: Seq<LogEntry>, i: int, upto: int) -> nat
    decreases upto,
{
    if upto <= 0 {
        0
    } else {
        level_sum(entries, logs, i, upto - 1) + occurrences(logs, entries[upto - 1].level@, i)
    }
}

/// A level that occurs among the records is the level of one of them.
proof fn lemma_occurring_level(logs: Seq<LogEntry>, level: Seq<char>, upto: int)
    requires
        0 <= upto <= logs.len(),
        occurrences(logs, level, upto) > 0,
    ensures
        exists|k: int| 0 <= k < upto && (#[trigger] logs[k]).level@ == level,
    decreases upto,
{
    if logs[upto - 1].level@ != level {
        lemma_occurring_level(logs, level, upto - 1);
    }
}

/// The level of a record occurs among the records.
proof fn lemma_level_occurs(logs: Seq<LogEntry>, k: int, upto: int)
    requires
        0 <= k < upto <= logs.len(),
    ensures
        occurrences(logs, logs[k].level@, upto) > 0,
    decreases upto,
{
    if k < upto - 1 {
        lemma_level_occurs(logs, k, upto - 1);
    }
}

/// A level stands in the tally of a batch exactly when a record of the
/// batch has it.
pub proof fn lemma_levels_observed(logs: Seq<LogEntry>, level: Seq<char>)
    ensures
        tally_of(logs).dom().contains(level) <==> exists|k: int|
            0 <= k < logs.len() && (#[trigger] logs[k]).level@ == level,
{
    let n = logs.len() as int;
    if tally_of(logs).dom().contains(level) {
        lemma_occurring_level(logs, level, n);
    }
    if exists|k: int| 0 <= k < logs.len() && (#[trigger] logs[k]).level@ == level {
        let k = choose|k: int| 0 <= k < logs.len() && (#[trigger] logs[k]).level@ == level;
        lemma_level_occurs(logs, k, n);
    }
}

/// One more record raises by one the sum over entries of which exactly one
/// has the record's level.
proof fn lemma_level_sum_step(
    entries: Seq<LevelCount>,
    logs: Seq<LogEntry>,
    i: int,
    at: int,
    upto: int,
)
    requires
        0 <= i < logs.len(),
        0 <= at < entries.len(),
        0 <= upto <= entries.len(),
        entries[at].level@ == logs[i].level@,
        forall|j: int|
            0 <= j < entries.len() && j != at ==> (#[trigger] entries[j]).level@ != logs[i].level@,
    ensures
        level_sum(entries, logs, i + 1, upto) == level_sum(entries, logs, i, upto) + (if at
            < upto {
            1nat
        } else {
            0nat
        }),
    decreases upto,
{
    if upto > 0 {
        lemma_level_sum_step(entries, logs, i, at, upto - 1);
        if upto - 1 != at {
            assert(entries[upto - 1].level@ != logs[i].level@);
        }
    }
}

/// Over a list that holds the level of every record once, the levels occur
/// as often, all together, as there are records.
proof fn lemma_level_sum(tally: LevelTally, logs: Seq<LogEntry>, i: int, upto: int)
    requires
        tally.wf(),
        0 <= i <= logs.len(),
        0 <= upto <= tally.entries.len(),
        forall|k: int| 0 <= k < logs.len() ==> tally.holds((#[trigger] logs[k]).level@),
    ensures
        i == 0 ==> level_sum(tally.entries@, logs, i, upto) == 0,
        upto == tally.entries.len() ==> level_sum(tally.entries@, logs, i, upto) == i,
    decreases i, upto,
{
    if i == 0 {
        if upto > 0 {
            lemma_level_sum(tally, logs, i, upto - 1);
        }
    } else if upto == tally.entries.len() {
        lemma_level_sum(tally, logs, i - 1, upto);
        lemma_level_sum(tally, logs, 0, upto);
        let level = logs[i - 1].level@;
        assert(tally.holds(level));
        let at = tally.position(level);
        assert forall|j: int| 0 <= j < tally.entries.len() && j != at implies (
        #[trigger] tally.entries[j]).level@ != level by {
            if j < at {
                assert(tally.entries[j].level@ != tally.entries[at].level@);
            } else {
                assert(tally.entries[at].level@ != tally.entries[j].level@);
            }
        }
        lemma_level_sum_step(tally.entries@, logs, i - 1, at, upto);
    }
}

/// Counts that are the occurrences of their levels add up to the sum of
/// those occurrences.
proof fn lemma_total_is_level_sum(tally: LevelTally, logs: Seq<LogEntry>, upto: int)
    requires
        0 <= upto <= tally.entries.len(),
        forall|j: int|
            0 <= j < tally.entries.len() ==> (#[trigger] tally.entries[j]).count == occurrences(
                logs,
                tally.entries[j].level@,
                logs.len() as int,
            ),
    ensures
        count_total(tally.entries@, upto) == level_sum(
            tally.entries@,
            logs,
            logs.len() as int,
            upto,
        ),
    decreases upto,
{
    if upto > 0 {
        lemma_total_is_level_sum(tally, logs, upto - 1);
    }
}

/// The counts of any tally of a batch add up to the number of records in
/// the batch.
pub proof fn lemma_tally_total(tally: LevelTally, logs: Seq<LogEntry>)
    requires
        tally.wf(),
        tally@ == tally_of(logs),
    ensures
        tally.total() == logs.len(),
{
    let n = logs.len() as int;
    assert forall|k: int| 0 <= k < logs.len() implies tally.holds((#[trigger] logs[k]).level@) by {
        lemma_level_occurs(logs, k, n);
        assert(tally_of(logs).dom().contains(logs[k].level@));
        assert(tally@.dom().contains(logs[k].level@));
    }
    assert forall|j: int| 0 <= j < tally.entries.len() implies (
    #[trigger] tally.entries[j]).count == occurrences(logs, tally.entries[j].level@, n) by {
        let level = tally.entries[j].level@;
        tally.lemma_position(j);
        assert(tally@.dom().contains(level));
        assert(tally_of(logs).dom().contains(level));
        assert(tally_of(logs)[level] == occurrences(logs, level, n));
    }
    lemma_total_is_level_sum(tally, logs, tally.entries.len() as int);
    lemma_level_sum(tally, logs, n, tally.entries.len() as int);
}

/// Counts the records of a batch by level. A level stands in the tally
/// exactly when a record has it, and the counts add up to the size of the
/// batch.
pub fn tally_levels(logs: &Vec<LogEntry>) -> (r: LevelTally)
    ensures
        r.wf(),
        r@ == tally_of(logs@),
        r.total() == logs.len(),
{
    let mut tally = LevelTally::new();
    let n = logs.len();
    proof {
        assert(tally@ =~= tally_upto(logs@, 0));
    }
    let mut i: usize = 0;
    while i < n
        invariant
            i <= n,
            n == logs.len(),
            tally.wf(),
            tally@ == tally_upto(logs@, i as int),
            tally.total() == i,
        decreases n - i,
    {
        tally.record(&logs[i].level);
        proof {
            assert(tally@ =~= tally_upto(logs@, i + 1));
        }
        i = i + 1;
    }
    tally
}

} // verus!
