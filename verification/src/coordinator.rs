//! What the threads of a coordinated search tell the coordinator.
use vstd::prelude::*;
use crate::squares::Config;

verus! {

/// A message from a search thread to the coordinator.
#[derive(Debug)]
pub enum Message {
    /// A thread ended: the first corner it searched (or its number), the squares it placed,
    /// and the milliseconds it ran.
    ThreadDeath(usize, u128, u128),
    /// A configuration and the plate from which its search goes on.
    WorkUnit((Config, usize)),
}

/// The coordinator's account of the work for each first corner.
pub struct Tally {
    /// Work units received and not yet started, for each first corner.
    pub units_per_first: Vec<i32>,
    /// Threads running, for each first corner.
    pub threads_per_first: Vec<i32>,
    /// Threads ended, for each first corner.
    pub threads_done_per_first: Vec<i32>,
    /// Squares placed by the ended threads, for each first corner.
    pub squares_placed_per_first: Vec<u128>,
    /// Milliseconds spent by the ended threads, for each first corner.
    pub time_spent_per_first: Vec<u128>,
    /// Squares placed by all ended threads.
    pub total_squares: u128,
    /// Threads running.
    pub running_threads: usize,
}

/// `v` is `old` with entry `k` replaced by `x`.
pub open spec fn changed_at<T>(v: Seq<T>, old: Seq<T>, k: int, x: T) -> bool {
    v == old.update(k, x)
}

/// The first corners that a continuous search up to width `max_size` hands out work for: from 8
/// up to half of `max_size` (rounded up), both included, as a half-open range.
pub fn first_corner_range(max_size: i32) -> (r: (i32, i32))
    requires
        0 <= max_size < i32::MAX,
    ensures
        r.0 == 8,
        r.1 == (max_size + 1) / 2 + 1,
{
    (8, (max_size + 1) / 2 + 1)
}

impl Tally {
    /// An account with all counts 0 for the first corners below `max_size`.
    pub fn new(max_size: usize) -> (t: Tally)
        ensures
            t.units_per_first@ == Seq::new(max_size as nat, |i: int| 0i32),
            t.threads_per_first@ == Seq::new(max_size as nat, |i: int| 0i32),
            t.threads_done_per_first@ == Seq::new(max_size as nat, |i: int| 0i32),
            t.squares_placed_per_first@ == Seq::new(max_size as nat, |i: int| 0u128),
            t.time_spent_per_first@ == Seq::new(max_size as nat, |i: int| 0u128),
            t.total_squares == 0,
            t.running_threads == 0,
    {
        let mut a: Vec<i32> = Vec::new();
        let mut b: Vec<u128> = Vec::new();
        let mut i: usize = 0;
        while i < max_size
            invariant
                i <= max_size,
                a@ == Seq::new(i as nat, |j: int| 0i32),
                b@ == Seq::new(i as nat, |j: int| 0u128),
            decreases max_size - i,
        {
            a.push(0);
            b.push(0);
            i += 1;
            assert(a@ =~= Seq::new(i as nat, |j: int| 0i32));
            assert(b@ =~= Seq::new(i as nat, |j: int| 0u128));
        }
        Tally {
            units_per_first: a.clone(),
            threads_per_first: a.clone(),
            threads_done_per_first: a,
            squares_placed_per_first: b.clone(),
            time_spent_per_first: b,
            total_squares: 0,
            running_threads: 0,
        }
    }

    /// A work unit for the first corner `first` has arrived before any unit was started.
    pub fn unit_received(&mut self, first: usize)
        requires
            first < old(self).units_per_first@.len(),
            old(self).units_per_first@[first as int] < i32::MAX,
        ensures
            changed_at(
                final(self).units_per_first@,
                old(self).units_per_first@,
                first as int,
                (old(self).units_per_first@[first as int] + 1) as i32,
            ),
            final(self).threads_per_first@ == old(self).threads_per_first@,
            final(self).threads_done_per_first@ == old(self).threads_done_per_first@,
            final(self).squares_placed_per_first@ == old(self).squares_placed_per_first@,
            final(self).time_spent_per_first@ == old(self).time_spent_per_first@,
            final(self).total_squares == old(self).total_squares,
            final(self).running_threads == old(self).running_threads,
    {
        let u = self.units_per_first[first];
        self.units_per_first[first] = u + 1;
    }

    /// A thread starts on a work unit of the first corner `first`; returns whether it is the
    /// first thread ever started for that corner.
    pub fn unit_started(&mut self, first: usize) -> (starts_first: bool)
        requires
            first < old(self).units_per_first@.len(),
            first < old(self).threads_per_first@.len(),
            first < old(self).threads_done_per_first@.len(),
            old(self).threads_per_first@[first as int] < i32::MAX,
            old(self).units_per_first@[first as int] > i32::MIN,
            old(self).running_threads < usize::MAX,
        ensures
            starts_first == (old(self).threads_per_first@[first as int] == 0
                && old(self).threads_done_per_first@[first as int] == 0),
            changed_at(
                final(self).threads_per_first@,
                old(self).threads_per_first@,
                first as int,
                (old(self).threads_per_first@[first as int] + 1) as i32,
            ),
            changed_at(
                final(self).units_per_first@,
                old(self).units_per_first@,
                first as int,
                (old(self).units_per_first@[first as int] - 1) as i32,
            ),
            final(self).threads_done_per_first@ == old(self).threads_done_per_first@,
            final(self).squares_placed_per_first@ == old(self).squares_placed_per_first@,
            final(self).time_spent_per_first@ == old(self).time_spent_per_first@,
            final(self).total_squares == old(self).total_squares,
            final(self).running_threads == old(self).running_threads + 1,
    {
        let starts_first = self.threads_per_first[first] == 0 && self.threads_done_per_first[first]
            == 0;
        let t = self.threads_per_first[first];
        self.threads_per_first[first] = t + 1;
        let u = self.units_per_first[first];
        self.units_per_first[first] = u - 1;
        self.running_threads = self.running_threads + 1;
        starts_first
    }

    /// A thread of the first corner `index` ended after placing `squares_placed` squares in
    /// `time_spent` milliseconds; returns whether that corner has no work left, neither waiting
    /// nor running.
    pub fn thread_ended(&mut self, index: usize, squares_placed: u128, time_spent: u128) -> (finished: bool)
        requires
            index < old(self).units_per_first@.len(),
            index < old(self).threads_per_first@.len(),
            index < old(self).threads_done_per_first@.len(),
            index < old(self).squares_placed_per_first@.len(),
            index < old(self).time_spent_per_first@.len(),
            old(self).total_squares + squares_placed <= u128::MAX,
            old(self).squares_placed_per_first@[index as int] + squares_placed <= u128::MAX,
            old(self).time_spent_per_first@[index as int] + time_spent <= u128::MAX,
            old(self).running_threads > 0,
            old(self).threads_per_first@[index as int] > i32::MIN,
            old(self).threads_done_per_first@[index as int] < i32::MAX,
        ensures
            final(self).total_squares == old(self).total_squares + squares_placed,
            final(self).running_threads == old(self).running_threads - 1,
            changed_at(
                final(self).squares_placed_per_first@,
                old(self).squares_placed_per_first@,
                index as int,
                (old(self).squares_placed_per_first@[index as int] + squares_placed) as u128,
            ),
            changed_at(
                final(self).time_spent_per_first@,
                old(self).time_spent_per_first@,
                index as int,
                (old(self).time_spent_per_first@[index as int] + time_spent) as u128,
            ),
            changed_at(
                final(self).threads_per_first@,
                old(self).threads_per_first@,
                index as int,
                (old(self).threads_per_first@[index as int] - 1) as i32,
            ),
            changed_at(
                final(self).threads_done_per_first@,
                old(self).threads_done_per_first@,
                index as int,
                (old(self).threads_done_per_first@[index as int] + 1) as i32,
            ),
            final(self).units_per_first@ == old(self).units_per_first@,
            finished == (old(self).units_per_first@[index as int] == 0
                && old(self).threads_per_first@[index as int] - 1 == 0),
    {
        self.total_squares = self.total_squares + squares_placed;
        self.running_threads = self.running_threads - 1;
        let sq = self.squares_placed_per_first[index];
        self.squares_placed_per_first[index] = sq + squares_placed;
        let tm = self.time_spent_per_first[index];
        self.time_spent_per_first[index] = tm + time_spent;
        let t = self.threads_per_first[index];
        self.threads_per_first[index] = t - 1;
        let d = self.threads_done_per_first[index];
        self.threads_done_per_first[index] = d + 1;
        self.units_per_first[index] == 0 && self.threads_per_first[index] == 0
    }
}

} // verus!
