//! Counters of bytes or operations, and of the time spent on them.

use vstd::prelude::*;

verus! {

/// `std::time::Instant`: a moment on a clock that never runs backwards.
/// Nothing is known of its value.
#[verifier::external_type_specification]
#[verifier::external_body]
pub struct ExInstant(std::time::Instant);

/// A count of bytes or operations, with the microseconds spent on them.
#[derive(Debug, Clone, Copy, PartialEq, Eq, Structural)]
pub struct Counter {
    pub counter: u64,
    pub micros: u64,
}

/// A running measurement: when it started, and the bytes noted since.
#[derive(Debug)]
pub struct Timer {
    started: std::time::Instant,
    noted: u64,
}

/// `Instant::now`.
#[verifier::external_body]
fn now() -> (instant: std::time::Instant) {
    std::time::Instant::now()
}

/// `Instant::elapsed`, in whole microseconds as `Duration::as_micros` gives them.
#[verifier::external_body]
fn micros_since(started: &std::time::Instant) -> (micros: u128) {
    started.elapsed().as_micros()
}

/// `rayon::current_num_threads`: the size of the pool of worker threads.
#[verifier::external_body]
fn worker_threads() -> (threads: usize) {
    rayon::current_num_threads()
}

/// The sum of a count and an addition, as 64 bits hold it.
pub open spec fn wrapped(count: u64, more: int) -> u64 {
    ((count as int + more) % 0x1_0000_0000_0000_0000) as u64
}

impl Counter {
    pub fn new() -> (counter: Counter)
        ensures
            counter == (Counter { counter: 0, micros: 0 }),
    {
        Counter { counter: 0, micros: 0 }
    }

    /// Adds `n` to the count, which wraps around at 64 bits.
    pub fn inc(&mut self, n: usize)
        ensures
            final(self).counter == wrapped(old(self).counter, n as int),
            final(self).micros == old(self).micros,
    {
        self.counter = self.counter.wrapping_add(n as u64);
    }

    /// Adds `micros` to the time, which wraps around at 64 bits.
    pub fn elapsed(&mut self, micros: u64)
        ensures
            final(self).micros == wrapped(old(self).micros, micros as int),
            final(self).counter == old(self).counter,
    {
        self.micros = self.micros.wrapping_add(micros);
    }

    pub fn counter(&self) -> (count: u64)
        ensures
            count == self.counter,
    {
        self.counter
    }

    pub fn micros(&self) -> (micros: u64)
        ensures
            micros == self.micros,
    {
        self.micros
    }

    /// Starts a measurement.
    pub fn timer(&self) -> (timer: Timer)
        ensures
            timer.noted() == 0,
    {
        Timer { started: now(), noted: 0 }
    }

    /// The time divided by the number of `threads` that shared the work;
    /// unchanged where there is no thread.
    pub fn fit_to_threads(&mut self, threads: usize)
        ensures
            final(self).counter == old(self).counter,
            final(self).micros == if threads == 0 {
                old(self).micros
            } else {
                old(self).micros / (threads as u64)
            },
    {
        if threads > 0 {
            self.micros = self.micros / (threads as u64);
        }
    }

    /// The time divided by the number of worker threads of the pool.
    pub fn fit_to_rayon_threads(&mut self)
        ensures
            final(self).counter == old(self).counter,
            exists|threads: usize| final(self).micros == shared(old(self).micros, threads),
    {
        let threads = worker_threads();
        self.fit_to_threads(threads);
        assert(self.micros == shared(old(self).micros, threads));
    }

    pub fn is_empty(&self) -> (empty: bool)
        ensures
            empty == (self.counter == 0),
    {
        self.counter == 0
    }
}

impl Timer {
    /// The bytes noted since the measurement started.
    pub closed spec fn noted(&self) -> u64 {
        self.noted
    }

    /// Notes `n` more bytes.
    pub fn bytes(&mut self, n: usize)
        ensures
            final(self).noted() == wrapped(old(self).noted(), n as int),
    {
        self.noted = self.noted.wrapping_add(n as u64);
    }

    /// Ends the measurement: adds the bytes noted and the time passed to `counter`.
    pub fn stop(self, counter: &mut Counter)
        ensures
            final(counter).counter == wrapped(old(counter).counter, self.noted() as int),
    {
        let micros = micros_since(&self.started);
        let spent: u64 = if micros > 0xffff_ffff_ffff_ffff {
            0xffff_ffff_ffff_ffff
        } else {
            micros as u64
        };
        counter.counter = counter.counter.wrapping_add(self.noted);
        counter.elapsed(spent);
    }
}

/// What a counter counts.
#[derive(Debug, Clone, Copy, PartialEq, Eq, Structural)]
pub enum Unit {
    Bytes,
    Operations,
}

/// One line of the report: the name of a counter, what it counts, and its values.
#[derive(Debug, Clone, Copy)]
pub struct Section {
    pub name: &'static str,
    pub unit: Unit,
    pub counter: Counter,
}

/// The counters of one run.
#[derive(Debug, Clone, Copy, PartialEq, Eq, Structural)]
pub struct Stats {
    pub hashing: Counter,
    pub packing: Counter,
    pub unpacking: Counter,
    pub walking: Counter,
    pub download: Counter,
    pub upload: Counter,
}

/// The names of the counters in the order of the report.
pub open spec fn names() -> Seq<Seq<char>> {
    seq!["hashing"@, "packing"@, "unpacking"@, "walking"@, "download"@, "upload"@]
}

/// The counters in the order of the report, with the time of hashing
/// divided by the number of threads.
pub open spec fn counters(stats: Stats, threads: usize) -> Seq<Counter> {
    seq![
        Counter {
            counter: stats.hashing.counter,
            micros: if threads == 0 {
                stats.hashing.micros
            } else {
                stats.hashing.micros / (threads as u64)
            },
        },
        stats.packing,
        stats.unpacking,
        stats.walking,
        stats.download,
        stats.upload,
    ]
}

/// The positions, in the order of the report, of the first `upto` counters
/// that have counted something.
pub open spec fn shown(all: Seq<Counter>, upto: int) -> Seq<int>
    decreases upto,
{
    if upto <= 0 {
        Seq::empty()
    } else if all[upto - 1].counter == 0 {
        shown(all, upto - 1)
    } else {
        shown(all, upto - 1).push(upto - 1)
    }
}

impl Stats {
    pub fn new() -> (stats: Stats)
        ensures
            stats.hashing == (Counter { counter: 0, micros: 0 }),
            stats.packing == (Counter { counter: 0, micros: 0 }),
            stats.unpacking == (Counter { counter: 0, micros: 0 }),
            stats.walking == (Counter { counter: 0, micros: 0 }),
            stats.download == (Counter { counter: 0, micros: 0 }),
            stats.upload == (Counter { counter: 0, micros: 0 }),
    {
        Stats {
            hashing: Counter::new(),
            packing: Counter::new(),
            unpacking: Counter::new(),
            walking: Counter::new(),
            download: Counter::new(),
            upload: Counter::new(),
        }
    }

    pub fn hashing(&self) -> (counter: &Counter)
        ensures
            *counter == self.hashing,
    {
        &self.hashing
    }

    pub fn packing(&self) -> (counter: &Counter)
        ensures
            *counter == self.packing,
    {
        &self.packing
    }

    pub fn unpacking(&self) -> (counter: &Counter)
        ensures
            *counter == self.unpacking,
    {
        &self.unpacking
    }

    pub fn walking(&self) -> (counter: &Counter)
        ensures
            *counter == self.walking,
    {
        &self.walking
    }

    pub fn download(&self) -> (counter: &Counter)
        ensures
            *counter == self.download,
    {
        &self.download
    }

    pub fn upload(&self) -> (counter: &Counter)
        ensures
            *counter == self.upload,
    {
        &self.upload
    }

    /// The lines of the report: one for each counter that has counted
    /// something, in the fixed order; walking counts operations, the others
    /// bytes; the time of hashing is divided by the number of threads.
    pub fn sections(&self, threads: usize) -> (sections: Vec<Section>)
        ensures
            sections@.len() == shown(counters(*self, threads), 6).len(),
            forall|i: int|
                0 <= i < sections@.len() ==> {
                    let at = shown(counters(*self, threads), 6)[i];
                    &&& 0 <= at < 6
                    &&& (#[trigger] sections@[i]).name@ == names()[at]
                    &&& sections@[i].counter == counters(*self, threads)[at]
                    &&& sections@[i].unit == if at == 3 {
                        Unit::Operations
                    } else {
                        Unit::Bytes
                    }
                },
    {
        let mut hashing = self.hashing;
        hashing.fit_to_threads(threads);
        let ghost all = counters(*self, threads);
        let mut sections: Vec<Section> = Vec::new();
        proof {
            reveal_with_fuel(shown, 7);
        }
        if !hashing.is_empty() {
            sections.push(Section { name: "hashing", unit: Unit::Bytes, counter: hashing });
        }
        if !self.packing.is_empty() {
            sections.push(Section { name: "packing", unit: Unit::Bytes, counter: self.packing });
        }
        if !self.unpacking.is_empty() {
            sections.push(
                Section { name: "unpacking", unit: Unit::Bytes, counter: self.unpacking },
            );
        }
        if !self.walking.is_empty() {
            sections.push(
                Section { name: "walking", unit: Unit::Operations, counter: self.walking },
            );
        }
        if !self.download.is_empty() {
            sections.push(Section { name: "download", unit: Unit::Bytes, counter: self.download });
        }
        if !self.upload.is_empty() {
            sections.push(Section { name: "upload", unit: Unit::Bytes, counter: self.upload });
        }
        sections
    }
}

/// A time shared among the `threads` that spent it at once: the time
/// divided by their number, or the time itself where there is no thread.
pub open spec fn shared(micros: u64, threads: usize) -> u64 {
    if threads == 0 {
        micros
    } else {
        micros / (threads as u64)
    }
}

} // verus!
