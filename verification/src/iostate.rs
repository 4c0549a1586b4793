//! The deterministic core of the fault-injecting I/O layer: the fault flag,
//! the per-file operation counters, the dedicated RNG and the frozen clock.
//!
//! The unverified rim wraps these states in its host I/O adapters; every
//! decision — whether an operation fails, which counter moves — is made
//! here.

use vstd::prelude::*;

use crate::rng::{rng_from_seed, rng_next_u64};
use crate::sql::dec_nat;
use vstd::string::StringSliceAdditionalSpecFns;

verus! {

/// Counters and fault flag of one simulated file.
#[derive(Debug)]
pub struct FileStats {
    pub fault: bool,
    pub pread_faults: u64,
    pub pwrite_faults: u64,
    pub reads: u64,
    pub writes: u64,
    pub syncs: u64,
}

/// One attempt moves either the fault counter or the success counter.
pub open spec fn attempt_step(s: (int, int), injected: bool) -> (int, int) {
    if injected {
        (s.0 + 1, s.1)
    } else {
        (s.0, s.1 + 1)
    }
}

/// Counters after a sequence of attempts, each marked injected or not.
pub open spec fn apply_attempts(s: (int, int), flags: Seq<bool>) -> (int, int)
    decreases flags.len(),
{
    if flags.len() == 0 {
        s
    } else {
        attempt_step(apply_attempts(s, flags.drop_last()), flags.last())
    }
}

/// Fault accounting: over any sequence of attempts, faults plus successes
/// grow by exactly the number of attempts.
pub proof fn lemma_fault_accounting(s: (int, int), flags: Seq<bool>)
    ensures
        apply_attempts(s, flags).0 + apply_attempts(s, flags).1 == s.0 + s.1 + flags.len(),
    decreases flags.len(),
{
    if flags.len() > 0 {
        lemma_fault_accounting(s, flags.drop_last());
    }
}

impl FileStats {
    /// A fresh file: no fault, all counters zero.
    pub fn new() -> (r: FileStats)
        ensures
            !r.fault,
            r.pread_faults == 0,
            r.pwrite_faults == 0,
            r.reads == 0,
            r.writes == 0,
            r.syncs == 0,
    {
        FileStats {
            fault: false,
            pread_faults: 0,
            pwrite_faults: 0,
            reads: 0,
            writes: 0,
            syncs: 0,
        }
    }

    /// Sets the fault flag.
    pub fn inject_fault(&mut self, fault: bool)
        ensures
            final(self).fault == fault,
            final(self).pread_faults == old(self).pread_faults,
            final(self).pwrite_faults == old(self).pwrite_faults,
            final(self).reads == old(self).reads,
            final(self).writes == old(self).writes,
            final(self).syncs == old(self).syncs,
    {
        self.fault = fault;
    }

    /// One read attempt: injected exactly when the fault flag is set, moving
    /// the fault counter then and the success counter otherwise.
    pub fn record_pread(&mut self) -> (injected: bool)
        requires
            old(self).pread_faults < u64::MAX,
            old(self).reads < u64::MAX,
        ensures
            injected == old(self).fault,
            final(self).fault == old(self).fault,
            (final(self).pread_faults as int, final(self).reads as int) == attempt_step(
                (old(self).pread_faults as int, old(self).reads as int),
                old(self).fault,
            ),
            final(self).pwrite_faults == old(self).pwrite_faults,
            final(self).writes == old(self).writes,
            final(self).syncs == old(self).syncs,
    {
        if self.fault {
            self.pread_faults = self.pread_faults + 1;
            true
        } else {
            self.reads = self.reads + 1;
            false
        }
    }

    /// One write attempt, mirroring [`FileStats::record_pread`].
    pub fn record_pwrite(&mut self) -> (injected: bool)
        requires
            old(self).pwrite_faults < u64::MAX,
            old(self).writes < u64::MAX,
        ensures
            injected == old(self).fault,
            final(self).fault == old(self).fault,
            (final(self).pwrite_faults as int, final(self).writes as int) == attempt_step(
                (old(self).pwrite_faults as int, old(self).writes as int),
                old(self).fault,
            ),
            final(self).pread_faults == old(self).pread_faults,
            final(self).reads == old(self).reads,
            final(self).syncs == old(self).syncs,
    {
        if self.fault {
            self.pwrite_faults = self.pwrite_faults + 1;
            true
        } else {
            self.writes = self.writes + 1;
            false
        }
    }

    /// One sync: never fails from injection, but counts.
    pub fn record_sync(&mut self)
        requires
            old(self).syncs < u64::MAX,
        ensures
            final(self).syncs == old(self).syncs + 1,
            final(self).fault == old(self).fault,
            final(self).pread_faults == old(self).pread_faults,
            final(self).pwrite_faults == old(self).pwrite_faults,
            final(self).reads == old(self).reads,
            final(self).writes == old(self).writes,
    {
        self.syncs = self.syncs + 1;
    }

    /// Whether a lock or unlock attempt fails by injection right now.
    pub fn lock_gate(&self) -> (r: bool)
        ensures
            r == self.fault,
    {
        self.fault
    }

    /// The statistics line printed for this file at shutdown.
    pub fn stats_line(&self) -> (r: Vec<u8>)
        ensures
            r@ == "pread faults: ".spec_bytes() + dec_nat(self.pread_faults as nat)
                + ", pwrite faults: ".spec_bytes() + dec_nat(self.pwrite_faults as nat)
                + ", reads: ".spec_bytes() + dec_nat(self.reads as nat) + ", writes: ".spec_bytes()
                + dec_nat(self.writes as nat) + ", syncs: ".spec_bytes() + dec_nat(
                self.syncs as nat,
            ),
    {
        let mut out: Vec<u8> = Vec::new();
        out.extend_from_slice("pread faults: ".as_bytes());
        crate::sql::push_dec_u64(&mut out, self.pread_faults);
        out.extend_from_slice(", pwrite faults: ".as_bytes());
        crate::sql::push_dec_u64(&mut out, self.pwrite_faults);
        out.extend_from_slice(", reads: ".as_bytes());
        crate::sql::push_dec_u64(&mut out, self.reads);
        out.extend_from_slice(", writes: ".as_bytes());
        crate::sql::push_dec_u64(&mut out, self.writes);
        out.extend_from_slice(", syncs: ".as_bytes());
        crate::sql::push_dec_u64(&mut out, self.syncs);
        proof {
            assert(out@ =~= "pread faults: ".spec_bytes() + dec_nat(self.pread_faults as nat)
                + ", pwrite faults: ".spec_bytes() + dec_nat(self.pwrite_faults as nat)
                + ", reads: ".spec_bytes() + dec_nat(self.reads as nat) + ", writes: ".spec_bytes()
                + dec_nat(self.writes as nat) + ", syncs: ".spec_bytes() + dec_nat(
                self.syncs as nat,
            ));
        }
        out
    }
}

/// The facade-wide state: the broadcast fault flag, the `run_once` fault
/// counter, the page size and the dedicated RNG the engine draws from.
pub struct IoState {
    pub fault: bool,
    pub run_once_faults: u64,
    pub page_size: usize,
    pub rng: rand_chacha::ChaCha8Rng,
}

impl IoState {
    /// A fresh facade state, its RNG seeded from the master seed.
    pub fn new(seed: u64, page_size: usize) -> (r: IoState)
        ensures
            !r.fault,
            r.run_once_faults == 0,
            r.page_size == page_size,
    {
        IoState { fault: false, run_once_faults: 0, page_size, rng: rng_from_seed(seed) }
    }

    /// Sets the facade's own fault flag (the caller broadcasts to files).
    pub fn inject_fault(&mut self, fault: bool)
        ensures
            final(self).fault == fault,
            final(self).run_once_faults == old(self).run_once_faults,
            final(self).page_size == old(self).page_size,
    {
        self.fault = fault;
    }

    /// Whether one `run_once` call fails by injection; an injected failure
    /// counts.
    pub fn run_once_gate(&mut self) -> (injected: bool)
        requires
            old(self).run_once_faults < u64::MAX,
        ensures
            injected == old(self).fault,
            final(self).fault == old(self).fault,
            final(self).page_size == old(self).page_size,
            old(self).fault ==> final(self).run_once_faults == old(self).run_once_faults + 1,
            !old(self).fault ==> final(self).run_once_faults == old(self).run_once_faults,
    {
        if self.fault {
            self.run_once_faults = self.run_once_faults + 1;
            true
        } else {
            false
        }
    }

    /// The pseudo-random number handed to the engine, from the dedicated
    /// deterministic RNG.
    pub fn generate_random_number(&mut self) -> i64
    {
        let raw = rng_next_u64(&mut self.rng);
        #[verifier::truncate] (raw as i64)
    }

    /// The frozen clock: every call returns the same instant.
    pub fn get_current_time(&self) -> (r: &'static str)
        ensures
            r@ == "2024-01-01 00:00:00"@,
    {
        "2024-01-01 00:00:00"
    }

    /// The statistics line printed for the facade at shutdown.
    pub fn stats_line(&self) -> (r: Vec<u8>)
        ensures
            r@ == "run_once faults: ".spec_bytes() + dec_nat(self.run_once_faults as nat),
    {
        let mut out: Vec<u8> = Vec::new();
        out.extend_from_slice("run_once faults: ".as_bytes());
        crate::sql::push_dec_u64(&mut out, self.run_once_faults);
        proof {
            assert(out@ =~= "run_once faults: ".spec_bytes() + dec_nat(
                self.run_once_faults as nat,
            ));
        }
        out
    }
}

} // verus!
