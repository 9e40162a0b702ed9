//! The per-domain controller: construction from the control directory's
//! contents, clamped frequency application with the critical / non-critical
//! write strategies, drift verification, bypass, and reset.
//!
//! The controller decides; it does not touch the filesystem.  Apply and reset
//! return the ordered [`WriteCommand`]s the caller must issue through its
//! write executor, and the caller hands in the clock reading and the
//! hardware-reported frequency.

use crate::cpuset;
use crate::cpuset::cpu_set_members;
use crate::cpuset::CPU_SET_CAPACITY;
use crate::parse;
use crate::parse::i32_token_ok_c;
use crate::parse::isize_list_ok;
use crate::parse::isize_vals;
use crate::parse::name_start;
use crate::parse::token_val_c;
use crate::parse::tokens;
use crate::parse::usize_list_ok;
use crate::parse::usize_vals;
use crate::table;
use crate::table::band_hi;
use crate::table::band_lo;
use crate::table::sorted_ascending;
use nix::sched::CpuSet;
use vstd::prelude::*;
use vstd::string::StringExecFns;

verus! {

/// Why a domain could not be built or served.
#[derive(Clone, Copy, Debug, PartialEq, Eq, Structural)]
pub enum DomainError {
    /// The control directory name does not end in a decimal policy identifier.
    InvalidIdentifier,
    /// The frequency table file does not parse as a list of frequencies.
    UnreadableFrequencyTable,
    /// The frequency table parsed but holds no entry.
    EmptyFrequencyTable,
    /// The affected-core list holds something that is no usable core index.
    InvalidCoreIndex,
    /// The frequency table is empty although construction guarantees one entry.
    NoFrequenciesAvailable,
    /// The process-wide bypass table has not been set up yet.
    BypassTableUninitialized,
    /// The bypass table holds no flag for this domain's policy identifier.
    BypassFlagMissing,
}

/// Which of the two frequency control files a write goes to.
#[derive(Clone, Copy, Debug, PartialEq, Eq, Structural)]
pub enum ControlFile {
    Floor,
    Ceiling,
}

/// One write the caller must issue, in order, through its write executor.
#[derive(Clone, Copy, Debug, PartialEq, Eq, Structural)]
pub struct WriteCommand {
    pub file: ControlFile,
    pub value: isize,
}

/// A drift-verification finding: the hardware reported a frequency outside
/// the acceptance band of the previously requested target.  Observability
/// only; it never fails the apply call.
#[derive(Clone, Copy, Debug, PartialEq, Eq, Structural)]
pub struct VerifyMismatch {
    pub policy: i32,
    pub expected_min: isize,
    pub expected_max: isize,
    pub actual: isize,
}

/// What one apply call decided: the writes to issue and, when a drift check
/// ran and failed, the mismatch to report.
#[derive(Debug)]
pub struct ApplyOutcome {
    pub writes: Vec<WriteCommand>,
    pub mismatch: Option<VerifyMismatch>,
}

/// A snapshot of the process-wide bypass table: one flag per policy
/// identifier, set by external policy to suspend automatic control.
#[derive(Debug)]
pub struct BypassFlags {
    pub entries: Vec<(i32, bool)>,
}

/// The flag stored for `policy`: the first matching entry.
pub open spec fn bypass_lookup(entries: Seq<(i32, bool)>, policy: i32) -> Option<bool>
    decreases entries.len(),
{
    if entries.len() == 0 {
        None
    } else if entries.first().0 == policy {
        Some(entries.first().1)
    } else {
        bypass_lookup(entries.drop_first(), policy)
    }
}

impl BypassFlags {
    /// Looks up the flag stored for `policy`.
    #[verifier::loop_isolation(false)]
    pub fn get(&self, policy: i32) -> (r: Option<bool>)
        ensures
            r == bypass_lookup(self.entries@, policy),
    {
        let mut k: usize = 0;
        proof {
            assert(self.entries@.skip(0) =~= self.entries@);
        }
        while k < self.entries.len()
            invariant
                0 <= k <= self.entries@.len(),
                bypass_lookup(self.entries@, policy) == bypass_lookup(
                    self.entries@.skip(k as int),
                    policy,
                ),
            decreases self.entries@.len() - k,
        {
            proof {
                assert(self.entries@.skip(k as int).first() == self.entries@[k as int]);
                assert(self.entries@.skip(k as int).drop_first() =~= self.entries@.skip(k + 1));
            }
            if self.entries[k].0 == policy {
                return Some(self.entries[k].1);
            }
            k += 1;
        }
        None
    }
}

/// `f` clamped into `[lo, hi]`: raised to `lo` first, then capped at `hi`.
pub open spec fn spec_clamp(f: isize, lo: isize, hi: isize) -> isize {
    let raised = if f < lo {
        lo
    } else {
        f
    };
    if raised > hi {
        hi
    } else {
        raised
    }
}

/// The directory name of `p` (after its last `/`) carries a decimal policy
/// identifier at character offset 6 that fits an `i32`.
pub open spec fn policy_ok(p: Seq<char>) -> bool {
    p.len() - name_start(p) >= 6 && i32_token_ok_c(p.skip(name_start(p) + 6))
}

/// The policy identifier embedded in path `p` (meaningful when `policy_ok`).
pub open spec fn policy_val(p: Seq<char>) -> int {
    token_val_c(p.skip(name_start(p) + 6))
}

/// The affected-core data parses and every core id fits the busy-core set.
pub open spec fn cores_data_ok(d: Seq<u8>) -> bool {
    usize_list_ok(d) && forall|k: int|
        0 <= k < usize_vals(d).len() ==> (#[trigger] usize_vals(d)[k]) < CPU_SET_CAPACITY
}

/// One frequency-scaling domain and its controller state.
#[derive(Debug)]
pub struct Info {
    /// Identifier parsed from the control directory name; immutable.
    pub policy: i32,
    /// The control directory; immutable.
    pub path: String,
    /// Core indices belonging to this domain; immutable.
    pub affected_cpus: Vec<usize>,
    /// The last frequency this controller decided to request; always within
    /// the table's bounds, updated on every apply whether or not writes ran.
    pub cur_fas_freq: isize,
    /// Supported frequencies, ascending and non-empty for the domain's lifetime.
    pub freqs: Vec<isize>,
    /// Baseline for the next drift check: the target of the previous window.
    pub last_verify_target: Option<isize>,
    /// Start of the current verification debounce window, in milliseconds of
    /// the caller's monotonic clock.
    pub verify_window_start: u64,
}

impl Info {
    /// Every affected core id fits the busy-core set.
    pub open spec fn cores_ok(self) -> bool {
        forall|k: int|
            0 <= k < self.affected_cpus@.len() ==> (#[trigger] self.affected_cpus@[k])
                < CPU_SET_CAPACITY
    }

    /// The domain invariant: a sorted, non-empty table and usable core ids.
    pub open spec fn wf(self) -> bool {
        &&& self.freqs@.len() > 0
        &&& sorted_ascending(self.freqs@)
        &&& self.cores_ok()
    }

    /// The requested frequency clamped into the table's bounds.
    pub open spec fn clamped_target(self, freq: isize) -> isize {
        spec_clamp(freq, self.freqs@.first(), self.freqs@.last())
    }

    /// The domain is critical this tick: some affected core is busy.
    pub open spec fn is_critical(self, top_used_cores: CpuSet) -> bool {
        exists|k: int|
            0 <= k < self.affected_cpus@.len() && cpu_set_members(top_used_cores).contains(
                #[trigger] self.affected_cpus@[k],
            )
    }

    /// The debounce window has elapsed: a drift evaluation may run at `now_ms`.
    pub open spec fn verify_due(self, now_ms: u64) -> bool {
        now_ms >= self.verify_window_start + 3000
    }

    /// Verification's state transition: the new baseline is always the target
    /// just applied; the window restarts only when an evaluation ran.
    pub open spec fn verify_step(self, target: isize, now_ms: u64) -> Info {
        Info {
            last_verify_target: Some(target),
            verify_window_start: if self.verify_due(now_ms) {
                now_ms
            } else {
                self.verify_window_start
            },
            ..self
        }
    }

    /// Verification's finding: a mismatch exactly when an evaluation runs
    /// (window elapsed, a previous baseline exists) and the hardware-reported
    /// frequency lies outside the baseline's acceptance band.
    pub open spec fn verify_report(self, now_ms: u64, current_freq: isize) -> Option<
        VerifyMismatch,
    > {
        if self.verify_due(now_ms) {
            match self.last_verify_target {
                Some(base) => {
                    let lo = band_lo(self.freqs@, base);
                    let hi = band_hi(self.freqs@, base);
                    if lo <= current_freq <= hi {
                        None
                    } else {
                        Some(
                            VerifyMismatch {
                                policy: self.policy,
                                expected_min: lo,
                                expected_max: hi,
                                actual: current_freq,
                            },
                        )
                    }
                },
                None => None,
            }
        } else {
            None
        }
    }

    /// Builds a domain from its control directory path and the raw contents
    /// of its frequency-table and affected-core files.  `now_ms` is the
    /// caller's monotonic clock and seeds the verification window.
    ///
    /// The target starts at the table's maximum: full performance is assumed
    /// until the control loop decides otherwise.
    pub fn new(path: String, freqs_data: &[u8], cpus_data: &[u8], now_ms: u64) -> (r: Result<
        Info,
        DomainError,
    >)
        ensures
            (r is Ok <==> policy_ok(path@) && isize_list_ok(freqs_data@) && tokens(
                freqs_data@,
            ).len() > 0 && cores_data_ok(cpus_data@)),
            !policy_ok(path@) ==> r == Err::<Info, DomainError>(DomainError::InvalidIdentifier),
            policy_ok(path@) && !isize_list_ok(freqs_data@) ==> r == Err::<Info, DomainError>(
                DomainError::UnreadableFrequencyTable,
            ),
            policy_ok(path@) && isize_list_ok(freqs_data@) && tokens(freqs_data@).len() == 0 ==> r
                == Err::<Info, DomainError>(DomainError::EmptyFrequencyTable),
            policy_ok(path@) && isize_list_ok(freqs_data@) && tokens(freqs_data@).len() > 0
                && !cores_data_ok(cpus_data@) ==> r == Err::<Info, DomainError>(
                DomainError::InvalidCoreIndex,
            ),
            r matches Ok(d) ==> {
                &&& d.wf()
                &&& d.policy as int == policy_val(path@)
                &&& d.path@ == path@
                &&& sorted_ascending(d.freqs@)
                &&& d.freqs@.len() == tokens(freqs_data@).len()
                &&& d.freqs@.to_multiset() == isize_vals(freqs_data@).to_multiset()
                &&& d.affected_cpus@ == usize_vals(cpus_data@)
                &&& d.cur_fas_freq == d.freqs@.last()
                &&& d.last_verify_target is None
                &&& d.verify_window_start == now_ms
            },
    {
        let plen = path.as_str().unicode_len();
        let ns = parse::find_name_start(path.as_str());
        if plen - ns < 6 {
            return Err(DomainError::InvalidIdentifier);
        }
        let policy = match parse::parse_i32_suffix(path.as_str(), ns + 6) {
            Some(p) => p,
            None => {
                return Err(DomainError::InvalidIdentifier);
            },
        };
        let freqs_raw = match parse::parse_isize_list(freqs_data) {
            Some(v) => v,
            None => {
                return Err(DomainError::UnreadableFrequencyTable);
            },
        };
        if freqs_raw.len() == 0 {
            return Err(DomainError::EmptyFrequencyTable);
        }
        let freqs = table::sort_ascending(freqs_raw);
        let cores = match parse::parse_usize_list(cpus_data) {
            Some(v) => v,
            None => {
                return Err(DomainError::InvalidCoreIndex);
            },
        };
        let mut k: usize = 0;
        #[verifier::loop_isolation(false)]
        while k < cores.len()
            invariant
                0 <= k <= cores@.len(),
                forall|j: int| 0 <= j < k ==> (#[trigger] cores@[j]) < CPU_SET_CAPACITY,
            decreases cores@.len() - k,
        {
            if cores[k] >= CPU_SET_CAPACITY {
                return Err(DomainError::InvalidCoreIndex);
            }
            k += 1;
        }
        let cur = freqs[freqs.len() - 1];
        Ok(
            Info {
                policy,
                path,
                affected_cpus: cores,
                cur_fas_freq: cur,
                freqs,
                last_verify_target: None,
                verify_window_start: now_ms,
            },
        )
    }

    /// Whether writes for this domain are currently bypassed; an error when
    /// the table is absent or holds no flag for this policy.
    pub fn ignore_write(&self, flags: Option<&BypassFlags>) -> (r: Result<bool, DomainError>)
        ensures
            flags is None ==> r == Err::<bool, DomainError>(DomainError::BypassTableUninitialized),
            flags matches Some(fl) ==> r == (match bypass_lookup(fl.entries@, self.policy) {
                Some(b) => Ok::<bool, DomainError>(b),
                None => Err::<bool, DomainError>(DomainError::BypassFlagMissing),
            }),
    {
        match flags {
            None => Err(DomainError::BypassTableUninitialized),
            Some(fl) => match fl.get(self.policy) {
                Some(b) => Ok(b),
                None => Err(DomainError::BypassFlagMissing),
            },
        }
    }

    /// Whether any of this domain's cores is in the busy-core set.
    #[verifier::loop_isolation(false)]
    pub fn critical_policy(&self, top_used_cores: CpuSet) -> (r: bool)
        requires
            self.cores_ok(),
        ensures
            r == self.is_critical(top_used_cores),
    {
        let mut k: usize = 0;
        while k < self.affected_cpus.len()
            invariant
                0 <= k <= self.affected_cpus@.len(),
                forall|j: int|
                    0 <= j < k ==> !cpu_set_members(top_used_cores).contains(
                        #[trigger] self.affected_cpus@[j],
                    ),
            decreases self.affected_cpus@.len() - k,
        {
            if cpuset::cpu_set_contains(&top_used_cores, self.affected_cpus[k]) {
                return true;
            }
            k += 1;
        }
        false
    }

    /// The drift check, debounced to one evaluation per 3-second window.
    ///
    /// When the window has elapsed it restarts, and if a baseline from the
    /// previous window exists, `current_freq` (the hardware-reported
    /// frequency) is judged against the baseline's acceptance band; a
    /// mismatch is returned, never an error.  The target being applied now
    /// becomes the baseline for the next window.
    pub fn verify_freq(&mut self, write_freq: isize, now_ms: u64, current_freq: isize) -> (r:
        Option<VerifyMismatch>)
        ensures
            *final(self) == old(self).verify_step(write_freq, now_ms),
            r == old(self).verify_report(now_ms, current_freq),
    {
        let due = (now_ms as u128) >= (self.verify_window_start as u128) + 3000;
        let mut report: Option<VerifyMismatch> = None;
        if due {
            self.verify_window_start = now_ms;
            match self.last_verify_target {
                Some(base) => {
                    let lo = table::band_floor(&self.freqs, base);
                    let hi = table::band_ceiling(&self.freqs, base);
                    if !(lo <= current_freq && current_freq <= hi) {
                        report = Some(
                            VerifyMismatch {
                                policy: self.policy,
                                expected_min: lo,
                                expected_max: hi,
                                actual: current_freq,
                            },
                        );
                    }
                },
                None => {},
            }
        }
        self.last_verify_target = Some(write_freq);
        report
    }

    /// Applies a requested frequency: clamps it into the table's bounds and
    /// records it as the domain's target unconditionally, then decides the
    /// writes.  Bypassed domains get none.  A critical domain (some affected
    /// core busy) is pinned: ceiling then floor, both at the target, with the
    /// drift check run first.  A non-critical domain keeps its floor at the
    /// table minimum and is capped at the target, floor first.
    ///
    /// `now_ms` is the caller's monotonic clock; `current_freq` is the
    /// hardware-reported frequency, consulted only when a drift evaluation
    /// runs.
    pub fn write_freq(
        &mut self,
        top_used_cores: CpuSet,
        freq: isize,
        flags: Option<&BypassFlags>,
        now_ms: u64,
        current_freq: isize,
    ) -> (r: Result<ApplyOutcome, DomainError>)
        requires
            old(self).cores_ok(),
        ensures
            final(self).policy == old(self).policy,
            final(self).path == old(self).path,
            final(self).freqs == old(self).freqs,
            final(self).affected_cpus == old(self).affected_cpus,
            (r is Ok <==> old(self).freqs@.len() > 0 && (flags matches Some(fl) && bypass_lookup(
                fl.entries@,
                old(self).policy,
            ) is Some)),
            old(self).freqs@.len() == 0 ==> r == Err::<ApplyOutcome, DomainError>(
                DomainError::NoFrequenciesAvailable,
            ) && *final(self) == *old(self),
            old(self).freqs@.len() > 0 ==> {
                let t = old(self).clamped_target(freq);
                &&& final(self).cur_fas_freq == t
                &&& (flags is None ==> r == Err::<ApplyOutcome, DomainError>(
                    DomainError::BypassTableUninitialized,
                ) && *final(self) == (Info { cur_fas_freq: t, ..*old(self) }))
                &&& (flags matches Some(fl) ==> (match bypass_lookup(
                    fl.entries@,
                    old(self).policy,
                ) {
                    None => r == Err::<ApplyOutcome, DomainError>(DomainError::BypassFlagMissing)
                        && *final(self) == (Info { cur_fas_freq: t, ..*old(self) }),
                    Some(true) => (r matches Ok(o) && o.writes@.len() == 0 && o.mismatch is None)
                        && *final(self) == (Info { cur_fas_freq: t, ..*old(self) }),
                    Some(false) => if old(self).is_critical(top_used_cores) {
                        &&& *final(self) == (Info {
                            cur_fas_freq: t,
                            ..old(self).verify_step(t, now_ms)
                        })
                        &&& r matches Ok(o) && o.writes@.len() == 2 && o.writes@[0] == (
                        WriteCommand { file: ControlFile::Ceiling, value: t }) && o.writes@[1] == (
                        WriteCommand { file: ControlFile::Floor, value: t }) && o.mismatch == old(
                            self,
                        ).verify_report(now_ms, current_freq)
                    } else {
                        &&& *final(self) == (Info { cur_fas_freq: t, ..*old(self) })
                        &&& r matches Ok(o) && o.writes@.len() == 2 && o.writes@[0] == (
                        WriteCommand { file: ControlFile::Floor, value: old(self).freqs@.first() })
                            && o.writes@[1] == (WriteCommand { file: ControlFile::Ceiling, value: t,
                        }) && o.mismatch is None
                    },
                }))
            },
    {
        if self.freqs.len() == 0 {
            return Err(DomainError::NoFrequenciesAvailable);
        }
        let min_freq = self.freqs[0];
        let max_freq = self.freqs[self.freqs.len() - 1];
        let mut adjusted = freq;
        if adjusted < min_freq {
            adjusted = min_freq;
        }
        if adjusted > max_freq {
            adjusted = max_freq;
        }
        self.cur_fas_freq = adjusted;
        let bypass = match self.ignore_write(flags) {
            Ok(b) => b,
            Err(e) => {
                return Err(e);
            },
        };
        if bypass {
            return Ok(ApplyOutcome { writes: Vec::new(), mismatch: None });
        }
        if self.critical_policy(top_used_cores) {
            let mismatch = self.verify_freq(adjusted, now_ms, current_freq);
            let mut writes: Vec<WriteCommand> = Vec::new();
            writes.push(WriteCommand { file: ControlFile::Ceiling, value: adjusted });
            writes.push(WriteCommand { file: ControlFile::Floor, value: adjusted });
            Ok(ApplyOutcome { writes, mismatch })
        } else {
            let mut writes: Vec<WriteCommand> = Vec::new();
            writes.push(WriteCommand { file: ControlFile::Floor, value: min_freq });
            writes.push(WriteCommand { file: ControlFile::Ceiling, value: adjusted });
            Ok(ApplyOutcome { writes, mismatch: None })
        }
    }

    /// Relinquishes control: the caller must restore the full hardware range,
    /// ceiling to the table maximum then floor to the minimum, and the
    /// verification baseline is cleared.
    pub fn reset(&mut self) -> (r: Result<Vec<WriteCommand>, DomainError>)
        ensures
            (r is Ok <==> old(self).freqs@.len() > 0),
            old(self).freqs@.len() == 0 ==> r == Err::<Vec<WriteCommand>, DomainError>(
                DomainError::NoFrequenciesAvailable,
            ) && *final(self) == *old(self),
            old(self).freqs@.len() > 0 ==> {
                &&& *final(self) == (Info { last_verify_target: None, ..*old(self) })
                &&& r matches Ok(w) && w@.len() == 2 && w@[0] == (WriteCommand {
                    file: ControlFile::Ceiling,
                    value: old(self).freqs@.last(),
                }) && w@[1] == (WriteCommand { file: ControlFile::Floor, value: old(
                    self,
                ).freqs@.first() })
            },
    {
        if self.freqs.len() == 0 {
            return Err(DomainError::NoFrequenciesAvailable);
        }
        let min_freq = self.freqs[0];
        let max_freq = self.freqs[self.freqs.len() - 1];
        self.last_verify_target = None;
        let mut writes: Vec<WriteCommand> = Vec::new();
        writes.push(WriteCommand { file: ControlFile::Ceiling, value: max_freq });
        writes.push(WriteCommand { file: ControlFile::Floor, value: min_freq });
        Ok(writes)
    }

    /// The ceiling control file of this domain.
    pub fn max_freq_path(&self) -> (r: String)
        ensures
            r@ == self.path@ + "/scaling_max_freq"@,
    {
        let mut p = self.path.clone();
        p.append("/scaling_max_freq");
        p
    }

    /// The floor control file of this domain.
    pub fn min_freq_path(&self) -> (r: String)
        ensures
            r@ == self.path@ + "/scaling_min_freq"@,
    {
        let mut p = self.path.clone();
        p.append("/scaling_min_freq");
        p
    }
}

/// The acceptance band always contains the target it was computed for:
/// hardware that honours the previous request exactly is never reported as
/// drifting, whatever the table holds.
pub proof fn lemma_exact_target_never_reported(pre: Info, now_ms: u64, base: isize)
    requires
        pre.last_verify_target == Some(base),
    ensures
        pre.verify_report(now_ms, base) is None,
{
    table::lemma_band_contains_target(pre.freqs@, base);
}

/// Drift evaluations are debounced: once one has run at `n1`, the next can
/// only run 3000 ms or more later, and it judges the target recorded at `n1`
/// — the previous window's target, not its own.
pub proof fn lemma_verify_once_per_window(pre: Info, target1: isize, n1: u64, n2: u64)
    requires
        pre.verify_due(n1),
        pre.verify_step(target1, n1).verify_due(n2),
    ensures
        n2 >= n1 + 3000,
        pre.verify_step(target1, n1).last_verify_target == Some(target1),
{
}

} // verus!
