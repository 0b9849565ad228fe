//! The chain validator: the rules every header is held to, the state carried
//! from one header to the next, and the run over a whole sequence.
use vstd::prelude::*;

use crate::difficulty::{bits_to_target, exponent_in_range, target_of};
use crate::error::ChainError;
use crate::hashing::{double_hash, double_sha256};
use crate::header::{bits_field, prev_hash_field, time_field, version_field, BlockHeader};
use crate::magnitude::{
    assert_eq_256,
    assert_eq_32,
    assert_le_256,
    assert_le_32,
    magnitude,
    u32_from_le,
};
use crate::time_window::{twice_median, window_push, TimeWindow, WINDOW_CAPACITY};

verus! {

/// The only version a header may carry: 1, in four little-endian bytes.
pub open spec fn accepted_version() -> Seq<u8> {
    seq![1u8, 0u8, 0u8, 0u8]
}

/// The all-zero hash that the first header must link to.
pub open spec fn zero_hash() -> Seq<u8> {
    Seq::new(32, |i: int| 0u8)
}

/// What the validator carries from one header to the next.
pub ghost struct ChainModel {
    /// The double hash of the last accepted header, or all zeros.
    pub prev_hash: Seq<u8>,
    /// The timestamp of the last accepted header, or the baseline.
    pub prev_time: Seq<u8>,
    /// The timestamps of the most recent accepted headers, oldest first.
    pub recent_times: Seq<u64>,
}

/// The state before any header: no predecessor, the baseline as the previous
/// time, no recent timestamps.
pub open spec fn initial_model(baseline_time: Seq<u8>) -> ChainModel {
    ChainModel { prev_hash: zero_hash(), prev_time: baseline_time, recent_times: Seq::empty() }
}

/// Processing one header record: the first rule it breaks, in the order
/// length, version, link, difficulty encoding, proof of work, monotonic time,
/// drift from the median; or the state once it is accepted.
pub open spec fn step(m: ChainModel, rec: Seq<u8>) -> Result<ChainModel, ChainError> {
    let time = magnitude(time_field(rec));
    if rec.len() != 80 {
        Err(ChainError::MalformedHeader)
    } else if version_field(rec) != accepted_version() {
        Err(ChainError::UnsupportedVersion)
    } else if prev_hash_field(rec) != m.prev_hash {
        Err(ChainError::BrokenChain)
    } else if !exponent_in_range(bits_field(rec)) {
        Err(ChainError::InvalidDifficultyEncoding)
    } else if magnitude(double_hash(rec)) > magnitude(target_of(bits_field(rec))) {
        Err(ChainError::InsufficientWork)
    } else if magnitude(m.prev_time) > time {
        Err(ChainError::TimeNotMonotonic)
    } else if m.recent_times.len() == WINDOW_CAPACITY && time > twice_median(m.recent_times) {
        Err(ChainError::ExcessiveTimeDrift)
    } else {
        Ok(
            ChainModel {
                prev_hash: double_hash(rec),
                prev_time: time_field(rec),
                recent_times: window_push(m.recent_times, time as u64),
            },
        )
    }
}

/// Processing the records of `recs` in order from `m`: the first error, or
/// the state after the last one.
pub open spec fn run(m: ChainModel, recs: Seq<Seq<u8>>) -> Result<ChainModel, ChainError>
    decreases recs.len(),
{
    if recs.len() == 0 {
        Ok(m)
    } else {
        match run(m, recs.drop_last()) {
            Ok(before) => step(before, recs.last()),
            Err(e) => Err(e),
        }
    }
}

/// Once a prefix of the records fails, the whole run fails with the same
/// error: no later record is looked at.
pub proof fn lemma_run_error_persists(m: ChainModel, recs: Seq<Seq<u8>>, k: int)
    requires
        0 <= k <= recs.len(),
        run(m, recs.subrange(0, k)) is Err,
    ensures
        run(m, recs) == run(m, recs.subrange(0, k)),
    decreases recs.len(),
{
    if k == recs.len() {
        assert(recs.subrange(0, k) =~= recs);
    } else {
        assert(recs.drop_last().subrange(0, k) =~= recs.subrange(0, k));
        lemma_run_error_persists(m, recs.drop_last(), k);
    }
}

/// A timestamp window below capacity never fails a header for drift.
pub proof fn lemma_short_window_never_drifts(m: ChainModel, rec: Seq<u8>)
    requires
        m.recent_times.len() < WINDOW_CAPACITY,
    ensures
        step(m, rec) != Err::<ChainModel, ChainError>(ChainError::ExcessiveTimeDrift),
{
}

/// A run whose first record is a well-formed header of the accepted version
/// that does not link to the all-zero hash fails with `BrokenChain`, whatever
/// follows it.
pub proof fn lemma_first_header_links_to_zero(baseline_time: Seq<u8>, recs: Seq<Seq<u8>>)
    requires
        recs.len() >= 1,
        recs[0].len() == 80,
        version_field(recs[0]) == accepted_version(),
        prev_hash_field(recs[0]) != zero_hash(),
    ensures
        run(initial_model(baseline_time), recs) == Err::<ChainModel, ChainError>(
            ChainError::BrokenChain,
        ),
{
    let m = initial_model(baseline_time);
    let first = recs.subrange(0, 1);
    assert(first.drop_last() =~= Seq::<Seq<u8>>::empty());
    assert(first.last() == recs[0]);
    assert(run(m, Seq::<Seq<u8>>::empty()) == Ok::<ChainModel, ChainError>(m));
    assert(run(m, first) == step(m, recs[0]));
    lemma_run_error_persists(m, recs, 1);
}

/// Two headers of the accepted version, the first linking to the all-zero
/// hash and the second to the double hash of the first, each meeting the
/// target of its own difficulty, with timestamps that do not go back from the
/// baseline: the run succeeds and ends on the double hash of the second.
pub proof fn lemma_two_linked_headers_commit(baseline_time: Seq<u8>, h1: Seq<u8>, h2: Seq<u8>)
    requires
        baseline_time.len() == 4,
        h1.len() == 80,
        h2.len() == 80,
        version_field(h1) == accepted_version(),
        version_field(h2) == accepted_version(),
        prev_hash_field(h1) == zero_hash(),
        prev_hash_field(h2) == double_hash(h1),
        exponent_in_range(bits_field(h1)),
        exponent_in_range(bits_field(h2)),
        magnitude(double_hash(h1)) <= magnitude(target_of(bits_field(h1))),
        magnitude(double_hash(h2)) <= magnitude(target_of(bits_field(h2))),
        magnitude(baseline_time) <= magnitude(time_field(h1)),
        magnitude(time_field(h1)) <= magnitude(time_field(h2)),
    ensures
        run(initial_model(baseline_time), seq![h1, h2]) is Ok,
        run(initial_model(baseline_time), seq![h1, h2])->Ok_0.prev_hash == double_hash(h2),
{
    let m = initial_model(baseline_time);
    let recs = seq![h1, h2];
    assert(recs.drop_last() =~= seq![h1]);
    assert(seq![h1].drop_last() =~= Seq::<Seq<u8>>::empty());
    assert(run(m, Seq::<Seq<u8>>::empty()) == Ok::<ChainModel, ChainError>(m));
    assert(run(m, seq![h1]) == step(m, h1));
    let m1 = step(m, h1)->Ok_0;
    assert(m1.recent_times.len() == 1);
    assert(run(m, recs) == step(m1, h2));
}

/// The state a validation run carries: the previous hash, the previous
/// timestamp and the window of recent timestamps.
pub struct ChainState {
    prev_hash: [u8; 32],
    prev_time: [u8; 4],
    recent_times: TimeWindow,
}

impl View for ChainState {
    type V = ChainModel;

    closed spec fn view(&self) -> ChainModel {
        ChainModel {
            prev_hash: self.prev_hash@,
            prev_time: self.prev_time@,
            recent_times: self.recent_times@,
        }
    }
}

impl ChainState {
    /// The window of recent timestamps is never over capacity, and the
    /// carried hash and time have their fixed lengths.
    pub open spec fn wf(&self) -> bool {
        &&& self@.recent_times.len() <= WINDOW_CAPACITY
        &&& self@.prev_hash.len() == 32
        &&& self@.prev_time.len() == 4
    }

    /// The state at the start of a run, with `baseline_time` (four
    /// little-endian bytes) as the earliest acceptable timestamp.
    pub fn new(baseline_time: [u8; 4]) -> (r: ChainState)
        ensures
            r.wf(),
            r@ == initial_model(baseline_time@),
    {
        let state = ChainState {
            prev_hash: [0u8; 32],
            prev_time: baseline_time,
            recent_times: TimeWindow::new(),
        };
        assert(state@.prev_hash =~= zero_hash());
        state
    }

    /// The state at the start of a run whose baseline is 3 January 2009
    /// (Unix time 0x495f5340), the day the chain began.
    pub fn genesis() -> (r: ChainState)
        ensures
            r.wf(),
            r@ == initial_model(seq![0x40u8, 0x53u8, 0x5fu8, 0x49u8]),
    {
        let r = ChainState::new([0x40u8, 0x53, 0x5f, 0x49]);
        assert(r@.prev_time =~= seq![0x40u8, 0x53u8, 0x5fu8, 0x49u8]);
        r
    }

    /// Holds one header record to every rule. On success the state moves past
    /// it and its double hash is returned; on failure the state is left as it
    /// was.
    pub fn process_header(&mut self, record: &[u8]) -> (r: Result<[u8; 32], ChainError>)
        requires
            old(self).wf(),
        ensures
            final(self).wf(),
            match step(old(self)@, record@) {
                Ok(next) => r is Ok && r->Ok_0@ == next.prev_hash && final(self)@ == next,
                Err(e) => r == Err::<[u8; 32], ChainError>(e) && final(self)@ == old(self)@,
            },
    {
        let header = match BlockHeader::parse(record) {
            Ok(h) => h,
            Err(e) => return Err(e),
        };
        proof {
            assert(accepted_version() =~= seq![1u8, 0u8, 0u8, 0u8]);
        }
        if let Err(e) = assert_eq_32([1u8, 0, 0, 0], &header.version) {
            assert([1u8, 0, 0, 0]@ =~= accepted_version());
            return Err(e);
        }
        assert([1u8, 0, 0, 0]@ =~= accepted_version());
        if let Err(e) = assert_eq_256(self.prev_hash, &header.prev_hash) {
            return Err(e);
        }
        let hash = double_sha256(record);
        let target = match bits_to_target(&header.bits) {
            Ok(t) => t,
            Err(e) => return Err(e),
        };
        if let Err(e) = assert_le_256(&hash, target) {
            return Err(e);
        }
        if let Err(e) = assert_le_32(self.prev_time, &header.time) {
            return Err(e);
        }
        let time = u32_from_le(&header.time) as u64;
        if self.recent_times.is_full() {
            match self.recent_times.median() {
                Some(twice) => {
                    if time as u128 > twice {
                        return Err(ChainError::ExcessiveTimeDrift);
                    }
                },
                None => {},
            }
        }
        self.prev_hash = hash;
        self.prev_time = header.time;
        self.recent_times.push(time);
        Ok(hash)
    }
}

/// The steps of a run over a sequence of header records.
#[derive(Debug, Clone, Copy)]
pub enum RunPhase {
    /// This many records are still to come.
    Awaiting(u32),
    /// Every record was accepted; this is the double hash of the last one.
    Committed([u8; 32]),
    /// A record broke this rule; the run is over with no commitment.
    Failed(ChainError),
}

/// A validation run fed one record at a time, so that the sequence never has
/// to be held whole.
pub struct ChainValidator {
    phase: RunPhase,
    state: ChainState,
}

impl ChainValidator {
    /// The phase the run is in.
    pub closed spec fn spec_phase(&self) -> RunPhase {
        self.phase
    }

    /// The state carried to the next record.
    pub closed spec fn model(&self) -> ChainModel {
        self.state@
    }

    /// The carried state is well formed.
    pub closed spec fn wf(&self) -> bool {
        self.state.wf()
    }

    /// A run that expects `count` records, with `baseline_time` as the
    /// earliest acceptable timestamp.
    pub fn new(count: u32, baseline_time: [u8; 4]) -> (r: ChainValidator)
        ensures
            r.wf(),
            r.spec_phase() == RunPhase::Awaiting(count),
            r.model() == initial_model(baseline_time@),
    {
        ChainValidator { phase: RunPhase::Awaiting(count), state: ChainState::new(baseline_time) }
    }

    /// The phase the run is in.
    pub fn phase(&self) -> (r: RunPhase)
        ensures
            r == self.spec_phase(),
    {
        self.phase
    }

    /// Holds the next record to every rule. The run fails on the first
    /// broken rule, and commits to the double hash of the last record once
    /// the expected count has been accepted.
    pub fn feed(&mut self, record: &[u8])
        requires
            old(self).wf(),
            old(self).spec_phase() is Awaiting,
            old(self).spec_phase()->Awaiting_0 > 0,
        ensures
            final(self).wf(),
            match step(old(self).model(), record@) {
                Ok(next) => {
                    &&& final(self).model() == next
                    &&& if old(self).spec_phase()->Awaiting_0 == 1 {
                        final(self).spec_phase() is Committed && final(self).spec_phase()->Committed_0@
                            == next.prev_hash
                    } else {
                        final(self).spec_phase() == RunPhase::Awaiting(
                            (old(self).spec_phase()->Awaiting_0 - 1) as u32,
                        )
                    }
                },
                Err(e) => {
                    &&& final(self).model() == old(self).model()
                    &&& final(self).spec_phase() == RunPhase::Failed(e)
                },
            },
    {
        let remaining = match self.phase {
            RunPhase::Awaiting(n) => n,
            _ => 0,
        };
        match self.state.process_header(record) {
            Ok(hash) => {
                if remaining == 1 {
                    self.phase = RunPhase::Committed(hash);
                } else {
                    self.phase = RunPhase::Awaiting(remaining - 1);
                }
            },
            Err(e) => {
                self.phase = RunPhase::Failed(e);
            },
        }
    }
}

/// Validates a whole sequence of header records from the state given by
/// `baseline_time`. Returns the commitment, the double hash of the last
/// record, or `None` for an empty sequence; or the first broken rule.
pub fn validate_chain(headers: &Vec<Vec<u8>>, baseline_time: [u8; 4]) -> (r: Result<
    Option<[u8; 32]>,
    ChainError,
>)
    ensures
        match run(initial_model(baseline_time@), headers.deep_view()) {
            Ok(m) => r is Ok && if headers@.len() == 0 {
                r->Ok_0 is None
            } else {
                r->Ok_0 is Some && r->Ok_0->Some_0@ == m.prev_hash
            },
            Err(e) => r == Err::<Option<[u8; 32]>, ChainError>(e),
        },
{
    let mut state = ChainState::new(baseline_time);
    let mut last: Option<[u8; 32]> = None;
    let mut i: usize = 0;
    while i < headers.len()
        invariant
            i <= headers@.len(),
            state.wf(),
            run(initial_model(baseline_time@), headers.deep_view().subrange(0, i as int)) == Ok::<
                ChainModel,
                ChainError,
            >(state@),
            i == 0 ==> last is None,
            i > 0 ==> last is Some && last->Some_0@ == state@.prev_hash,
        decreases headers@.len() - i,
    {
        let ghost before = state@;
        proof {
            let prefix = headers.deep_view().subrange(0, i + 1);
            assert(prefix.drop_last() =~= headers.deep_view().subrange(0, i as int));
            assert(prefix.last() == headers[i as int]@);
        }
        match state.process_header(headers[i].as_slice()) {
            Ok(hash) => {
                last = Some(hash);
            },
            Err(e) => {
                proof {
                    lemma_run_error_persists(
                        initial_model(baseline_time@),
                        headers.deep_view(),
                        i + 1,
                    );
                }
                return Err(e);
            },
        }
        i = i + 1;
    }
    assert(headers.deep_view().subrange(0, i as int) =~= headers.deep_view());
    Ok(last)
}

} // verus!
