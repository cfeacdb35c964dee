//! The chunk worker: one contiguous range of segment indices, walked in
//! rising order.
//!
//! The worker does no I/O. It names the next thing to do ([`Action`]), the
//! caller does it and reports what happened ([`Event`]). For each index the
//! worker first asks whether the segment is already stored; only when it is
//! not does it ask for a fetch, and after a failed fetch it asks again with
//! the next ring position, at most once per position of the ring.

use vstd::prelude::*;

pub mod laws;

verus! {

/// What the worker is waiting for.
#[derive(Clone, Copy, Debug, PartialEq, Eq)]
pub enum Phase {
    /// The answer to "is this index already stored?".
    Probing,
    /// The result of a fetch.
    Fetching,
}

/// What the caller reports back.
#[derive(Clone, Copy, Debug, PartialEq, Eq)]
pub enum Event {
    /// The probed index is already stored.
    Present,
    /// The probed index is not stored.
    Absent,
    /// The fetch succeeded and its bytes were stored.
    Fetched,
    /// The fetch failed, for whatever reason.
    Failed,
}

/// The ring position after `position`.
pub open spec fn next_position(position: nat, ring: nat) -> nat {
    if position + 1 >= ring {
        0
    } else {
        position + 1
    }
}

/// The state of a chunk worker, over unbounded numbers.
pub struct WorkerModel {
    /// The number of the chunk.
    pub chunk: nat,
    /// The first index of the chunk.
    pub first: nat,
    /// One past the last index of the chunk.
    pub end: nat,
    /// The size of the format ring.
    pub ring: nat,
    /// The index being worked on; `end` when the chunk is exhausted.
    pub index: nat,
    /// The ring position expected for `index`.
    pub cursor: nat,
    /// Fetches of `index` that have failed so far.
    pub failures: nat,
    /// What the worker is waiting for.
    pub phase: Phase,
    /// Segments this worker fetched itself.
    pub fetched: nat,
    /// The highest index found stored or fetched.
    pub highest: Option<nat>,
}

/// What a finished worker hands to the scheduler, over unbounded numbers.
pub struct ReportModel {
    /// The number of the chunk that was walked.
    pub chunk: nat,
    /// The ring position expected for the index after the chunk.
    pub cursor: nat,
    /// How many segments the worker fetched itself.
    pub fetched: nat,
    /// The highest index that the worker found stored or fetched.
    pub highest: Option<nat>,
}

impl ReportModel {
    /// The worker fetched at least one segment itself. Segments that were
    /// stored already do not count.
    pub open spec fn progressed(self) -> bool {
        self.fetched > 0
    }
}

impl WorkerModel {
    /// A worker that has not started on its chunk.
    pub open spec fn start(chunk: nat, size: nat, hint: Option<nat>, ring: nat) -> WorkerModel {
        WorkerModel {
            chunk,
            first: chunk * size,
            end: chunk * size + size,
            ring,
            index: chunk * size,
            cursor: match hint {
                Some(position) => position,
                None => 0,
            },
            failures: 0,
            phase: Phase::Probing,
            fetched: 0,
            highest: None,
        }
    }

    pub open spec fn wf(self) -> bool {
        &&& self.ring > 0
        &&& self.first <= self.index <= self.end
        &&& self.cursor < self.ring
        &&& self.failures < self.ring
        &&& self.fetched <= self.index - self.first
        &&& (self.phase == Phase::Probing ==> self.failures == 0)
        &&& (self.done() ==> self.phase == Phase::Probing)
        &&& (self.fetched > 0 ==> self.highest is Some)
        &&& (self.highest matches Some(h) ==> self.first <= h < self.index)
    }

    /// The chunk is exhausted.
    pub open spec fn done(self) -> bool {
        self.index >= self.end
    }

    pub open spec fn report(self) -> ReportModel {
        ReportModel {
            chunk: self.chunk,
            cursor: self.cursor,
            fetched: self.fetched,
            highest: self.highest,
        }
    }

    /// `event` answers what the worker is waiting for.
    pub open spec fn accepts(self, event: Event) -> bool {
        !self.done() && match self.phase {
            Phase::Probing => event is Present || event is Absent,
            Phase::Fetching => event is Fetched || event is Failed,
        }
    }

    /// The index is settled, with or without a segment: on to the next one.
    pub open spec fn advance(self, fetched: nat, highest: Option<nat>) -> WorkerModel {
        WorkerModel {
            index: self.index + 1,
            cursor: next_position(self.cursor, self.ring),
            failures: 0,
            phase: Phase::Probing,
            fetched,
            highest,
            ..self
        }
    }

    /// The state after an accepted `event`.
    pub open spec fn step(self, event: Event) -> WorkerModel {
        match event {
            Event::Present => self.advance(self.fetched, Some(self.index)),
            Event::Absent => WorkerModel { phase: Phase::Fetching, ..self },
            Event::Fetched => self.advance(self.fetched + 1, Some(self.index)),
            Event::Failed => if self.failures + 1 >= self.ring {
                self.advance(self.fetched, self.highest)
            } else {
                WorkerModel {
                    cursor: next_position(self.cursor, self.ring),
                    failures: self.failures + 1,
                    ..self
                }
            },
        }
    }

    /// The state after `event`, which is ignored unless it is accepted.
    pub open spec fn deliver(self, event: Event) -> WorkerModel {
        if self.accepts(event) {
            self.step(event)
        } else {
            self
        }
    }

    /// The state after the events of `trace`, delivered in order.
    pub open spec fn run(self, trace: Seq<Event>) -> WorkerModel
        decreases trace.len(),
    {
        if trace.len() == 0 {
            self
        } else {
            self.run(trace.drop_last()).deliver(trace.last())
        }
    }

    /// The last event of `trace` was accepted, on index `i`.
    pub open spec fn last_settles(self, trace: Seq<Event>, i: nat) -> bool
        recommends
            trace.len() > 0,
    {
        let before = self.run(trace.drop_last());
        before.accepts(trace.last()) && before.index == i
    }

    /// How many fetches of index `i` were made during `trace`.
    pub open spec fn fetch_attempts(self, trace: Seq<Event>, i: nat) -> nat
        decreases trace.len(),
    {
        if trace.len() == 0 {
            0
        } else {
            let earlier = self.fetch_attempts(trace.drop_last(), i);
            if self.last_settles(trace, i) && (trace.last() is Fetched || trace.last() is Failed) {
                earlier + 1
            } else {
                earlier
            }
        }
    }

    /// How many probes of index `i` were answered "not stored" during `trace`.
    pub open spec fn absent_answers(self, trace: Seq<Event>, i: nat) -> nat
        decreases trace.len(),
    {
        if trace.len() == 0 {
            0
        } else {
            let earlier = self.absent_answers(trace.drop_last(), i);
            if self.last_settles(trace, i) && trace.last() is Absent {
                earlier + 1
            } else {
                earlier
            }
        }
    }

    /// How many probes of index `i` were answered "stored" during `trace`.
    pub open spec fn stored_answers(self, trace: Seq<Event>, i: nat) -> nat
        decreases trace.len(),
    {
        if trace.len() == 0 {
            0
        } else {
            let earlier = self.stored_answers(trace.drop_last(), i);
            if self.last_settles(trace, i) && trace.last() is Present {
                earlier + 1
            } else {
                earlier
            }
        }
    }

    /// How many events of `trace` were accepted.
    pub open spec fn accepted_events(self, trace: Seq<Event>) -> nat
        decreases trace.len(),
    {
        if trace.len() == 0 {
            0
        } else {
            let earlier = self.accepted_events(trace.drop_last());
            if self.run(trace.drop_last()).accepts(trace.last()) {
                earlier + 1
            } else {
                earlier
            }
        }
    }

    /// How many events the worker can accept at most before its chunk is
    /// exhausted: one probe and a fetch for each ring position, for every
    /// index that is left, less what has been spent on the index at hand.
    pub open spec fn steps_left(self) -> int {
        (self.end - self.index) * (self.ring + 1) - self.failures - if self.phase
            == Phase::Fetching {
            1int
        } else {
            0int
        }
    }

    /// The ring position of the last successful fetch during `trace`.
    pub open spec fn last_fetch_position(self, trace: Seq<Event>) -> Option<nat>
        decreases trace.len(),
    {
        if trace.len() == 0 {
            None
        } else {
            let before = self.run(trace.drop_last());
            if before.accepts(trace.last()) && trace.last() is Fetched {
                Some(before.cursor)
            } else {
                self.last_fetch_position(trace.drop_last())
            }
        }
    }

    /// The ring position that the cursor stood at when an index was last
    /// settled with a segment during `trace`, fetched or found stored.
    pub open spec fn last_success_position(self, trace: Seq<Event>) -> Option<nat>
        decreases trace.len(),
    {
        if trace.len() == 0 {
            None
        } else {
            let before = self.run(trace.drop_last());
            if before.accepts(trace.last()) && (trace.last() is Fetched || trace.last() is Present) {
                Some(before.cursor)
            } else {
                self.last_success_position(trace.drop_last())
            }
        }
    }

    /// How many indices were found stored after the last successful fetch of
    /// `trace`, or in all of it when nothing was fetched.
    pub open spec fn stored_since_fetch(self, trace: Seq<Event>) -> nat
        decreases trace.len(),
    {
        if trace.len() == 0 {
            0
        } else {
            let before = self.run(trace.drop_last());
            let earlier = self.stored_since_fetch(trace.drop_last());
            if !before.accepts(trace.last()) {
                earlier
            } else if trace.last() is Fetched {
                0
            } else if trace.last() is Present {
                earlier + 1
            } else {
                earlier
            }
        }
    }
}

/// An index, or none, as an unbounded number.
pub open spec fn index_model(index: Option<usize>) -> Option<nat> {
    match index {
        Some(i) => Some(i as nat),
        None => None,
    }
}

/// What a finished worker hands to the scheduler.
#[derive(Clone, Copy, Debug, PartialEq, Eq)]
pub struct ChunkReport {
    /// The number of the chunk that was walked.
    pub chunk_index: usize,
    /// The ring position expected for the index after the chunk.
    pub cursor: usize,
    /// How many segments the worker fetched itself.
    pub fetched: usize,
    /// The highest index that the worker found stored or fetched.
    pub highest: Option<usize>,
}

impl View for ChunkReport {
    type V = ReportModel;

    open spec fn view(&self) -> ReportModel {
        ReportModel {
            chunk: self.chunk_index as nat,
            cursor: self.cursor as nat,
            fetched: self.fetched as nat,
            highest: index_model(self.highest),
        }
    }
}

impl ChunkReport {
    /// Whether the worker fetched at least one segment itself. Segments that
    /// were already stored do not count.
    pub fn progressed(&self) -> (progress: bool)
        ensures
            progress == self@.progressed(),
    {
        self.fetched > 0
    }
}

/// What the worker asks its caller to do next.
#[derive(Clone, Copy, Debug, PartialEq, Eq)]
pub enum Action {
    /// Find out whether the segment `index` is already stored, and report
    /// `Present` or `Absent`.
    Probe { index: usize },
    /// Fetch the segment `index` under the format at ring position `position`,
    /// store it if that succeeds, and report `Fetched` or `Failed`.
    Fetch { index: usize, position: usize },
    /// Nothing: the chunk is exhausted.
    Finish { report: ChunkReport },
}

/// A chunk worker.
pub struct ChunkWorker {
    chunk_index: usize,
    first: usize,
    end: usize,
    ring_len: usize,
    index: usize,
    cursor: usize,
    failures: usize,
    phase: Phase,
    fetched: usize,
    highest: Option<usize>,
}

impl View for ChunkWorker {
    type V = WorkerModel;

    closed spec fn view(&self) -> WorkerModel {
        WorkerModel {
            chunk: self.chunk_index as nat,
            first: self.first as nat,
            end: self.end as nat,
            ring: self.ring_len as nat,
            index: self.index as nat,
            cursor: self.cursor as nat,
            failures: self.failures as nat,
            phase: self.phase,
            fetched: self.fetched as nat,
            highest: index_model(self.highest),
        }
    }
}

/// Whether the indices of chunk `chunk_index` can all be written as `usize`.
pub open spec fn chunk_in_reach(chunk_index: nat, chunk_size: nat) -> bool {
    (chunk_index + 1) * chunk_size <= usize::MAX
}

/// Tests whether the indices of chunk `chunk_index` can all be written as
/// `usize`.
pub fn chunk_fits(chunk_index: usize, chunk_size: usize) -> (fits: bool)
    ensures
        fits == chunk_in_reach(chunk_index as nat, chunk_size as nat),
{
    if chunk_size == 0 {
        assert((chunk_index + 1) * 0 == 0);
        return true;
    }
    match chunk_index.checked_add(1) {
        None => {
            assert((chunk_index + 1) * chunk_size >= (chunk_index + 1) * 1) by (nonlinear_arith)
                requires
                    chunk_size >= 1,
            ;
            false
        },
        Some(count) => count.checked_mul(chunk_size).is_some(),
    }
}

impl ChunkWorker {
    #[verifier::type_invariant]
    spec fn inv(&self) -> bool {
        self@.wf()
    }

    /// A worker for chunk `chunk_index` of `chunk_size` indices, which expects
    /// the format at `hint` (position 0 without a hint) for its first index.
    pub fn new(chunk_index: usize, chunk_size: usize, hint: Option<usize>, ring_len: usize) -> (worker:
        ChunkWorker)
        requires
            ring_len > 0,
            chunk_in_reach(chunk_index as nat, chunk_size as nat),
            hint matches Some(position) ==> position < ring_len,
        ensures
            worker@ == WorkerModel::start(
                chunk_index as nat,
                chunk_size as nat,
                index_model(hint),
                ring_len as nat,
            ),
            worker@.wf(),
    {
        assert((chunk_index + 1) * chunk_size == chunk_index * chunk_size + chunk_size
            && chunk_index * chunk_size >= 0) by (nonlinear_arith);
        let first = chunk_index * chunk_size;
        let cursor = match hint {
            Some(position) => position,
            None => 0,
        };
        ChunkWorker {
            chunk_index,
            first,
            end: first + chunk_size,
            ring_len,
            index: first,
            cursor,
            failures: 0,
            phase: Phase::Probing,
            fetched: 0,
            highest: None,
        }
    }

    /// Whether the chunk is exhausted.
    pub fn is_done(&self) -> (done: bool)
        ensures
            done == self@.done(),
    {
        self.index >= self.end
    }

    /// What the worker has to hand to the scheduler as things stand.
    pub fn report(&self) -> (report: ChunkReport)
        ensures
            report@ == self@.report(),
    {
        ChunkReport {
            chunk_index: self.chunk_index,
            cursor: self.cursor,
            fetched: self.fetched,
            highest: self.highest,
        }
    }

    /// What the caller is to do next.
    pub fn action(&self) -> (action: Action)
        ensures
            self@.wf(),
            match action {
                Action::Probe { index } => !self@.done() && self@.phase == Phase::Probing && index
                    == self@.index,
                Action::Fetch { index, position } => !self@.done() && self@.phase
                    == Phase::Fetching && index == self@.index && position == self@.cursor,
                Action::Finish { report } => self@.done() && report@ == self@.report(),
            },
    {
        proof {
            use_type_invariant(self);
        }
        if self.index >= self.end {
            Action::Finish { report: self.report() }
        } else {
            match self.phase {
                Phase::Probing => Action::Probe { index: self.index },
                Phase::Fetching => Action::Fetch { index: self.index, position: self.cursor },
            }
        }
    }

    /// Takes in what the caller reports. An event that does not answer the
    /// pending action is ignored.
    pub fn deliver(&mut self, event: Event) -> (accepted: bool)
        ensures
            accepted == old(self)@.accepts(event),
            final(self)@ == old(self)@.deliver(event),
            final(self)@.wf(),
    {
        proof {
            use_type_invariant(&*self);
        }
        if self.index >= self.end {
            return false;
        }
        let next_cursor = if self.cursor + 1 >= self.ring_len {
            0
        } else {
            self.cursor + 1
        };
        match (self.phase, event) {
            (Phase::Probing, Event::Present) => {
                *self = ChunkWorker {
                    index: self.index + 1,
                    cursor: next_cursor,
                    failures: 0,
                    phase: Phase::Probing,
                    highest: Some(self.index),
                    ..*self
                };
                true
            },
            (Phase::Probing, Event::Absent) => {
                *self = ChunkWorker { phase: Phase::Fetching, ..*self };
                true
            },
            (Phase::Fetching, Event::Fetched) => {
                *self = ChunkWorker {
                    index: self.index + 1,
                    cursor: next_cursor,
                    failures: 0,
                    phase: Phase::Probing,
                    fetched: self.fetched + 1,
                    highest: Some(self.index),
                    ..*self
                };
                true
            },
            (Phase::Fetching, Event::Failed) => {
                if self.failures + 1 >= self.ring_len {
                    *self = ChunkWorker {
                        index: self.index + 1,
                        cursor: next_cursor,
                        failures: 0,
                        phase: Phase::Probing,
                        ..*self
                    };
                } else {
                    *self = ChunkWorker {
                        cursor: next_cursor,
                        failures: self.failures + 1,
                        ..*self
                    };
                }
                true
            },
            _ => false,
        }
    }
}

} // verus!
