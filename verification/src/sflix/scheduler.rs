//! The chunk scheduler: keeps a pool of chunk workers going over rising,
//! non-overlapping chunks, and decides from a run of chunks that brought
//! nothing new that the stream has ended.
//!
//! The scheduler starts no worker itself. It says which chunk to start next
//! and with which format hint ([`Dispatch`]); the caller runs the workers and
//! hands each one's report back, in whatever order they finish.
//!
//! Each worker owns a whole chunk, and a chunk that brings nothing new is
//! replaced by the next one. The simpler scheme, a flat window of single
//! probes that is started afresh as a whole whenever one of them gets stuck,
//! repeats the work of the whole window on every failure; here a failure
//! costs one chunk at most.
//!
//! That the stream has ended is only ever inferred, from a run of chunks
//! without a new segment. How long that run must be is for the caller to
//! say: a short one may end a stream with a gap too early, a long one asks
//! the remote side for more segments that are not there.

use vstd::prelude::*;
use crate::sflix::worker::{chunk_fits, chunk_in_reach, index_model, ChunkReport, ReportModel};

verus! {

/// An order to start a worker, over unbounded numbers.
pub struct DispatchModel {
    pub chunk: nat,
    pub hint: Option<nat>,
}

/// The state of the scheduler, over unbounded numbers.
pub struct SchedulerModel {
    /// How many workers the pool holds while the scheduler is dispatching.
    pub width: nat,
    /// How many indices a chunk has.
    pub chunk_size: nat,
    /// The size of the format ring.
    pub ring: nat,
    /// How many chunks in a row may bring nothing new before the stream is
    /// taken to have ended.
    pub threshold: nat,
    /// The chunk that the next worker gets.
    pub next_chunk: nat,
    /// How many chunks in a row have brought nothing new, not counting the
    /// one that made the scheduler stop.
    pub empty_run: nat,
    /// The cursor of the last chunk that brought something new.
    pub hint: Option<nat>,
    /// The chunks of the workers that have been started and have not reported.
    pub in_flight: Seq<nat>,
    /// No further worker will be started.
    pub stopped: bool,
}

/// Whether `index` belongs to chunk `chunk`.
pub open spec fn chunk_covers(chunk: nat, chunk_size: nat, index: nat) -> bool {
    chunk * chunk_size <= index < chunk * chunk_size + chunk_size
}

impl SchedulerModel {
    /// The scheduler with its first pool: chunks `0..=parallelism`.
    pub open spec fn start(parallelism: nat, chunk_size: nat, ring: nat, threshold: nat) -> SchedulerModel {
        SchedulerModel {
            width: parallelism + 1,
            chunk_size,
            ring,
            threshold,
            next_chunk: parallelism + 1,
            empty_run: 0,
            hint: None,
            in_flight: Seq::new(parallelism + 1, |k: int| k as nat),
            stopped: false,
        }
    }

    pub open spec fn wf(self) -> bool {
        &&& self.ring > 0
        &&& self.width > 0
        &&& self.in_flight.no_duplicates()
        &&& forall|k: int|
            0 <= k < self.in_flight.len() ==> #[trigger] self.in_flight[k] < self.next_chunk
        &&& forall|k: int|
            0 <= k < self.in_flight.len() ==> chunk_in_reach(
                #[trigger] self.in_flight[k],
                self.chunk_size,
            )
        &&& self.next_chunk <= usize::MAX
        &&& self.empty_run <= self.threshold
        &&& (self.hint matches Some(position) ==> position < self.ring)
        &&& self.in_flight.len() <= self.width
        &&& (!self.stopped ==> self.in_flight.len() == self.width)
    }

    /// Every worker has reported and none will be started: time to put the
    /// segments together.
    pub open spec fn finished(self) -> bool {
        self.stopped && self.in_flight.len() == 0
    }

    /// `report` comes from a worker that is in flight and names a ring position.
    pub open spec fn accepts(self, report: ReportModel) -> bool {
        self.in_flight.contains(report.chunk) && report.cursor < self.ring
    }

    /// The next chunk can be handed out: its indices, and the number of the
    /// chunk after it, can be written as `usize`.
    pub open spec fn can_dispatch(self) -> bool {
        self.next_chunk < usize::MAX && chunk_in_reach(self.next_chunk, self.chunk_size)
    }

    /// The state and the order after an accepted `report`.
    pub open spec fn complete(self, report: ReportModel) -> (SchedulerModel, Option<DispatchModel>) {
        let rest = self.in_flight.remove(self.in_flight.index_of(report.chunk));
        if self.stopped {
            (SchedulerModel { in_flight: rest, ..self }, None)
        } else if !report.progressed() && self.empty_run >= self.threshold {
            (SchedulerModel { in_flight: rest, stopped: true, ..self }, None)
        } else {
            let empty_run = if report.progressed() {
                0
            } else {
                self.empty_run + 1
            };
            let hint = if report.progressed() {
                Some(report.cursor)
            } else {
                self.hint
            };
            if self.can_dispatch() {
                (
                    SchedulerModel {
                        next_chunk: self.next_chunk + 1,
                        empty_run,
                        hint,
                        in_flight: rest.push(self.next_chunk),
                        ..self
                    },
                    Some(DispatchModel { chunk: self.next_chunk, hint }),
                )
            } else {
                (SchedulerModel { empty_run, hint, in_flight: rest, stopped: true, ..self }, None)
            }
        }
    }

    /// The state after `report`, which is ignored unless it is accepted.
    pub open spec fn deliver(self, report: ReportModel) -> SchedulerModel {
        if self.accepts(report) {
            self.complete(report).0
        } else {
            self
        }
    }

    /// The state after the reports of `trace`, delivered in order.
    pub open spec fn run(self, trace: Seq<ReportModel>) -> SchedulerModel
        decreases trace.len(),
    {
        if trace.len() == 0 {
            self
        } else {
            self.run(trace.drop_last()).deliver(trace.last())
        }
    }
}

/// An order to start a worker.
#[derive(Clone, Copy, Debug, PartialEq, Eq)]
pub struct Dispatch {
    /// The chunk to walk.
    pub chunk_index: usize,
    /// The ring position to expect for the chunk's first index, where one is
    /// known.
    pub hint: Option<usize>,
}

impl View for Dispatch {
    type V = DispatchModel;

    open spec fn view(&self) -> DispatchModel {
        DispatchModel { chunk: self.chunk_index as nat, hint: index_model(self.hint) }
    }
}

/// An order, or none, as its model.
pub open spec fn dispatch_model(dispatch: Option<Dispatch>) -> Option<DispatchModel> {
    match dispatch {
        Some(d) => Some(d@),
        None => None,
    }
}

/// Why the scheduler did not take a report.
#[derive(Clone, Copy, Debug, PartialEq, Eq)]
pub enum ScheduleError {
    /// No worker is in flight for the chunk that the report names.
    UnknownChunk,
    /// The cursor that the report names is no position of the ring.
    CursorOutOfRing,
}

/// The chunk scheduler.
pub struct Scheduler {
    width: usize,
    chunk_size: usize,
    ring_len: usize,
    threshold: usize,
    next_chunk: usize,
    empty_run: usize,
    hint: Option<usize>,
    in_flight: Vec<usize>,
    stopped: bool,
}

impl View for Scheduler {
    type V = SchedulerModel;

    closed spec fn view(&self) -> SchedulerModel {
        SchedulerModel {
            width: self.width as nat,
            chunk_size: self.chunk_size as nat,
            ring: self.ring_len as nat,
            threshold: self.threshold as nat,
            next_chunk: self.next_chunk as nat,
            empty_run: self.empty_run as nat,
            hint: index_model(self.hint),
            in_flight: self.in_flight@.map_values(|c: usize| c as nat),
            stopped: self.stopped,
        }
    }
}

/// The position of `chunk` in `chunks`.
fn position_of(chunks: &Vec<usize>, chunk: usize) -> (found: Option<usize>)
    ensures
        match found {
            Some(k) => k < chunks.len() && chunks[k as int] == chunk,
            None => forall|j: int| 0 <= j < chunks.len() ==> chunks[j] != chunk,
        },
{
    let mut k: usize = 0;
    while k < chunks.len()
        invariant
            k <= chunks.len(),
            forall|j: int| 0 <= j < k ==> chunks[j] != chunk,
        decreases chunks.len() - k,
    {
        if chunks[k] == chunk {
            return Some(k);
        }
        k += 1;
    }
    None
}

/// A copy of `chunks` without the entry at `k`.
fn without(chunks: &Vec<usize>, k: usize) -> (rest: Vec<usize>)
    requires
        k < chunks.len(),
    ensures
        rest@ == chunks@.remove(k as int),
{
    let mut rest: Vec<usize> = Vec::new();
    let mut j: usize = 0;
    while j < chunks.len()
        invariant
            j <= chunks.len(),
            k < chunks.len(),
            rest@ == if j <= k {
                chunks@.subrange(0, j as int)
            } else {
                chunks@.remove(k as int).subrange(0, j - 1)
            },
        decreases chunks.len() - j,
    {
        if j != k {
            rest.push(chunks[j]);
        }
        j += 1;
    }
    rest
}

impl Scheduler {
    #[verifier::type_invariant]
    spec fn inv(&self) -> bool {
        self@.wf()
    }

    /// The tolerance used where the caller names none: as many empty chunks
    /// in a row as a chunk has indices.
    pub fn default_threshold(chunk_size: usize) -> (threshold: usize)
        ensures
            threshold == chunk_size,
    {
        chunk_size
    }

    /// Sets the scheduler up and orders the first pool: one worker for each
    /// of the chunks `0..=parallelism`, none with a hint.
    pub fn start(parallelism: usize, chunk_size: usize, ring_len: usize, threshold: usize) -> (started: (
        Scheduler,
        Vec<Dispatch>,
    ))
        requires
            ring_len > 0,
            parallelism < usize::MAX,
            chunk_in_reach(parallelism as nat, chunk_size as nat),
        ensures
            started.0@ == SchedulerModel::start(
                parallelism as nat,
                chunk_size as nat,
                ring_len as nat,
                threshold as nat,
            ),
            started.0@.wf(),
            started.1@.len() == parallelism + 1,
            forall|k: int|
                0 <= k <= parallelism ==> (#[trigger] started.1@[k])@ == (DispatchModel {
                    chunk: k as nat,
                    hint: None,
                }) && chunk_in_reach(k as nat, chunk_size as nat),
    {
        assert forall|k: int| 0 <= k <= parallelism implies #[trigger] chunk_in_reach(
            k as nat,
            chunk_size as nat,
        ) by {
            lemma_earlier_chunk_in_reach(k as nat, parallelism as nat, chunk_size as nat);
        }
        let mut in_flight: Vec<usize> = Vec::new();
        let mut orders: Vec<Dispatch> = Vec::new();
        let mut chunk: usize = 0;
        while chunk <= parallelism
            invariant
                chunk <= parallelism + 1,
                parallelism < usize::MAX,
                in_flight@.len() == chunk,
                orders@.len() == chunk,
                forall|k: int| 0 <= k < chunk ==> #[trigger] in_flight@[k] == k,
                forall|k: int|
                    0 <= k < chunk ==> (#[trigger] orders@[k])@ == (DispatchModel {
                        chunk: k as nat,
                        hint: None,
                    }),
            decreases parallelism + 1 - chunk,
        {
            in_flight.push(chunk);
            orders.push(Dispatch { chunk_index: chunk, hint: None });
            chunk += 1;
        }
        proof {
            let model = SchedulerModel::start(
                parallelism as nat,
                chunk_size as nat,
                ring_len as nat,
                threshold as nat,
            );
            assert(in_flight@.map_values(|c: usize| c as nat) =~= model.in_flight);
            lemma_start_wf(parallelism as nat, chunk_size as nat, ring_len as nat, threshold as nat);
        }
        let scheduler = Scheduler {
            width: parallelism + 1,
            chunk_size,
            ring_len,
            threshold,
            next_chunk: parallelism + 1,
            empty_run: 0,
            hint: None,
            in_flight,
            stopped: false,
        };
        (scheduler, orders)
    }

    /// Whether every worker has reported and none will be started.
    pub fn is_finished(&self) -> (finished: bool)
        ensures
            finished == self@.finished(),
    {
        self.stopped && self.in_flight.len() == 0
    }

    /// Whether the scheduler has stopped starting workers.
    pub fn is_stopped(&self) -> (stopped: bool)
        ensures
            stopped == self@.stopped,
    {
        self.stopped
    }

    /// How many workers are in flight.
    pub fn in_flight(&self) -> (count: usize)
        ensures
            count == self@.in_flight.len(),
    {
        self.in_flight.len()
    }

    /// Takes in the report of a finished worker and says which worker to
    /// start in its place, if any. A report that names a chunk without a
    /// worker in flight, or a cursor outside the ring, changes nothing.
    pub fn complete(&mut self, report: &ChunkReport) -> (outcome: Result<Option<Dispatch>, ScheduleError>)
        ensures
            final(self)@.wf(),
            match outcome {
                Ok(order) => old(self)@.accepts(report@) && final(self)@ == old(self)@.complete(
                    report@,
                ).0 && dispatch_model(order) == old(self)@.complete(report@).1,
                Err(ScheduleError::UnknownChunk) => !old(self)@.in_flight.contains(report@.chunk)
                    && final(self)@ == old(self)@,
                Err(ScheduleError::CursorOutOfRing) => old(self)@.in_flight.contains(report@.chunk)
                    && report@.cursor >= old(self)@.ring && final(self)@ == old(self)@,
            },
            outcome matches Ok(Some(order)) ==> chunk_in_reach(
                order@.chunk,
                old(self)@.chunk_size,
            ) && (order@.hint matches Some(position) ==> position < old(self)@.ring),
    {
        proof {
            use_type_invariant(&*self);
        }
        let ghost before = self@;
        let found = position_of(&self.in_flight, report.chunk_index);
        let k = match found {
            Some(k) => k,
            None => {
                assert(!before.in_flight.contains(report@.chunk));
                return Err(ScheduleError::UnknownChunk);
            },
        };
        assert(before.in_flight[k as int] == report@.chunk);
        if report.cursor >= self.ring_len {
            return Err(ScheduleError::CursorOutOfRing);
        }
        proof {
            lemma_complete_wf(before, report@);
            let chosen = before.in_flight.index_of(report@.chunk);
            assert(chosen == k);
        }
        let mut rest = without(&self.in_flight, k);
        assert(rest@.map_values(|c: usize| c as nat) =~= before.in_flight.remove(k as int));
        if self.stopped {
            *self = Scheduler { in_flight: rest, ..*self };
            return Ok(None);
        }
        let progressed = report.progressed();
        if !progressed && self.empty_run >= self.threshold {
            *self = Scheduler { in_flight: rest, stopped: true, ..*self };
            return Ok(None);
        }
        let empty_run = if progressed {
            0
        } else {
            self.empty_run + 1
        };
        let hint = if progressed {
            Some(report.cursor)
        } else {
            self.hint
        };
        if self.next_chunk < usize::MAX && chunk_fits(self.next_chunk, self.chunk_size) {
            let chunk = self.next_chunk;
            rest.push(chunk);
            assert(rest@.map_values(|c: usize| c as nat) =~= before.in_flight.remove(k as int).push(
                chunk as nat,
            ));
            *self = Scheduler { next_chunk: chunk + 1, empty_run, hint, in_flight: rest, ..*self };
            Ok(Some(Dispatch { chunk_index: chunk, hint }))
        } else {
            *self = Scheduler { empty_run, hint, in_flight: rest, stopped: true, ..*self };
            Ok(None)
        }
    }
}

/// A chunk's indices can be written as `usize` when those of a later chunk can.
pub proof fn lemma_earlier_chunk_in_reach(earlier: nat, later: nat, chunk_size: nat)
    requires
        earlier <= later,
        chunk_in_reach(later, chunk_size),
    ensures
        chunk_in_reach(earlier, chunk_size),
{
    assert((earlier + 1) * chunk_size <= (later + 1) * chunk_size) by (nonlinear_arith)
        requires
            earlier <= later,
    ;
}

/// The first pool is well-formed.
pub proof fn lemma_start_wf(parallelism: nat, chunk_size: nat, ring: nat, threshold: nat)
    requires
        ring > 0,
        parallelism < usize::MAX,
        chunk_in_reach(parallelism, chunk_size),
    ensures
        SchedulerModel::start(parallelism, chunk_size, ring, threshold).wf(),
{
    let s = SchedulerModel::start(parallelism, chunk_size, ring, threshold);
    assert forall|k: int| 0 <= k < s.in_flight.len() implies chunk_in_reach(
        #[trigger] s.in_flight[k],
        s.chunk_size,
    ) by {
        lemma_earlier_chunk_in_reach(k as nat, parallelism, chunk_size);
    }
}

/// Taking in a report keeps the scheduler well-formed. Every order it gives
/// is one that a worker can be made from: the chunk is new, its indices can
/// be written as `usize`, and the hint is a position of the ring.
pub proof fn lemma_complete_wf(s: SchedulerModel, report: ReportModel)
    requires
        s.wf(),
        s.accepts(report),
    ensures
        s.complete(report).0.wf(),
        s.complete(report).0.width == s.width,
        s.complete(report).0.chunk_size == s.chunk_size,
        s.complete(report).0.ring == s.ring,
        s.complete(report).0.threshold == s.threshold,
        s.stopped ==> s.complete(report).0.stopped,
        s.complete(report).1 matches Some(order) ==> {
            &&& order.chunk == s.next_chunk
            &&& !s.in_flight.contains(order.chunk)
            &&& chunk_in_reach(order.chunk, s.chunk_size)
            &&& (order.hint matches Some(position) ==> position < s.ring)
        },
        s.complete(report).1 is Some <==> !s.complete(report).0.stopped,
{
    let k = s.in_flight.index_of(report.chunk);
    let rest = s.in_flight.remove(k);
    assert(0 <= k < s.in_flight.len() && s.in_flight[k] == report.chunk);
    assert(rest.len() == s.in_flight.len() - 1);
    assert forall|j: int| 0 <= j < rest.len() implies #[trigger] rest[j] == s.in_flight[if j < k {
        j
    } else {
        j + 1
    }] by {}
    assert(rest.no_duplicates());
    let grown = rest.push(s.next_chunk);
    assert forall|i: int, j: int|
        0 <= i < grown.len() && 0 <= j < grown.len() && i != j implies grown[i] != grown[j] by {
        if i < rest.len() {
            assert(rest[i] < s.next_chunk);
        }
        if j < rest.len() {
            assert(rest[j] < s.next_chunk);
        }
    }
    assert forall|j: int| 0 <= j < grown.len() implies #[trigger] grown[j] < s.next_chunk + 1 by {
        if j < rest.len() {
            assert(rest[j] < s.next_chunk);
        }
    }
    assert forall|j: int| 0 <= j < grown.len() && s.can_dispatch() implies chunk_in_reach(
        #[trigger] grown[j],
        s.chunk_size,
    ) by {
        if j < rest.len() {
            assert(chunk_in_reach(rest[j], s.chunk_size));
        }
    }
    assert(!s.in_flight.contains(s.next_chunk));
}

/// Whatever reports arrive, in whatever order, the scheduler stays
/// well-formed, keeps its settings, and never starts dispatching again once
/// it has stopped.
pub proof fn lemma_run_wf(s: SchedulerModel, trace: Seq<ReportModel>)
    requires
        s.wf(),
    ensures
        s.run(trace).wf(),
        s.run(trace).width == s.width,
        s.run(trace).chunk_size == s.chunk_size,
        s.run(trace).ring == s.ring,
        s.run(trace).threshold == s.threshold,
        s.stopped ==> s.run(trace).stopped,
    decreases trace.len(),
{
    if trace.len() > 0 {
        lemma_run_wf(s, trace.drop_last());
        if s.run(trace.drop_last()).accepts(trace.last()) {
            lemma_complete_wf(s.run(trace.drop_last()), trace.last());
        }
    }
}

/// Two chunks with different numbers share no index.
pub proof fn lemma_chunks_disjoint(a: nat, b: nat, chunk_size: nat, index: nat)
    requires
        a != b,
    ensures
        !(chunk_covers(a, chunk_size, index) && chunk_covers(b, chunk_size, index)),
{
    if a < b {
        assert(a * chunk_size + chunk_size <= b * chunk_size) by (nonlinear_arith)
            requires
                a + 1 <= b,
        ;
    } else {
        assert(b * chunk_size + chunk_size <= a * chunk_size) by (nonlinear_arith)
            requires
                b + 1 <= a,
        ;
    }
}

/// No two workers in flight own a common index, in any state that the
/// scheduler can reach from its start, whatever reports arrive and in
/// whatever order.
pub proof fn lemma_in_flight_never_overlap(
    parallelism: nat,
    chunk_size: nat,
    ring: nat,
    threshold: nat,
    trace: Seq<ReportModel>,
    i: int,
    j: int,
    index: nat,
)
    requires
        ring > 0,
        parallelism < usize::MAX,
        chunk_in_reach(parallelism, chunk_size),
        0 <= i < j < SchedulerModel::start(parallelism, chunk_size, ring, threshold).run(
            trace,
        ).in_flight.len(),
    ensures
        ({
            let live = SchedulerModel::start(parallelism, chunk_size, ring, threshold).run(
                trace,
            ).in_flight;
            !(chunk_covers(live[i], chunk_size, index) && chunk_covers(live[j], chunk_size, index))
        }),
{
    let start = SchedulerModel::start(parallelism, chunk_size, ring, threshold);
    lemma_start_wf(parallelism, chunk_size, ring, threshold);
    lemma_run_wf(start, trace);
    let live = start.run(trace).in_flight;
    lemma_chunks_disjoint(live[i], live[j], chunk_size, index);
}

} // verus!
