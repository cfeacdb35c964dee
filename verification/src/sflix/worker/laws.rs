//! What holds of every run of a chunk worker, whatever the caller reports.

use vstd::prelude::*;
use vstd::arithmetic::div_mod::{lemma_add_mod_noop, lemma_mod_self_0, lemma_small_mod};
use crate::sflix::worker::{next_position, Event, Phase, WorkerModel};

verus! {

/// Stepping round the ring is adding one modulo its size.
pub proof fn lemma_next_position_is_mod(position: nat, ring: nat)
    requires
        position < ring,
    ensures
        next_position(position, ring) == (position + 1) % ring,
        next_position(position, ring) < ring,
{
    if position + 1 >= ring {
        lemma_mod_self_0(ring as int);
    } else {
        lemma_small_mod(position + 1, ring);
    }
}

/// Every delivery keeps a well-formed worker well-formed, inside its chunk,
/// and never moves it back.
pub proof fn lemma_deliver_wf(s: WorkerModel, event: Event)
    requires
        s.wf(),
    ensures
        s.deliver(event).wf(),
        s.deliver(event).chunk == s.chunk,
        s.deliver(event).first == s.first,
        s.deliver(event).end == s.end,
        s.deliver(event).ring == s.ring,
        s.index <= s.deliver(event).index <= s.index + 1,
        s.fetched <= s.deliver(event).fetched,
{
}

/// Every run keeps a well-formed worker well-formed, inside its chunk, and
/// never moves it back.
pub proof fn lemma_run_wf(s: WorkerModel, trace: Seq<Event>)
    requires
        s.wf(),
    ensures
        s.run(trace).wf(),
        s.run(trace).chunk == s.chunk,
        s.run(trace).first == s.first,
        s.run(trace).end == s.end,
        s.run(trace).ring == s.ring,
        s.index <= s.run(trace).index,
        s.fetched <= s.run(trace).fetched,
    decreases trace.len(),
{
    if trace.len() > 0 {
        lemma_run_wf(s, trace.drop_last());
        lemma_deliver_wf(s.run(trace.drop_last()), trace.last());
    }
}

/// Every accepted event brings the worker nearer to the end of its chunk.
pub proof fn lemma_deliver_uses_a_step(s: WorkerModel, event: Event)
    requires
        s.wf(),
        s.accepts(event),
    ensures
        0 <= s.deliver(event).steps_left() < s.steps_left(),
{
    let after = s.deliver(event);
    let width = s.ring + 1;
    assert((s.end - s.index) * width == (s.end - s.index - 1) * width + width) by (nonlinear_arith);
    assert((s.end - after.index) * width >= 0) by (nonlinear_arith)
        requires
            s.end - after.index >= 0,
            width >= 0,
    ;
    if after.index == s.index {
        assert((s.end - s.index) * width >= width) by (nonlinear_arith)
            requires
                s.end - s.index >= 1,
                width >= 0,
        ;
    }
}

/// What is left to do is never less than nothing, and never more than a
/// probe and a turn of the ring for every index that is left.
pub proof fn lemma_steps_left_bounds(s: WorkerModel)
    requires
        s.wf(),
    ensures
        0 <= s.steps_left() <= (s.end - s.index) * (s.ring + 1),
{
    if s.index == s.end {
        assert((s.end - s.index) * (s.ring + 1) == 0) by (nonlinear_arith)
            requires
                s.end - s.index == 0,
        ;
    } else {
        assert((s.end - s.index) * (s.ring + 1) >= s.ring + 1) by (nonlinear_arith)
            requires
                s.end - s.index >= 1,
                s.ring + 1 >= 0,
        ;
    }
}

/// A worker cannot be kept busy for ever: whatever the caller reports, the
/// worker accepts no more events than one probe and one fetch per ring
/// position for every index of its chunk.
pub proof fn lemma_run_is_bounded(s: WorkerModel, trace: Seq<Event>)
    requires
        s.wf(),
    ensures
        s.accepted_events(trace) + s.run(trace).steps_left() <= s.steps_left(),
        s.accepted_events(trace) <= (s.end - s.index) * (s.ring + 1),
    decreases trace.len(),
{
    lemma_run_wf(s, trace);
    lemma_steps_left_bounds(s);
    lemma_steps_left_bounds(s.run(trace));
    if trace.len() > 0 {
        let before = s.run(trace.drop_last());
        lemma_run_is_bounded(s, trace.drop_last());
        lemma_run_wf(s, trace.drop_last());
        if before.accepts(trace.last()) {
            lemma_deliver_uses_a_step(before, trace.last());
        }
    }
}

/// The search for the format of one index is bounded by the ring: whatever the
/// caller reports, no index is fetched more often than the ring has positions.
pub proof fn lemma_fetch_attempts_bounded(s: WorkerModel, trace: Seq<Event>, i: nat)
    requires
        s.wf(),
    ensures
        s.fetch_attempts(trace, i) <= s.ring,
        i == s.run(trace).index ==> s.fetch_attempts(trace, i) <= s.run(trace).failures,
        i > s.run(trace).index ==> s.fetch_attempts(trace, i) == 0,
    decreases trace.len(),
{
    if trace.len() > 0 {
        lemma_fetch_attempts_bounded(s, trace.drop_last(), i);
        lemma_run_wf(s, trace.drop_last());
    }
}

/// Every index is probed once at most, and fetched only once the probe has
/// been answered "not stored".
proof fn lemma_probe_answers(s: WorkerModel, trace: Seq<Event>, i: nat)
    requires
        s.wf(),
        s.phase == Phase::Probing,
    ensures
        s.stored_answers(trace, i) + s.absent_answers(trace, i) <= 1,
        s.fetch_attempts(trace, i) > 0 ==> s.absent_answers(trace, i) == 1,
        i > s.run(trace).index ==> s.stored_answers(trace, i) + s.absent_answers(trace, i) == 0,
        i == s.run(trace).index ==> s.stored_answers(trace, i) == 0 && (s.absent_answers(trace, i)
            == 1 <==> s.run(trace).phase == Phase::Fetching),
    decreases trace.len(),
{
    if trace.len() > 0 {
        lemma_probe_answers(s, trace.drop_last(), i);
        lemma_run_wf(s, trace.drop_last());
        lemma_fetch_attempts_bounded(s, trace.drop_last(), i);
    }
}

/// A segment that is stored is never fetched: in any run of a worker that
/// starts with no fetch under way, an index whose probe was answered
/// "stored" is not fetched at all, and an index is fetched only after its
/// probe was answered "not stored".
pub proof fn lemma_stored_never_fetched(s: WorkerModel, trace: Seq<Event>, i: nat)
    requires
        s.wf(),
        s.phase == Phase::Probing,
    ensures
        s.stored_answers(trace, i) > 0 ==> s.fetch_attempts(trace, i) == 0,
        s.fetch_attempts(trace, i) > 0 ==> s.absent_answers(trace, i) > 0,
{
    lemma_probe_answers(s, trace, i);
}

/// Where the cursor stands after a run in which an index was settled with a
/// segment: one past the position at which that last happened, moved on once
/// for every failure of the search under way. A finished worker has no
/// search under way, so the cursor that it hands on is one past the position
/// of the last segment that it fetched or found stored, modulo the ring.
pub proof fn lemma_cursor_after_success(s: WorkerModel, trace: Seq<Event>)
    requires
        s.wf(),
    ensures
        s.last_success_position(trace) matches Some(position) ==> position < s.ring && s.run(
            trace,
        ).cursor == (position + 1 + s.run(trace).failures) % s.ring,
        s.last_success_position(trace) is Some && s.run(trace).done() ==> s.run(
            trace,
        ).report().cursor == (s.last_success_position(trace)->0 + 1) % s.ring,
    decreases trace.len(),
{
    lemma_run_wf(s, trace);
    if trace.len() > 0 {
        let earlier = trace.drop_last();
        let before = s.run(earlier);
        let event = trace.last();
        lemma_cursor_after_success(s, earlier);
        lemma_run_wf(s, earlier);
        lemma_next_position_is_mod(before.cursor, before.ring);
        let ring = s.ring as int;
        if before.accepts(event) && event is Failed && s.last_success_position(earlier) is Some {
            let turn = (s.last_success_position(earlier)->0 + 1) as int;
            let sum = turn + before.failures;
            assert(s.run(trace).cursor == (sum + 1) % ring) by {
                if ring > 1 {
                    lemma_add_mod_noop(sum, 1, ring);
                    lemma_small_mod(1, ring as nat);
                }
            }
            if before.failures + 1 >= before.ring {
                lemma_add_mod_noop(turn, ring, ring);
                lemma_mod_self_0(ring);
                lemma_add_mod_noop(turn, 0, ring);
            }
        }
    }
}

/// Where the cursor stands after a run in which something was fetched: one
/// past the position of the last successful fetch, moved on once for every
/// index found stored since, and once for every failure of the search under
/// way.
pub proof fn lemma_cursor_after_fetch(s: WorkerModel, trace: Seq<Event>)
    requires
        s.wf(),
    ensures
        s.last_fetch_position(trace) is Some <==> s.run(trace).fetched > s.fetched,
        s.last_fetch_position(trace) matches Some(position) ==> position < s.ring && s.run(
            trace,
        ).cursor == (position + 1 + s.stored_since_fetch(trace) + s.run(trace).failures) % s.ring,
    decreases trace.len(),
{
    if trace.len() > 0 {
        let earlier = trace.drop_last();
        let before = s.run(earlier);
        let event = trace.last();
        lemma_cursor_after_fetch(s, earlier);
        lemma_run_wf(s, earlier);
        lemma_next_position_is_mod(before.cursor, before.ring);
        let ring = s.ring as int;
        if before.accepts(event) {
            if event is Fetched {
                assert(s.last_fetch_position(trace) == Some(before.cursor));
            } else if event is Absent {
            } else if s.last_fetch_position(earlier) is Some {
                let position = s.last_fetch_position(earlier)->0;
                let turn = (position + 1 + s.stored_since_fetch(earlier)) as int;
                let sum = turn + before.failures;
                assert(before.cursor == sum % ring);
                assert(s.run(trace).cursor == (sum + 1) % ring) by {
                    if ring > 1 {
                        lemma_add_mod_noop(sum, 1, ring);
                        lemma_small_mod(1, ring as nat);
                    }
                }
                if event is Failed && before.failures + 1 >= before.ring {
                    lemma_add_mod_noop(turn, ring, ring);
                    lemma_mod_self_0(ring);
                    lemma_add_mod_noop(turn, 0, ring);
                }
            }
        }
    }
}

/// The cursor that a finished worker hands on, if it fetched anything, is
/// one past the ring position of its last successful fetch, modulo the ring.
/// This holds when the indices that it found stored after that fetch make up
/// whole turns of the ring (none, above all); each of them moves the cursor
/// on by one as well.
pub proof fn lemma_final_cursor_follows_last_fetch(s: WorkerModel, trace: Seq<Event>)
    requires
        s.wf(),
        s.run(trace).done(),
        s.run(trace).fetched > s.fetched,
        s.stored_since_fetch(trace) % s.ring == 0,
    ensures
        s.last_fetch_position(trace) is Some,
        s.run(trace).report().cursor == (s.last_fetch_position(trace)->0 + 1) % s.ring,
{
    lemma_cursor_after_fetch(s, trace);
    lemma_run_wf(s, trace);
    let turn = (s.last_fetch_position(trace)->0 + 1) as int;
    let ring = s.ring as int;
    lemma_add_mod_noop(turn, s.stored_since_fetch(trace) as int, ring);
    lemma_add_mod_noop(turn, 0, ring);
}

} // verus!
