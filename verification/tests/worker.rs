use datt::sflix::worker::{chunk_fits, Action, ChunkReport, ChunkWorker, Event};

/// Walks the worker to the end of its chunk. `stored` says which indices are
/// in the work area already, `served` at which ring position the remote side
/// answers for an index. Returns the report and every fetch that was made.
fn walk(
    worker: &mut ChunkWorker,
    stored: &dyn Fn(usize) -> bool,
    served: &dyn Fn(usize, usize) -> bool,
) -> (ChunkReport, Vec<(usize, usize)>) {
    let mut fetches = Vec::new();
    loop {
        match worker.action() {
            Action::Probe { index } => {
                let event = if stored(index) { Event::Present } else { Event::Absent };
                assert!(worker.deliver(event));
            }
            Action::Fetch { index, position } => {
                fetches.push((index, position));
                let event = if served(index, position) { Event::Fetched } else { Event::Failed };
                assert!(worker.deliver(event));
            }
            Action::Finish { report } => return (report, fetches),
        }
    }
}

#[test]
fn worker_in_rhythm_fetches_each_index_once() {
    let mut worker = ChunkWorker::new(0, 5, None, 3);
    let (report, fetches) = walk(&mut worker, &|_| false, &|index, position| position == index % 3);
    assert_eq!(fetches, vec![(0, 0), (1, 1), (2, 2), (3, 0), (4, 1)]);
    assert_eq!(report, ChunkReport { chunk_index: 0, cursor: 2, fetched: 5, highest: Some(4) });
    assert!(report.progressed());
    assert!(worker.is_done());
}

#[test]
fn worker_walks_its_own_chunk_only() {
    let mut worker = ChunkWorker::new(3, 4, Some(1), 8);
    let (report, fetches) = walk(&mut worker, &|_| false, &|_, _| true);
    assert_eq!(fetches, vec![(12, 1), (13, 2), (14, 3), (15, 4)]);
    assert_eq!(report, ChunkReport { chunk_index: 3, cursor: 5, fetched: 4, highest: Some(15) });
}

#[test]
fn worker_searches_the_ring_after_a_bad_hint() {
    let mut worker = ChunkWorker::new(0, 3, Some(2), 3);
    let (report, fetches) = walk(&mut worker, &|_| false, &|index, position| position == index % 3);
    assert_eq!(fetches, vec![(0, 2), (0, 0), (1, 1), (2, 2)]);
    assert_eq!(report.cursor, 0);
    assert_eq!(report.fetched, 3);
}

#[test]
fn worker_gives_an_index_up_after_one_turn_of_the_ring() {
    let mut worker = ChunkWorker::new(0, 5, None, 3);
    let (report, fetches) = walk(&mut worker, &|_| false, &|index, position| {
        index != 2 && position == [0, 1, 9, 2, 0][index]
    });
    assert_eq!(
        fetches,
        vec![(0, 0), (1, 1), (2, 2), (2, 0), (2, 1), (3, 2), (4, 0)]
    );
    assert_eq!(report, ChunkReport { chunk_index: 0, cursor: 1, fetched: 4, highest: Some(4) });
}

#[test]
fn worker_never_fetches_an_index_more_often_than_the_ring_is_long() {
    for ring_len in 1..6usize {
        let mut worker = ChunkWorker::new(2, 4, None, ring_len);
        let (report, fetches) = walk(&mut worker, &|_| false, &|_, _| false);
        for index in 8..12 {
            let tries: Vec<usize> =
                fetches.iter().filter(|f| f.0 == index).map(|f| f.1).collect();
            assert_eq!(tries, (0..ring_len).collect::<Vec<usize>>());
        }
        assert_eq!(fetches.len(), 4 * ring_len);
        assert_eq!(report, ChunkReport { chunk_index: 2, cursor: 0, fetched: 0, highest: None });
        assert!(!report.progressed());
    }
}

#[test]
fn worker_does_not_fetch_what_is_stored() {
    let mut worker = ChunkWorker::new(0, 10, None, 8);
    let (report, fetches) = walk(&mut worker, &|_| true, &|_, _| panic!("fetched"));
    assert!(fetches.is_empty());
    assert_eq!(report, ChunkReport { chunk_index: 0, cursor: 2, fetched: 0, highest: Some(9) });
    assert!(!report.progressed());
}

#[test]
fn worker_skips_stored_indices_and_fetches_the_rest() {
    let mut worker = ChunkWorker::new(1, 4, Some(0), 4);
    let (report, fetches) =
        walk(&mut worker, &|index| index == 4 || index == 6, &|_, position| position == 1);
    assert_eq!(fetches, vec![(5, 1), (7, 3), (7, 0), (7, 1)]);
    assert_eq!(report, ChunkReport { chunk_index: 1, cursor: 2, fetched: 2, highest: Some(7) });
}

#[test]
fn final_cursor_is_one_past_the_last_successful_fetch() {
    for ring_len in 1..5usize {
        for hint in 0..ring_len {
            for good in 0..ring_len {
                let mut worker = ChunkWorker::new(0, 6, Some(hint), ring_len);
                let (report, fetches) = walk(&mut worker, &|_| false, &|index, position| {
                    index < 4 && position == (good + index) % ring_len
                });
                let last = fetches.iter().filter(|f| f.0 == 3).last().unwrap();
                assert_eq!(last.1, (good + 3) % ring_len);
                assert_eq!(report.cursor, (last.1 + 1) % ring_len);
                assert_eq!(report.fetched, 4);
                assert_eq!(report.highest, Some(3));
            }
        }
    }
}

#[test]
fn stored_index_after_the_last_fetch_moves_the_cursor_on() {
    let mut worker = ChunkWorker::new(0, 2, None, 3);
    let (report, fetches) = walk(&mut worker, &|index| index == 1, &|_, _| true);
    assert_eq!(fetches, vec![(0, 0)]);
    assert_eq!(report.cursor, 2);
    assert_eq!(report.fetched, 1);
}

#[test]
fn empty_chunk_is_done_at_once() {
    let mut worker = ChunkWorker::new(7, 0, Some(4), 8);
    assert!(worker.is_done());
    assert_eq!(
        worker.action(),
        Action::Finish {
            report: ChunkReport { chunk_index: 7, cursor: 4, fetched: 0, highest: None }
        }
    );
    assert!(!worker.deliver(Event::Present));
}

#[test]
fn events_that_answer_nothing_are_ignored() {
    let mut worker = ChunkWorker::new(0, 2, None, 3);
    assert_eq!(worker.action(), Action::Probe { index: 0 });
    assert!(!worker.deliver(Event::Fetched));
    assert!(!worker.deliver(Event::Failed));
    assert_eq!(worker.action(), Action::Probe { index: 0 });
    assert!(worker.deliver(Event::Absent));
    assert_eq!(worker.action(), Action::Fetch { index: 0, position: 0 });
    assert!(!worker.deliver(Event::Present));
    assert!(!worker.deliver(Event::Absent));
    assert_eq!(worker.action(), Action::Fetch { index: 0, position: 0 });
    assert_eq!(worker.report(), ChunkReport { chunk_index: 0, cursor: 0, fetched: 0, highest: None });
}

#[test]
fn ring_of_one_keeps_the_cursor_at_zero() {
    let mut worker = ChunkWorker::new(0, 3, None, 1);
    let (report, fetches) = walk(&mut worker, &|_| false, &|index, _| index != 1);
    assert_eq!(fetches, vec![(0, 0), (1, 0), (2, 0)]);
    assert_eq!(report, ChunkReport { chunk_index: 0, cursor: 0, fetched: 2, highest: Some(2) });
}

#[test]
fn worker_settles_within_its_bound() {
    let ring_len = 4usize;
    let size = 5usize;
    let mut worker = ChunkWorker::new(0, size, None, ring_len);
    let mut accepted = 0usize;
    while !worker.is_done() {
        let event = match worker.action() {
            Action::Probe { .. } => Event::Absent,
            _ => Event::Failed,
        };
        assert!(worker.deliver(event));
        accepted += 1;
    }
    assert_eq!(accepted, size * (ring_len + 1));
}

#[test]
fn chunk_fits_tells_what_can_be_indexed() {
    assert!(chunk_fits(0, 10));
    assert!(chunk_fits(usize::MAX, 0));
    assert!(chunk_fits(usize::MAX - 1, 1));
    assert!(!chunk_fits(usize::MAX, 1));
    assert!(chunk_fits(0, usize::MAX));
    assert!(!chunk_fits(1, usize::MAX));
    assert!(chunk_fits(usize::MAX / 10 - 1, 10));
    assert!(!chunk_fits(usize::MAX / 10, 10));
}
