use std::collections::BTreeMap;

use datt::sflix::locator::cache_key;
use datt::sflix::reassembler::{reassemble, StoredSegment};
use datt::sflix::scheduler::Scheduler;
use datt::sflix::worker::{chunk_fits, Action, ChunkWorker, Event};

/// What a run did: every fetch in the order made, the chunks that were
/// started, and the artifact.
struct Run {
    fetches: Vec<(usize, usize)>,
    chunks: Vec<usize>,
    artifact: Vec<u8>,
    area: BTreeMap<String, Vec<u8>>,
}

/// Runs scheduler and workers against a remote side that serves index
/// `index` at ring position `position` where `served` says so, one worker
/// after the other in the order given by `pick`.
fn run(
    parallelism: usize,
    chunk_size: usize,
    ring_len: usize,
    threshold: usize,
    mut area: BTreeMap<String, Vec<u8>>,
    served: &dyn Fn(usize, usize) -> Option<Vec<u8>>,
    pick: &dyn Fn(usize) -> usize,
) -> Run {
    assert!(parallelism < usize::MAX && chunk_fits(parallelism, chunk_size));
    let (mut scheduler, orders) = Scheduler::start(parallelism, chunk_size, ring_len, threshold);
    let mut waiting = orders;
    let mut fetches = Vec::new();
    let mut chunks = Vec::new();
    while !waiting.is_empty() {
        let order = waiting.remove(pick(waiting.len()));
        chunks.push(order.chunk_index);
        assert!(chunk_fits(order.chunk_index, chunk_size));
        let mut worker = ChunkWorker::new(order.chunk_index, chunk_size, order.hint, ring_len);
        let report = loop {
            match worker.action() {
                Action::Probe { index } => {
                    let present = area.contains_key(&cache_key(index));
                    worker.deliver(if present { Event::Present } else { Event::Absent });
                }
                Action::Fetch { index, position } => {
                    fetches.push((index, position));
                    match served(index, position) {
                        Some(bytes) => {
                            area.insert(cache_key(index), bytes);
                            worker.deliver(Event::Fetched);
                        }
                        None => {
                            worker.deliver(Event::Failed);
                        }
                    }
                }
                Action::Finish { report } => break report,
            }
        };
        if let Some(next) = scheduler.complete(&report).unwrap() {
            waiting.push(next);
        }
    }
    assert!(scheduler.is_finished());
    let mut entries: Vec<StoredSegment> = area
        .iter()
        .map(|(name, bytes)| StoredSegment { name: name.clone(), bytes: bytes.clone() })
        .collect();
    entries.reverse();
    let artifact = reassemble(&entries).unwrap();
    Run { fetches, chunks, artifact, area }
}

#[test]
fn scenario_all_indices_succeed_in_rhythm() {
    let mut worker = ChunkWorker::new(0, 5, None, 3);
    let mut area: Vec<StoredSegment> = Vec::new();
    let mut positions = Vec::new();
    let report = loop {
        match worker.action() {
            Action::Probe { .. } => {
                worker.deliver(Event::Absent);
            }
            Action::Fetch { index, position } => {
                positions.push(position);
                area.push(StoredSegment { name: cache_key(index), bytes: vec![b'a' + index as u8] });
                worker.deliver(Event::Fetched);
            }
            Action::Finish { report } => break report,
        }
    };
    assert_eq!(positions, vec![0, 1, 2, 0, 1]);
    assert_eq!(report.cursor, 2);
    area.reverse();
    assert_eq!(reassemble(&area), Ok(b"abcde".to_vec()));
}

#[test]
fn scenario_one_index_fails_at_every_ring_position() {
    let served = |index: usize, position: usize| {
        let good = [0usize, 1, 9, 2, 0];
        if index < 5 && position == good[index] {
            Some(vec![index as u8])
        } else {
            None
        }
    };
    let done = run(0, 5, 3, 0, BTreeMap::new(), &served, &|_| 0);
    assert_eq!(
        &done.fetches[..7],
        &[(0, 0), (1, 1), (2, 2), (2, 0), (2, 1), (3, 2), (4, 0)]
    );
    assert_eq!(done.artifact, vec![0, 1, 3, 4]);
    assert!(!done.area.contains_key(&cache_key(2)));
}

#[test]
fn scenario_two_empty_chunks_end_the_run() {
    let mut area = BTreeMap::new();
    area.insert(cache_key(0), b"x".to_vec());
    area.insert(cache_key(1), b"y".to_vec());
    let done = run(0, 2, 3, 1, area, &|_, _| None, &|_| 0);
    assert_eq!(done.chunks, vec![0, 1]);
    assert_eq!(done.artifact, b"xy".to_vec());
    assert_eq!(done.fetches, vec![(2, 0), (2, 1), (2, 2), (3, 0), (3, 1), (3, 2)]);
}

#[test]
fn scenario_populated_work_area_is_not_fetched_again() {
    let mut area = BTreeMap::new();
    for index in 0..10usize {
        area.insert(cache_key(index), vec![index as u8]);
    }
    let mut worker = ChunkWorker::new(0, 10, None, 8);
    let mut fetches = 0;
    let report = loop {
        match worker.action() {
            Action::Probe { index } => {
                let present = area.contains_key(&cache_key(index));
                assert!(worker.deliver(if present { Event::Present } else { Event::Absent }));
            }
            Action::Fetch { .. } => {
                fetches += 1;
                worker.deliver(Event::Failed);
            }
            Action::Finish { report } => break report,
        }
    };
    assert_eq!(fetches, 0);
    assert!(!report.progressed());
    assert_eq!(report.highest, Some(9));
    let (mut scheduler, _) = Scheduler::start(0, 10, 8, 0);
    assert_eq!(scheduler.complete(&report), Ok(None));
    assert!(scheduler.is_finished());
}

#[test]
fn run_in_any_completion_order_gives_the_same_artifact() {
    let served = |index: usize, position: usize| {
        if index < 23 && position == index % 4 {
            Some(vec![index as u8, 0xff])
        } else {
            None
        }
    };
    let expected: Vec<u8> = (0..23u8).flat_map(|i| [i, 0xff]).collect();
    let first = run(2, 3, 4, 3, BTreeMap::new(), &served, &|_| 0);
    let last = run(2, 3, 4, 3, BTreeMap::new(), &served, &|waiting| waiting - 1);
    assert_eq!(first.artifact, expected);
    assert_eq!(last.artifact, expected);
}

#[test]
fn rerun_on_a_full_work_area_fetches_only_past_its_end() {
    let served = |index: usize, position: usize| {
        if index < 6 && position == index % 3 {
            Some(vec![index as u8])
        } else {
            None
        }
    };
    let first = run(1, 3, 3, 0, BTreeMap::new(), &served, &|_| 0);
    assert_eq!(first.artifact, vec![0, 1, 2, 3, 4, 5]);
    let again = run(1, 3, 3, 0, first.area, &served, &|_| 0);
    assert!(again.fetches.iter().all(|fetch| fetch.0 >= 6));
    assert_eq!(again.artifact, vec![0, 1, 2, 3, 4, 5]);
}
