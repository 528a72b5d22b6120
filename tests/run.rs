use std::collections::HashMap;

use rfc_mirror::index::{parse_index, pending, SEPARATOR};
use rfc_mirror::pipeline::{Coordinator, Phase, PipelineOutcome, RunError};
use rfc_mirror::resolve::Rfc;

/// Runs the pipeline against an in-memory store, fetching from `remote`
/// (URL to body; a missing URL is a terminal fetch failure).
fn run_once(
    index: &str,
    remote: &HashMap<String, String>,
    store: &mut HashMap<String, String>,
) -> (Vec<Rfc>, Result<PipelineOutcome, RunError>) {
    let mut c = Coordinator::new(None);
    let items = parse_index(index).unwrap();
    let present: Vec<bool> = items.iter().map(|r| store.contains_key(&r.path())).collect();
    let work = pending(&items, &present);
    c.scanned(items.len() as u64, work.len() as u64);
    if c.phase == Phase::Done {
        return (work, c.verdict());
    }
    c.dispatched();
    let mut queue = Vec::new();
    for r in &work {
        match remote.get(&r.url()) {
            Some(body) => {
                queue.push((r.path(), body.clone()));
                c.task_finished(true);
            }
            None => c.task_finished(false),
        }
    }
    assert_eq!(c.phase, Phase::Draining);
    for (path, body) in queue {
        store.insert(path, body);
    }
    c.writer_finished(true);
    (work, c.verdict())
}

fn index_of(records: &str) -> String {
    let mut t = String::from("RFC INDEX\n\n");
    t.push_str(SEPARATOR);
    t.push_str("\n\n");
    t.push_str(records);
    t
}

#[test]
fn only_the_issued_record_is_fetched_and_stored() {
    let index = index_of("0001 Host Software. (Format: TXT=21088 bytes)\n\n0002 Not Issued.\n");
    let mut remote = HashMap::new();
    remote.insert(Rfc { num: 1, has_txt: true }.url(), String::from("body of one"));
    let mut store = HashMap::new();
    let (work, verdict) = run_once(&index, &remote, &mut store);
    assert_eq!(work, vec![Rfc { num: 1, has_txt: true }]);
    assert_eq!(store.len(), 1);
    assert_eq!(store.get("rfcs/00/rfc0001.txt").map(|s| s.as_str()), Some("body of one"));
    assert_eq!(
        verdict,
        Ok(PipelineOutcome { candidates: 1, attempted: 1, succeeded: 1, failed: 0 })
    );
}

#[test]
fn one_failed_fetch_does_not_fail_the_run() {
    let index = index_of(
        "0001 One. (Format: TXT=1 bytes)\n\n0002 Two. (Format: TXT=2 bytes)\n",
    );
    let mut remote = HashMap::new();
    remote.insert(Rfc { num: 2, has_txt: true }.url(), String::from("two"));
    let mut store = HashMap::new();
    let (work, verdict) = run_once(&index, &remote, &mut store);
    assert_eq!(work.len(), 2);
    assert_eq!(
        verdict,
        Ok(PipelineOutcome { candidates: 2, attempted: 2, succeeded: 1, failed: 1 })
    );
    assert_eq!(store.len(), 1);
    assert!(store.contains_key("rfcs/00/rfc0002.txt"));
}

#[test]
fn second_run_schedules_nothing() {
    let index = index_of(
        "0001 One. (Format: TXT=1 bytes)\n\n0002 Not Issued.\n\n1234 Three. (Format: TXT=3 bytes)\n",
    );
    let mut remote = HashMap::new();
    remote.insert(Rfc { num: 1, has_txt: true }.url(), String::from("one"));
    remote.insert(Rfc { num: 1234, has_txt: true }.url(), String::from("three"));
    let mut store = HashMap::new();
    let (first, _) = run_once(&index, &remote, &mut store);
    assert_eq!(first.len(), 2);
    let (second, verdict) = run_once(&index, &remote, &mut store);
    assert!(second.is_empty());
    assert_eq!(
        verdict,
        Ok(PipelineOutcome { candidates: 2, attempted: 0, succeeded: 0, failed: 0 })
    );
}

#[test]
fn nothing_to_fetch_goes_straight_to_done() {
    let mut c = Coordinator::new(None);
    c.scanned(5, 0);
    assert_eq!(c.phase, Phase::Done);
    assert_eq!(
        c.verdict(),
        Ok(PipelineOutcome { candidates: 5, attempted: 0, succeeded: 0, failed: 0 })
    );
}

#[test]
fn writer_failure_is_fatal() {
    let mut c = Coordinator::new(None);
    c.scanned(3, 2);
    c.dispatched();
    c.task_finished(true);
    assert_eq!(c.phase, Phase::Awaiting);
    c.task_finished(true);
    assert_eq!(c.phase, Phase::Draining);
    c.writer_finished(false);
    assert_eq!(c.verdict(), Err(RunError::Write));
}

#[test]
fn failures_over_the_limit_fail_the_run() {
    let mut c = Coordinator::new(Some(1));
    c.scanned(3, 3);
    c.dispatched();
    c.task_finished(false);
    c.task_finished(false);
    c.task_finished(true);
    c.writer_finished(true);
    assert_eq!(c.verdict(), Err(RunError::TooManyFailures));
}

#[test]
fn failures_within_the_limit_are_reported() {
    let mut c = Coordinator::new(Some(1));
    c.scanned(2, 2);
    c.dispatched();
    c.task_finished(false);
    c.task_finished(true);
    c.writer_finished(true);
    assert_eq!(
        c.verdict(),
        Ok(PipelineOutcome { candidates: 2, attempted: 2, succeeded: 1, failed: 1 })
    );
}
