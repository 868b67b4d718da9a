use retreive::fetcher::{FetchOutcome, FetchRun, RunAction};

/// Drives a run the way a driver would, finishing the oldest fetch whenever it must
/// wait; `fails` lists which fetches fail. Returns the batches and the peak in flight.
fn drive(total: usize, batch: usize, max: usize, fails: &[usize]) -> (Vec<Vec<String>>, usize) {
    let mut run = FetchRun::new(total, batch, max);
    let mut started = 0usize;
    let mut in_flight: Vec<usize> = Vec::new();
    let mut peak = 0usize;
    let mut batches = Vec::new();
    loop {
        match run.next_action() {
            RunAction::Launch => {
                assert!(run.try_start_fetch());
                in_flight.push(started);
                started += 1;
                peak = peak.max(in_flight.len());
            }
            RunAction::Wait => {
                let id = in_flight.remove(0);
                let outcome = if fails.contains(&id) {
                    FetchOutcome::Failed
                } else {
                    FetchOutcome::Fetched(format!("article {}", id))
                };
                if let Some(b) = run.complete(outcome) {
                    batches.push(b.texts);
                }
            }
            RunAction::Drain => {
                if let Some(b) = run.finish() {
                    batches.push(b.texts);
                }
            }
            RunAction::Finished => break,
        }
    }
    (batches, peak)
}

#[test]
fn in_flight_fetches_never_exceed_the_bound() {
    let (batches, peak) = drive(50, 7, 4, &[]);
    assert_eq!(peak, 4);
    assert_eq!(batches.iter().map(|b| b.len()).sum::<usize>(), 50);
}

#[test]
fn gate_refuses_beyond_the_bound() {
    let mut run = FetchRun::new(10, 5, 2);
    assert!(run.try_start_fetch());
    assert!(run.try_start_fetch());
    assert!(!run.try_start_fetch());
    assert_eq!(run.next_action(), RunAction::Wait);
    assert!(run.complete(FetchOutcome::Failed).is_none());
    assert_eq!(run.next_action(), RunAction::Launch);
}

#[test]
fn one_failed_fetch_leaves_the_others_batched() {
    let (batches, _) = drive(10, 4, 3, &[2]);
    let all: Vec<String> = batches.concat();
    assert_eq!(all.len(), 9);
    assert!(!all.contains(&"article 2".to_string()));
    for i in [0usize, 1, 3, 4, 5, 6, 7, 8, 9] {
        assert!(all.contains(&format!("article {}", i)));
    }
    assert_eq!(batches.iter().map(|b| b.len()).collect::<Vec<_>>(), vec![4, 4, 1]);
}

#[test]
fn empty_run_fetches_and_sends_nothing() {
    let (batches, peak) = drive(0, 20, 200, &[]);
    assert!(batches.is_empty());
    assert_eq!(peak, 0);
}

#[test]
fn run_of_ninety_five_drains_fifteen() {
    let (batches, _) = drive(95, 20, 200, &[]);
    assert_eq!(batches.iter().map(|b| b.len()).collect::<Vec<_>>(), vec![20, 20, 20, 20, 15]);
}
