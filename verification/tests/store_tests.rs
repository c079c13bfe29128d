use stytsch::store::{prune_excess, prune_limit, write_step, WriteOutcome, WriteStep, MAX_WRITE_ATTEMPTS};

#[test]
fn applied_write_is_done_and_failures_are_reported() {
    assert_eq!(write_step(0, WriteOutcome::Applied), WriteStep::Done);
    assert_eq!(write_step(3, WriteOutcome::Failed), WriteStep::Fail);
}

#[test]
fn busy_writes_back_off_then_give_up() {
    assert_eq!(write_step(0, WriteOutcome::Busy), WriteStep::Wait { millis: 10, next: Some(1) });
    assert_eq!(write_step(4, WriteOutcome::Busy), WriteStep::Wait { millis: 50, next: Some(5) });
    assert_eq!(write_step(9, WriteOutcome::Busy), WriteStep::Wait { millis: 100, next: None });
    let mut attempt = 0;
    let mut tries = 0;
    loop {
        tries += 1;
        match write_step(attempt, WriteOutcome::Busy) {
            WriteStep::Wait { next: Some(n), .. } => attempt = n,
            WriteStep::Wait { next: None, .. } => break,
            _ => unreachable!(),
        }
    }
    assert_eq!(tries, MAX_WRITE_ATTEMPTS);
}

#[test]
fn pruning_brings_the_count_down_to_the_maximum() {
    assert_eq!(prune_excess(50, 20), Some(30));
    assert_eq!(prune_excess(20, 20), None);
    assert_eq!(prune_excess(1, 0), Some(1));
    assert_eq!(prune_excess(3, 100_000), None);
}

#[test]
fn keep_overrides_the_configured_maximum() {
    assert_eq!(prune_limit(Some(5000), 100_000), 5000);
    assert_eq!(prune_limit(None, 100_000), 100_000);
}
