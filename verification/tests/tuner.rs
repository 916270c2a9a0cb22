use tuning::tuner::{BATCH_SIZE, DECAY_PERIOD, K_CANDIDATES};
use tuning::{touch_counts, Feature, KSearch, Outcome, Position, Step, Tuner};

fn numbered(n: usize) -> Vec<Position> {
    (0..n)
        .map(|i| Position { features: vec![Feature::new(i as i64, i % 7)], label: Outcome::Draw })
        .collect()
}

fn numbers(positions: &[Position]) -> Vec<i64> {
    positions.iter().map(|p| p.features[0].coefficient).collect()
}

#[test]
fn the_schedule_constants() {
    assert_eq!(BATCH_SIZE, 10000);
    assert_eq!(DECAY_PERIOD, 100);
    assert_eq!(K_CANDIDATES, 200);
}

#[test]
fn an_epoch_is_a_shuffle_and_its_batches() {
    let mut positions = numbered(25000);
    let mut tuner = Tuner::new(2);
    assert_eq!(tuner.next(&mut positions), Step::Epoch { epoch: 1, decays: 0 });
    assert_eq!(tuner.next(&mut positions), Step::Batch { start: 0, end: 10000 });
    assert_eq!(tuner.next(&mut positions), Step::Batch { start: 10000, end: 20000 });
    assert_eq!(tuner.next(&mut positions), Step::Batch { start: 20000, end: 25000 });
    assert_eq!(tuner.next(&mut positions), Step::Epoch { epoch: 2, decays: 0 });
    assert_eq!(tuner.next(&mut positions), Step::Batch { start: 0, end: 10000 });
    assert_eq!(tuner.next(&mut positions), Step::Batch { start: 10000, end: 20000 });
    assert_eq!(tuner.next(&mut positions), Step::Batch { start: 20000, end: 25000 });
    assert_eq!(tuner.next(&mut positions), Step::Finished);
    assert_eq!(tuner.next(&mut positions), Step::Finished);
}

#[test]
fn a_full_last_batch_is_the_last() {
    let mut positions = numbered(20000);
    let mut tuner = Tuner::new(1);
    assert_eq!(tuner.next(&mut positions), Step::Epoch { epoch: 1, decays: 0 });
    assert_eq!(tuner.next(&mut positions), Step::Batch { start: 0, end: 10000 });
    assert_eq!(tuner.next(&mut positions), Step::Batch { start: 10000, end: 20000 });
    assert_eq!(tuner.next(&mut positions), Step::Finished);
}

#[test]
fn few_positions_make_one_batch() {
    let mut positions = numbered(3);
    let mut tuner = Tuner::new(1);
    assert_eq!(tuner.next(&mut positions), Step::Epoch { epoch: 1, decays: 0 });
    assert_eq!(tuner.next(&mut positions), Step::Batch { start: 0, end: 3 });
    assert_eq!(tuner.next(&mut positions), Step::Finished);
}

#[test]
fn no_positions_make_no_batch() {
    let mut positions = numbered(0);
    let mut tuner = Tuner::new(2);
    assert_eq!(tuner.next(&mut positions), Step::Epoch { epoch: 1, decays: 0 });
    assert_eq!(tuner.next(&mut positions), Step::Epoch { epoch: 2, decays: 0 });
    assert_eq!(tuner.next(&mut positions), Step::Finished);
}

#[test]
fn a_run_of_one_epoch_runs_one_epoch() {
    let mut positions = numbered(1);
    let mut tuner = Tuner::new(1);
    assert_eq!(tuner.next(&mut positions), Step::Epoch { epoch: 1, decays: 0 });
    assert_eq!(tuner.next(&mut positions), Step::Batch { start: 0, end: 1 });
    assert_eq!(tuner.next(&mut positions), Step::Finished);
    assert_eq!(tuner.next(&mut positions), Step::Finished);
}

#[test]
fn a_run_of_no_epochs_is_finished_at_once() {
    let mut positions = numbered(5);
    assert_eq!(Tuner::new(0).next(&mut positions), Step::Finished);
    assert_eq!(numbers(&positions), vec![0, 1, 2, 3, 4]);
}

#[test]
fn the_learning_rate_decays_every_hundredth_epoch() {
    let mut positions = numbered(1);
    let mut tuner = Tuner::new(300);
    let mut epochs = vec![];
    loop {
        match tuner.next(&mut positions) {
            Step::Epoch { epoch, decays } => epochs.push((epoch, decays)),
            Step::Batch { start, end } => assert_eq!((start, end), (0, 1)),
            Step::Finished => break,
        }
    }
    assert_eq!(epochs.len(), 300);
    for (i, (epoch, decays)) in epochs.iter().enumerate() {
        assert_eq!(*epoch, i + 1);
        assert_eq!(*decays, (i + 1) / 100);
    }
    assert_eq!(epochs[98], (99, 0));
    assert_eq!(epochs[99], (100, 1));
    assert_eq!(epochs[199], (200, 2));
    assert_eq!(epochs[299], (300, 3));
}

#[test]
fn a_shuffle_keeps_the_positions_and_changes_their_order() {
    let mut positions = numbered(500);
    let before = numbers(&positions);
    let mut tuner = Tuner::new(1);
    assert_eq!(tuner.next(&mut positions), Step::Epoch { epoch: 1, decays: 0 });
    let after = numbers(&positions);
    assert_ne!(before, after);
    let mut sorted = after.clone();
    sorted.sort();
    assert_eq!(sorted, before);
    assert_eq!(tuner.next(&mut positions), Step::Batch { start: 0, end: 500 });
    assert_eq!(numbers(&positions), after);
}

#[test]
fn touches_are_counted_by_index() {
    let positions = vec![
        Position { features: vec![Feature::new(1, 0), Feature::new(-1, 2)], label: Outcome::Win },
        Position { features: vec![Feature::new(2, 2), Feature::new(3, 2)], label: Outcome::Loss },
        Position { features: vec![], label: Outcome::Draw },
        Position { features: vec![Feature::new(0, 3)], label: Outcome::Draw },
    ];
    assert_eq!(touch_counts(&positions, 0, 4, 5), vec![1, 0, 3, 1, 0]);
    assert_eq!(touch_counts(&positions, 1, 3, 4), vec![0, 0, 2, 0]);
    assert_eq!(touch_counts(&positions, 0, 1, 3), vec![1, 0, 1]);
    assert_eq!(touch_counts(&positions, 2, 2, 2), vec![0, 0]);
    assert_eq!(touch_counts(&positions, 2, 3, 0), vec![]);
}

fn search(improved: &[bool]) -> (u32, usize) {
    let mut search = KSearch::new();
    let mut tried = 0;
    while let Some(candidate) = search.candidate() {
        assert_eq!(candidate as usize, tried);
        let outcome = improved.get(tried).copied().unwrap_or(true);
        search.record(outcome);
        tried += 1;
    }
    (search.best(), tried)
}

#[test]
fn the_search_stops_at_the_first_candidate_that_is_no_better() {
    assert_eq!(search(&[true, true, true, false, true]), (2, 4));
    assert_eq!(search(&[true, false]), (0, 2));
}

#[test]
fn a_search_that_never_improves_gives_zero() {
    assert_eq!(search(&[false]), (0, 1));
}

#[test]
fn a_search_that_always_improves_tries_all_candidates() {
    assert_eq!(search(&[]), (199, 200));
}

#[test]
fn a_new_search_starts_at_zero() {
    let search = KSearch::new();
    assert_eq!(search.candidate(), Some(0));
    assert_eq!(search.best(), 0);
}
