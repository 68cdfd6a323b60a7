use copper_mind::error::ConfigError;
use copper_mind::schedule::Schedule;

fn drain<'a>(schedule: &mut Schedule<'a, u8>) -> Vec<(&'a [u8], &'a [usize])> {
    let mut steps: Vec<(&'a [u8], &'a [usize])> = Vec::new();
    while let Some(batch) = schedule.next_batch() {
        steps.push(batch);
    }
    steps
}

#[test]
fn every_epoch_visits_every_batch_in_order() {
    let data: [u8; 5] = [10, 11, 12, 13, 14];
    let labels: [usize; 5] = [0, 1, 2, 3, 4];
    let mut schedule = Schedule::new(&data, &labels, 3, 2).unwrap();
    let first = (&data[0..2], &labels[0..2]);
    let second = (&data[2..4], &labels[2..4]);
    assert_eq!(
        drain(&mut schedule),
        vec![first, second, first, second, first, second]
    );
}

#[test]
fn finished_schedule_stays_finished() {
    let data: [u8; 2] = [1, 2];
    let labels: [usize; 2] = [0, 1];
    let mut schedule = Schedule::new(&data, &labels, 1, 1).unwrap();
    assert_eq!(schedule.next_batch(), Some((&data[..], &labels[..])));
    assert_eq!(schedule.next_batch(), None);
    assert_eq!(schedule.next_batch(), None);
}

#[test]
fn zero_epochs_take_no_step() {
    let data: [u8; 4] = [1, 2, 3, 4];
    let labels: [usize; 4] = [0, 1, 0, 1];
    let mut schedule = Schedule::new(&data, &labels, 0, 2).unwrap();
    assert_eq!(schedule.next_batch(), None);
}

#[test]
fn empty_batches_are_skipped() {
    let data: [u8; 2] = [1, 2];
    let labels: [usize; 2] = [0, 1];
    let mut schedule = Schedule::new(&data, &labels, 4, 3).unwrap();
    assert_eq!(schedule.next_batch(), None);
}

#[test]
fn no_data_takes_no_step() {
    let data: [u8; 0] = [];
    let labels: [usize; 0] = [];
    let mut schedule = Schedule::new(&data, &labels, 2, 1).unwrap();
    assert_eq!(schedule.next_batch(), None);
}

#[test]
fn step_count_is_epochs_times_batches() {
    let data: Vec<u8> = (0..10).collect();
    let labels: Vec<usize> = (0..10).collect();
    let mut schedule = Schedule::new(&data, &labels, 7, 3).unwrap();
    let steps = drain(&mut schedule);
    assert_eq!(steps.len(), 21);
    assert!(steps.iter().all(|(features, targets)| features.len() == 3 && targets.len() == 3));
    assert_eq!(steps[20], (&data[6..9], &labels[6..9]));
}

#[test]
fn schedule_rejects_mismatched_lengths() {
    let data: [u8; 2] = [1, 2];
    let labels: [usize; 3] = [0, 1, 2];
    assert!(matches!(
        Schedule::new(&data, &labels, 1, 1),
        Err(ConfigError::LengthMismatch)
    ));
}

#[test]
fn schedule_rejects_zero_batches() {
    let data: [u8; 2] = [1, 2];
    let labels: [usize; 2] = [0, 1];
    assert!(matches!(
        Schedule::new(&data, &labels, 1, 0),
        Err(ConfigError::ZeroBatchCount)
    ));
}
