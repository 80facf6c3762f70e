use qc_filter::split::Timeline;
use qc_filter::time::{Duration, Epoch};
use qc_filter::QcSplit;

fn at(tai_nanoseconds: i128) -> Epoch {
    Epoch { tai_nanoseconds }
}

fn timeline(samples: &[(i128, i64)]) -> Timeline<i64> {
    let mut timeline = Timeline::new();
    for (instant, value) in samples {
        assert!(timeline.push(at(*instant), *value));
    }
    timeline
}

fn listed(timeline: &Timeline<i64>) -> Vec<(i128, i64)> {
    timeline
        .samples()
        .iter()
        .map(|(epoch, value)| (epoch.tai_nanoseconds, *value))
        .collect()
}

fn windows(timeline: &Timeline<i64>, dt: i128) -> Vec<Vec<(i128, i64)>> {
    timeline
        .split_even_dt(Duration { nanoseconds: dt })
        .iter()
        .map(listed)
        .collect()
}

#[test]
fn a_timeline_takes_samples_in_order() {
    let mut timeline = Timeline::new();
    assert_eq!(timeline.len(), 0);
    assert!(timeline.push(at(10), 1));
    assert!(timeline.push(at(10), 2));
    assert!(!timeline.push(at(9), 3));
    assert!(timeline.push(at(11), 4));
    assert_eq!(timeline.len(), 3);
    assert_eq!(listed(&timeline), vec![(10, 1), (10, 2), (11, 4)]);
}

#[test]
fn split_parts_the_records_at_the_instant() {
    let data = timeline(&[(1, 10), (2, 20), (2, 21), (3, 30), (5, 50)]);
    let (before, after) = data.split(at(2));
    assert_eq!(listed(&before), vec![(1, 10), (2, 20), (2, 21)]);
    assert_eq!(listed(&after), vec![(3, 30), (5, 50)]);
    assert_eq!(listed(&data), vec![(1, 10), (2, 20), (2, 21), (3, 30), (5, 50)]);
}

#[test]
fn split_loses_and_repeats_nothing() {
    let samples = [(-5, 0), (-5, 1), (0, 2), (3, 3), (3, 4), (8, 5)];
    let data = timeline(&samples);
    for t in -7..10 {
        let (before, after) = data.split(at(t));
        assert!(listed(&before).iter().all(|(instant, _)| *instant <= t));
        assert!(listed(&after).iter().all(|(instant, _)| *instant > t));
        let mut joined = listed(&before);
        joined.extend(listed(&after));
        assert_eq!(joined, samples.to_vec(), "at {}", t);
    }
}

#[test]
fn split_mut_keeps_what_is_not_after() {
    let mut data = timeline(&[(1, 10), (2, 20), (3, 30)]);
    let after = data.split_mut(at(1));
    assert_eq!(listed(&data), vec![(1, 10)]);
    assert_eq!(listed(&after), vec![(2, 20), (3, 30)]);
    let after = data.split_mut(at(0));
    assert_eq!(listed(&data), vec![]);
    assert_eq!(listed(&after), vec![(1, 10)]);
}

#[test]
fn splitting_at_the_ends() {
    let data = timeline(&[(1, 10), (2, 20)]);
    let (before, after) = data.split(at(0));
    assert_eq!(before.len(), 0);
    assert_eq!(listed(&after), vec![(1, 10), (2, 20)]);
    let (before, after) = data.split(at(2));
    assert_eq!(listed(&before), vec![(1, 10), (2, 20)]);
    assert_eq!(after.len(), 0);
}

#[test]
fn an_empty_dataset_splits_into_empty_parts() {
    let data: Timeline<i64> = Timeline::new();
    let (before, after) = data.split(at(0));
    assert_eq!(before.len(), 0);
    assert_eq!(after.len(), 0);
    assert!(data.split_even_dt(Duration { nanoseconds: 10 }).is_empty());
}

#[test]
fn even_windows_are_laid_out_from_the_first_record() {
    let data = timeline(&[(100, 0), (105, 1), (110, 2), (111, 3), (120, 4), (121, 5), (139, 6)]);
    assert_eq!(
        windows(&data, 10),
        vec![
            vec![(100, 0), (105, 1), (110, 2)],
            vec![(111, 3), (120, 4)],
            vec![(121, 5)],
            vec![(139, 6)],
        ]
    );
}

#[test]
fn windows_without_records_are_left_out() {
    let data = timeline(&[(0, 0), (1000, 1), (1001, 2)]);
    assert_eq!(
        windows(&data, 10),
        vec![vec![(0, 0)], vec![(1000, 1)], vec![(1001, 2)]]
    );
    assert_eq!(
        windows(&data, 1000),
        vec![vec![(0, 0), (1000, 1)], vec![(1001, 2)]]
    );
    assert_eq!(
        windows(&data, 1001),
        vec![vec![(0, 0), (1000, 1), (1001, 2)]]
    );
}

#[test]
fn even_windows_cover_the_dataset() {
    let samples: Vec<(i128, i64)> = (0..60).map(|i| ((i * i) % 97 + i * 3, i as i64)).collect();
    let mut sorted = samples.clone();
    sorted.sort();
    let data = timeline(&sorted);
    for dt in [1_i128, 2, 3, 7, 10, 50, 1000] {
        let batches = windows(&data, dt);
        let joined: Vec<(i128, i64)> = batches.iter().flatten().cloned().collect();
        assert_eq!(joined, sorted, "dt = {}", dt);
        for batch in &batches {
            assert!(!batch.is_empty());
            let first = batch.first().unwrap().0;
            let last = batch.last().unwrap().0;
            assert!(last - first <= dt, "dt = {}", dt);
        }
        for pair in batches.windows(2) {
            assert!(pair[0].last().unwrap().0 < pair[1].first().unwrap().0);
        }
    }
}

#[test]
fn a_duration_that_is_not_positive_gives_no_window() {
    let data = timeline(&[(1, 10), (2, 20)]);
    assert!(data.split_even_dt(Duration { nanoseconds: 0 }).is_empty());
    assert!(data.split_even_dt(Duration { nanoseconds: -5 }).is_empty());
}

#[test]
fn windows_reach_across_the_whole_range_of_instants() {
    let data = timeline(&[(i128::MIN, 0), (-1, 1), (0, 2), (i128::MAX, 3)]);
    assert_eq!(
        windows(&data, i128::MAX),
        vec![
            vec![(i128::MIN, 0), (-1, 1)],
            vec![(0, 2)],
            vec![(i128::MAX, 3)],
        ]
    );
    assert_eq!(
        windows(&data, 1),
        vec![
            vec![(i128::MIN, 0)],
            vec![(-1, 1)],
            vec![(0, 2)],
            vec![(i128::MAX, 3)],
        ]
    );
}

#[test]
fn a_clone_holds_the_same_samples() {
    let data = timeline(&[(1, 10), (2, 20)]);
    let copy = data.clone();
    assert_eq!(copy, data);
    assert_eq!(listed(&copy), vec![(1, 10), (2, 20)]);
}

#[test]
fn a_timeline_holds_any_plain_value() {
    let mut flags: Timeline<(char, bool)> = Timeline::new();
    assert!(flags.push(at(-2), ('a', true)));
    assert!(flags.push(at(4), ('b', false)));
    assert!(flags.push(at(9), ('c', true)));
    let after = flags.split_mut(at(4));
    assert_eq!(
        flags.samples(),
        &vec![(at(-2), ('a', true)), (at(4), ('b', false))]
    );
    assert_eq!(after.samples(), &vec![(at(9), ('c', true))]);
    let batches = flags.split_even_dt(Duration { nanoseconds: 5 });
    assert_eq!(batches.len(), 2);
    assert_eq!(batches[0].samples(), &vec![(at(-2), ('a', true))]);
    assert_eq!(batches[1].samples(), &vec![(at(4), ('b', false))]);
}
