use pj::frecency::{rank_by_key, Recency, DAY, HOUR, WEEK};
use pj::projects::{Project, ProjectStore};

fn score(now: i64, last_accessed: i64, access_count: u32) -> f64 {
    let weight = f64::from(Recency::between(now, last_accessed).weight_halves()) / 2.0;
    weight * f64::from(access_count).ln_1p() + weight
}

#[test]
fn the_constants_are_seconds() {
    assert_eq!(HOUR, 3600);
    assert_eq!(DAY, 24 * 3600);
    assert_eq!(WEEK, 7 * 24 * 3600);
}

#[test]
fn recency_classes_are_closed_open_intervals() {
    let now = 1_700_000_000;
    assert_eq!(Recency::between(now, now), Recency::WithinHour);
    assert_eq!(Recency::between(now, now - 3599), Recency::WithinHour);
    assert_eq!(Recency::between(now, now - 3600), Recency::WithinDay);
    assert_eq!(Recency::between(now, now - 86399), Recency::WithinDay);
    assert_eq!(Recency::between(now, now - 86400), Recency::WithinWeek);
    assert_eq!(Recency::between(now, now - 604799), Recency::WithinWeek);
    assert_eq!(Recency::between(now, now - 604800), Recency::Older);
    assert_eq!(Recency::between(now, 0), Recency::Older);
}

#[test]
fn a_time_in_the_future_counts_as_recent() {
    let now = 1_700_000_000;
    assert_eq!(Recency::between(now, now + 1), Recency::WithinHour);
    assert_eq!(Recency::between(now, now + 1_000_000), Recency::WithinHour);
}

#[test]
fn recency_takes_every_pair_of_times() {
    assert_eq!(Recency::between(i64::MAX, i64::MIN), Recency::Older);
    assert_eq!(Recency::between(i64::MIN, i64::MAX), Recency::WithinHour);
    assert_eq!(Recency::between(i64::MAX, i64::MAX), Recency::WithinHour);
}

#[test]
fn weights_are_four_two_one_and_a_half() {
    assert_eq!(Recency::WithinHour.weight_halves(), 8);
    assert_eq!(Recency::WithinDay.weight_halves(), 4);
    assert_eq!(Recency::WithinWeek.weight_halves(), 2);
    assert_eq!(Recency::Older.weight_halves(), 1);
}

#[test]
fn the_weight_falls_from_class_to_class() {
    let now = 1_700_000_000;
    let ages = [1800, 7200, 90000, 700000];
    let weights: Vec<u8> =
        ages.iter().map(|age| Recency::between(now, now - age).weight_halves()).collect();
    assert_eq!(weights, vec![8, 4, 2, 1]);
    for count in [0u32, 1, 5, 50, 1000] {
        let scores: Vec<f64> = ages.iter().map(|age| score(now, now - age, count)).collect();
        assert!(scores[0] > scores[1]);
        assert!(scores[1] > scores[2]);
        assert!(scores[2] > scores[3]);
    }
}

#[test]
fn a_project_just_added_scores_four() {
    let now = 1_700_000_000;
    assert_eq!(Recency::between(now, now).weight_halves(), 8);
    assert_eq!(score(now, now, 0), 4.0);
}

#[test]
fn the_score_grows_with_the_count_inside_a_class() {
    let now = 1_700_000_000;
    for age in [0, 1800, 7200, 90000, 700000] {
        let mut before = score(now, now - age, 0);
        for count in 1..200u32 {
            let after = score(now, now - age, count);
            assert!(after >= before);
            before = after;
        }
    }
}

#[test]
fn rank_by_key_orders_by_descending_key() {
    assert_eq!(rank_by_key(&vec![1, 5, 3]), vec![1, 2, 0]);
    assert_eq!(rank_by_key(&vec![9, 8, 7]), vec![0, 1, 2]);
    assert_eq!(rank_by_key(&vec![7, 8, 9]), vec![2, 1, 0]);
    assert_eq!(rank_by_key(&vec![]), Vec::<usize>::new());
    assert_eq!(rank_by_key(&vec![4]), vec![0]);
    assert_eq!(rank_by_key(&vec![0, u64::MAX]), vec![1, 0]);
}

#[test]
fn rank_by_key_keeps_equal_keys_in_their_order() {
    assert_eq!(rank_by_key(&vec![3, 1, 3, 2]), vec![0, 2, 3, 1]);
    assert_eq!(rank_by_key(&vec![5, 5, 5, 5]), vec![0, 1, 2, 3]);
    assert_eq!(rank_by_key(&vec![1, 2, 1, 2, 1]), vec![1, 3, 0, 2, 4]);
}

#[test]
fn rank_by_key_agrees_with_a_stable_sort() {
    let keys: Vec<u64> = vec![12, 7, 12, 0, 99, 7, 7, 3, 99, 12, 1, 0];
    let mut expected: Vec<usize> = (0..keys.len()).collect();
    expected.sort_by(|a, b| keys[*b].cmp(&keys[*a]));
    assert_eq!(rank_by_key(&keys), expected);
}

#[test]
fn recency_outweighs_frequency() {
    let now = 1_700_000_000;
    let mut b = Project::new_at("/projects/b".to_string(), now - 10 * 86400);
    b.access_count = 50;
    let mut a = Project::new_at("/projects/a".to_string(), now - 10);
    a.access_count = 5;
    let score_a = 4.0 * 6.0f64.ln() + 4.0;
    let score_b = 0.5 * 51.0f64.ln() + 0.5;
    assert!((score(now, a.last_accessed, a.access_count) - score_a).abs() < 1e-12);
    assert!((score(now, b.last_accessed, b.access_count) - score_b).abs() < 1e-12);
    assert!(score_a > 11.0 && score_b < 2.5);
    let store = ProjectStore::from_projects(vec![b, a]);
    let keys: Vec<u64> = store
        .projects()
        .iter()
        .map(|p| score(now, p.last_accessed, p.access_count).to_bits())
        .collect();
    let ranked = store.sorted_by_frecency(&keys);
    assert_eq!(ranked.len(), 2);
    assert_eq!(ranked[0].path, "/projects/a");
    assert_eq!(ranked[1].path, "/projects/b");
}
