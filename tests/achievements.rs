use stardb_exporter::achievements::{filter_achievements, sniff, AchievementRecord, AchievementSniff};
use stardb_exporter::artifacts::SniffError;

fn rec(id: u32, status: u32) -> AchievementRecord {
    AchievementRecord { id, status }
}

#[test]
fn only_wanted_unlocked_ids() {
    let wanted = vec![1, 2, 3, 4, 5];
    let batch = vec![rec(1, 2), rec(2, 3), rec(3, 1), rec(4, 0), rec(6, 2), rec(5, 4)];
    assert_eq!(filter_achievements(&wanted, &batch), vec![1, 2]);
}

#[test]
fn later_achievement_batch_is_ignored() {
    let wanted = vec![1, 2, 3];
    let out = sniff(&wanted, &vec![vec![rec(1, 3)], vec![rec(2, 2), rec(3, 2)]]).unwrap();
    assert_eq!(out, vec![1]);
}

#[test]
fn empty_batch_does_not_win() {
    let wanted = vec![1, 2, 3];
    let out = sniff(&wanted, &vec![vec![rec(1, 1)], vec![rec(2, 2)]]).unwrap();
    assert_eq!(out, vec![2]);
}

#[test]
fn exhausted_achievement_source_is_not_found() {
    assert_eq!(sniff(&vec![1], &vec![]).err(), Some(SniffError::NotFound));
    assert_eq!(sniff(&vec![1], &vec![vec![rec(1, 1), rec(2, 3)]]).err(), Some(SniffError::NotFound));
}

#[test]
fn achievement_accumulator_keeps_first() {
    let wanted = vec![7, 8];
    let mut s = AchievementSniff::new();
    s.on_batch(&wanted, &vec![rec(7, 2)]);
    assert!(s.is_done());
    s.on_batch(&wanted, &vec![rec(8, 2)]);
    assert_eq!(s.finish().unwrap(), vec![7]);
}
