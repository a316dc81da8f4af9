use grand_pattern_bench::ledger::{retain_marked, Ledger};
use grand_pattern_bench::pairs::room_pairs;
use grand_pattern_bench::report::positions_with;
use grand_pattern_bench::tally::{total_room_ticks, ViolationTally};
use grand_pattern_bench::window::window_indices;

#[test]
fn empty_ledger_has_no_entries() {
    let ledger: Ledger<u32> = Ledger::new();
    assert!(ledger.perceptions().is_empty());
    assert!(ledger.predictions().is_empty());
}

#[test]
fn record_enters_one_entry_in_each_column() {
    let mut ledger: Ledger<u32> = Ledger::new();
    for tick in 0..10u32 {
        ledger.record(tick, 100 + tick);
        assert_eq!(ledger.perceptions().len(), ledger.predictions().len());
    }
    assert_eq!(ledger.perceptions().len(), 10);
    assert_eq!(ledger.perceptions()[3], 3);
    assert_eq!(ledger.predictions()[9], 109);
}

#[test]
fn collect_keeps_marked_entries_in_order() {
    let mut ledger: Ledger<u32> = Ledger::new();
    for tick in 0..5u32 {
        ledger.record(tick, 10 * tick);
    }
    let keep_p = vec![true, false, true, false, true];
    let keep_q = vec![false, false, false, true, true];
    ledger.collect(&keep_p, &keep_q);
    assert_eq!(ledger.perceptions(), &vec![0, 2, 4]);
    assert_eq!(ledger.predictions(), &vec![30, 40]);
}

#[test]
fn collect_with_every_mark_set_changes_nothing() {
    let mut ledger: Ledger<u32> = Ledger::new();
    for tick in 0..4u32 {
        ledger.record(tick, tick + 1);
    }
    ledger.collect(&vec![true; 4], &vec![true; 4]);
    assert_eq!(ledger.perceptions(), &vec![0, 1, 2, 3]);
    assert_eq!(ledger.predictions(), &vec![1, 2, 3, 4]);
}

#[test]
fn collect_never_grows_the_ledger() {
    let mut ledger: Ledger<u32> = Ledger::new();
    for tick in 0..100u32 {
        ledger.record(tick, tick);
        let keep_p: Vec<bool> = ledger.perceptions().iter().map(|v| v % 3 == 0).collect();
        let keep_q: Vec<bool> = ledger.predictions().iter().map(|v| v % 7 == 0).collect();
        ledger.collect(&keep_p, &keep_q);
    }
    assert_eq!(ledger.perceptions().len(), 34);
    assert_eq!(ledger.predictions().len(), 15);
    assert!(ledger.perceptions().len() + ledger.predictions().len() < 200);
}

#[test]
fn collect_is_idempotent() {
    let items = vec![5u32, 1, 9, 2, 7];
    let first: Vec<bool> = items.iter().map(|v| *v >= 5).collect();
    let once = retain_marked(items, &first);
    assert_eq!(once, vec![5, 9, 7]);
    let second: Vec<bool> = once.iter().map(|v| *v >= 5).collect();
    let twice = retain_marked(once.clone(), &second);
    assert_eq!(twice, once);
}

#[test]
fn tick_keeps_history_and_new_entry_only_if_it_passes() {
    let kept = retain_marked(vec![6u32, 8, 3], &vec![true, true, false]);
    assert_eq!(kept, vec![6, 8]);
    let kept = retain_marked(vec![6u32, 8, 9], &vec![true, true, true]);
    assert_eq!(kept, vec![6, 8, 9]);
}

#[test]
fn retain_with_no_marks_set_empties() {
    let kept = retain_marked(vec![1u8, 2, 3], &vec![false, false, false]);
    assert!(kept.is_empty());
}

#[test]
fn window_takes_most_recent_first() {
    assert_eq!(window_indices(5, 3), vec![4, 3, 2]);
    assert_eq!(window_indices(10, 1), vec![9]);
}

#[test]
fn window_wider_than_history_takes_all() {
    assert_eq!(window_indices(2, 3), vec![1, 0]);
    assert_eq!(window_indices(3, 10), vec![2, 1, 0]);
}

#[test]
fn window_is_empty_without_history_or_width() {
    assert!(window_indices(0, 3).is_empty());
    assert!(window_indices(5, 0).is_empty());
}

#[test]
fn pairs_of_three_rooms_in_scan_order() {
    assert_eq!(room_pairs(3), vec![(0, 1), (0, 2), (1, 2)]);
}

#[test]
fn no_pairs_for_zero_or_one_room() {
    assert!(room_pairs(0).is_empty());
    assert!(room_pairs(1).is_empty());
    assert_eq!(room_pairs(2), vec![(0, 1)]);
}

#[test]
fn pair_count_is_n_choose_two() {
    assert_eq!(room_pairs(5).len(), 10);
    assert_eq!(room_pairs(10).len(), 45);
    for (i, j) in room_pairs(10) {
        assert!(i < j && j < 10);
    }
}

#[test]
fn tally_counts_checks_and_violations() {
    let mut tally = ViolationTally::new();
    assert_eq!(tally.checked(), 0);
    assert_eq!(tally.violations(), 0);
    for k in 0..10u32 {
        tally.observe(k % 4 == 0);
    }
    assert_eq!(tally.checked(), 10);
    assert_eq!(tally.violations(), 3);
    assert!(tally.violations() <= tally.checked());
}

#[test]
fn total_room_ticks_multiplies() {
    assert_eq!(total_room_ticks(100, 5), Some(500));
    assert_eq!(total_room_ticks(10_000, 10), Some(100_000));
    assert_eq!(total_room_ticks(100, 0), Some(0));
}

#[test]
fn total_room_ticks_overflow_is_none() {
    assert_eq!(total_room_ticks(u64::MAX, 2), None);
    assert_eq!(total_room_ticks(u64::MAX, 1), Some(u64::MAX));
}

#[test]
fn positions_with_groups_by_key() {
    let dims = vec![8usize, 8, 16, 16, 32, 32, 8];
    assert_eq!(positions_with(&dims, 8), vec![0, 1, 6]);
    assert_eq!(positions_with(&dims, 32), vec![4, 5]);
    assert!(positions_with(&dims, 64).is_empty());
}
