use minimax::{Score, StoredStats, TimedScore, TranspositionTable};

fn stats(index: usize, value: i32) -> StoredStats {
    StoredStats {
        index,
        score: TimedScore { score: Score::Heuristic(value), turns: 1 },
        nodes_visited: 10,
    }
}

#[test]
fn empty_table_misses() {
    let mut table = TranspositionTable::new(4);
    assert_eq!(table.get(7, 0), None);
}

#[test]
fn stored_result_comes_back() {
    let mut table = TranspositionTable::new(4);
    table.insert(7, stats(2, 5), 3);
    assert_eq!(table.get(7, 3), Some(stats(2, 5)));
    assert_eq!(table.get(7, 0), Some(stats(2, 5)));
    assert_eq!(table.get(8, 0), None);
}

#[test]
fn shallow_result_is_not_returned() {
    let mut table = TranspositionTable::new(4);
    table.insert(7, stats(0, 5), 3);
    assert_eq!(table.get(7, 4), None);
    assert_eq!(table.get(7, u32::MAX), None);
    assert_eq!(table.get(7, 3), Some(stats(0, 5)));
}

#[test]
fn deeper_result_replaces_shallower() {
    let mut table = TranspositionTable::new(4);
    table.insert(7, stats(0, 5), 3);
    table.insert(7, stats(1, 6), 4);
    assert_eq!(table.get(7, 4), Some(stats(1, 6)));
}

#[test]
fn equal_depth_replaces() {
    let mut table = TranspositionTable::new(4);
    table.insert(7, stats(0, 5), 3);
    table.insert(7, stats(1, 6), 3);
    assert_eq!(table.get(7, 3), Some(stats(1, 6)));
}

#[test]
fn shallower_result_does_not_replace_deeper() {
    let mut table = TranspositionTable::new(4);
    table.insert(7, stats(0, 5), 3);
    table.insert(7, stats(1, 6), 2);
    assert_eq!(table.get(7, 3), Some(stats(0, 5)));
    assert_eq!(table.get(7, 2), Some(stats(0, 5)));
}

#[test]
fn full_table_evicts_least_recently_used() {
    let mut table = TranspositionTable::new(2);
    table.insert(1, stats(0, 1), 1);
    table.insert(2, stats(0, 2), 1);
    table.insert(3, stats(0, 3), 1);
    assert_eq!(table.get(1, 0), None);
    assert_eq!(table.get(2, 0), Some(stats(0, 2)));
    assert_eq!(table.get(3, 0), Some(stats(0, 3)));
}

#[test]
fn a_hit_counts_as_use() {
    let mut table = TranspositionTable::new(2);
    table.insert(1, stats(0, 1), 1);
    table.insert(2, stats(0, 2), 1);
    assert_eq!(table.get(1, 1), Some(stats(0, 1)));
    table.insert(3, stats(0, 3), 1);
    assert_eq!(table.get(2, 0), None);
    assert_eq!(table.get(1, 0), Some(stats(0, 1)));
    assert_eq!(table.get(3, 0), Some(stats(0, 3)));
}

#[test]
fn a_lookup_that_is_too_deep_still_counts_as_use() {
    let mut table = TranspositionTable::new(2);
    table.insert(1, stats(0, 1), 1);
    table.insert(2, stats(0, 2), 1);
    assert_eq!(table.get(1, 9), None);
    table.insert(3, stats(0, 3), 1);
    assert_eq!(table.get(2, 0), None);
    assert_eq!(table.get(1, 0), Some(stats(0, 1)));
}

#[test]
fn refused_insert_does_not_count_as_use() {
    let mut table = TranspositionTable::new(2);
    table.insert(1, stats(0, 1), 5);
    table.insert(2, stats(0, 2), 5);
    table.insert(1, stats(1, 9), 2);
    table.insert(3, stats(0, 3), 1);
    assert_eq!(table.get(1, 0), None);
    assert_eq!(table.get(2, 0), Some(stats(0, 2)));
}

#[test]
fn replacing_a_key_evicts_nothing() {
    let mut table = TranspositionTable::new(2);
    table.insert(1, stats(0, 1), 1);
    table.insert(2, stats(0, 2), 1);
    table.insert(2, stats(1, 7), 1);
    assert_eq!(table.get(1, 0), Some(stats(0, 1)));
    assert_eq!(table.get(2, 0), Some(stats(1, 7)));
}

#[test]
fn capacity_one_keeps_the_latest() {
    let mut table = TranspositionTable::new(1);
    table.insert(1, stats(0, 1), 1);
    table.insert(2, stats(0, 2), 1);
    assert_eq!(table.get(1, 0), None);
    assert_eq!(table.get(2, 1), Some(stats(0, 2)));
}
