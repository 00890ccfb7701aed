use ledger_cache::records::{ClientData, Expense, Metadata, UNCLASSIFIED};
use ledger_cache::stats::CachedStats;

fn expense(amount: u64, group: Option<&str>) -> Expense {
    Expense {
        server: Metadata { uid: 1, time: 0, principal: None },
        client: ClientData { amount, group: group.map(|g| g.to_string()), revoked: false },
    }
}

#[test]
fn categories_keep_first_sight_order() {
    let mut s = CachedStats::empty();
    s.raw_add("food", 500, 1);
    s.raw_add("transport", 200, 1);
    s.raw_add("food", 50, 1);
    assert_eq!(s.records_alive, 3);
    assert_eq!(s.total_spending, 750);
    assert_eq!(
        s.group_spendings,
        vec![("food".to_string(), 550), ("transport".to_string(), 200)]
    );
}

#[test]
fn negative_add_takes_back() {
    let mut s = CachedStats::empty();
    s.raw_add("food", 500, 1);
    s.raw_add("food", 200, 1);
    s.raw_add("food", -500, -1);
    assert_eq!((s.total_spending, s.records_alive), (200, 1));
    assert_eq!(s.group_spendings, vec![("food".to_string(), 200)]);
}

#[test]
fn figures_saturate_at_zero() {
    let mut s = CachedStats::empty();
    s.raw_add("food", 5, 1);
    s.raw_add("food", -10, -2);
    assert_eq!((s.total_spending, s.records_alive), (0, 0));
    assert_eq!(s.group_spendings, vec![("food".to_string(), 0)]);
}

#[test]
fn figures_saturate_at_the_top() {
    let mut s = CachedStats::new(((u64::MAX - 1, 1), vec![("food".to_string(), u64::MAX - 1)]));
    s.raw_add("food", 10, 1);
    assert_eq!(s.total_spending, u64::MAX);
    assert_eq!(s.group_spendings, vec![("food".to_string(), u64::MAX)]);
}

#[test]
fn add_and_sub_use_the_expense_category() {
    let mut s = CachedStats::empty();
    s.add(&expense(300, None));
    s.add(&expense(100, Some("rent")));
    assert_eq!(
        s.group_spendings,
        vec![(UNCLASSIFIED.to_string(), 300), ("rent".to_string(), 100)]
    );
    s.sub(&expense(300, None));
    assert_eq!((s.total_spending, s.records_alive), (100, 1));
    assert_eq!(s.group_spendings[0], (UNCLASSIFIED.to_string(), 0));
}

#[test]
fn add_counts_amounts_beyond_the_signed_range() {
    let mut s = CachedStats::empty();
    let big = (i64::MAX as u64) + 10;
    s.add(&expense(big, Some("house")));
    assert_eq!(s.total_spending, big);
    s.sub(&expense(big, Some("house")));
    assert_eq!((s.total_spending, s.records_alive), (0, 0));
}

#[test]
fn snapshot_stats_are_taken_as_given() {
    let s = CachedStats::new(((30, 2), vec![("food".to_string(), 10), ("rent".to_string(), 20)]));
    assert_eq!((s.total_spending, s.records_alive), (30, 2));
    assert_eq!(s.find_group(&"rent".to_string()), Some(1));
    assert_eq!(s.find_group(&"toys".to_string()), None);
    assert!(s.has_category("food"));
    assert!(!s.has_category("toys"));
}

#[test]
fn lookup_finds_the_first_duplicate() {
    let s = CachedStats::new(((3, 2), vec![("a".to_string(), 1), ("a".to_string(), 2)]));
    assert_eq!(s.find_group(&"a".to_string()), Some(0));
}
