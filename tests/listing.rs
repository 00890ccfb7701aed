use std::cell::RefCell;
use std::rc::Rc;
use std::time::{SystemTime, UNIX_EPOCH};

use ledger_cache::db_view::{DbView, MONTH_LIKE};
use ledger_cache::protocol::{ClientboundUpdate, ServerboundUpdate, Upstream};
use ledger_cache::records::{ClientData, Expense, MayLoad, Metadata};
use ledger_cache::stats::CachedStats;

#[derive(Default)]
struct Wire {
    inbox: Vec<ClientboundUpdate>,
    init: Option<(CachedStats, CachedStats, Vec<Expense>)>,
}

#[derive(Clone, Default)]
struct Feed(Rc<RefCell<Wire>>);

impl Upstream for Feed {
    fn submit(&mut self, _d: ServerboundUpdate) {}
    fn sync(&mut self) -> Vec<ClientboundUpdate> {
        std::mem::take(&mut self.0.borrow_mut().inbox)
    }
    fn take_init(&mut self) -> Option<(CachedStats, CachedStats, Vec<Expense>)> {
        self.0.borrow_mut().init.take()
    }
}

impl Feed {
    fn deliver(&self, msg: ClientboundUpdate) {
        self.0.borrow_mut().inbox.push(msg);
    }
}

fn now_nanos() -> i128 {
    SystemTime::now().duration_since(UNIX_EPOCH).unwrap().as_nanos() as i128
}

const DAY: i128 = 86_400_000_000_000;

fn expense(amount: u64, group: &str, time: i128, uid: u128) -> Expense {
    Expense {
        server: Metadata { uid, time, principal: None },
        client: ClientData { amount, group: Some(group.to_string()), revoked: false },
    }
}

fn foreign(feed: &Feed, e: Expense) {
    feed.deliver(ClientboundUpdate::NewSpending { expense: e, temp_alias: u128::MAX });
}

fn describe(list: &[MayLoad]) -> Vec<String> {
    list.iter()
        .map(|m| match m {
            MayLoad::Confirmed(e) => format!("c{}", e.server.uid),
            MayLoad::Provisional { data, .. } => format!("p{}", data.amount),
            MayLoad::NotLoaded => "n".to_string(),
        })
        .collect()
}

fn seeded(alive: usize) -> (Feed, DbView<Feed>) {
    let feed = Feed::default();
    feed.0.borrow_mut().init = Some((
        CachedStats::new(((0, alive), vec![])),
        CachedStats::empty(),
        vec![],
    ));
    let view = DbView::with(feed.clone());
    (feed, view)
}

#[test]
fn window_length_is_thirty_days() {
    assert_eq!(MONTH_LIKE, 30 * DAY);
}

#[test]
fn listing_is_reverse_chronological_with_drafts_first() {
    let (feed, mut view) = seeded(0);
    let t = now_nanos();
    foreign(&feed, expense(1, "a", t - 3 * DAY, 3));
    foreign(&feed, expense(1, "a", t - DAY, 1));
    foreign(&feed, expense(1, "a", t - 2 * DAY, 2));
    view.insert_expense(ClientData { amount: 9, group: None, revoked: false });
    let list = view.load_last_spendings(10);
    assert_eq!(describe(&list), vec!["p9", "c1", "c2", "c3"]);
    let mut last_time = i128::MAX;
    for m in &list {
        if let MayLoad::Confirmed(e) = m {
            assert!(e.server.time <= last_time);
            last_time = e.server.time;
        }
    }
}

#[test]
fn equal_times_are_ordered_by_identifier() {
    let (feed, mut view) = seeded(0);
    let t = now_nanos();
    foreign(&feed, expense(1, "a", t, 5));
    foreign(&feed, expense(1, "a", t, 4));
    assert_eq!(describe(&view.load_last_spendings(2)), vec!["c5", "c4"]);
}

#[test]
fn range_addresses_the_same_listing() {
    let (feed, mut view) = seeded(0);
    let t = now_nanos();
    for uid in 1..=4u128 {
        foreign(&feed, expense(1, "a", t - (10 - uid as i128) * DAY, uid));
    }
    assert_eq!(describe(&view.load_some_spendings(1, 3)), vec!["c3", "c2"]);
    assert_eq!(describe(&view.load_some_spendings(3, 9)), vec!["c1"]);
    assert_eq!(describe(&view.load_some_spendings(2, 2)), Vec::<String>::new());
    assert_eq!(describe(&view.load_some_spendings(7, 9)), Vec::<String>::new());
}

#[test]
fn range_reaches_into_placeholders() {
    let (feed, mut view) = seeded(8);
    let t = now_nanos();
    foreign(&feed, expense(1, "a", t - DAY, 1));
    foreign(&feed, expense(1, "a", t, 2));
    assert_eq!(view.total_live_transactions(), 10);
    assert_eq!(describe(&view.load_some_spendings(1, 4)), vec!["c1", "n", "n"]);
    assert_eq!(describe(&view.load_some_spendings(8, 20)), vec!["n", "n"]);
    assert_eq!(view.load_last_spendings(100).len(), 10);
    assert_eq!(view.load_last_spendings(0).len(), 0);
}

#[test]
fn old_foreign_record_counts_in_lifetime_only() {
    let (feed, mut view) = seeded(0);
    let t = now_nanos();
    foreign(&feed, expense(300, "rent", t - 40 * DAY, 1));
    foreign(&feed, expense(50, "food", t - DAY, 2));
    assert_eq!(view.life_transactions_info(), (350, 2));
    assert_eq!(view.month_transactions_info(), (50, 1));
    assert_eq!(view.life_pie().to_vec(), vec![("rent".to_string(), 300), ("food".to_string(), 50)]);
    assert_eq!(view.month_pie().to_vec(), vec![("food".to_string(), 50)]);
}

#[test]
fn window_never_exceeds_lifetime_per_category() {
    let (feed, mut view) = seeded(0);
    let t = now_nanos();
    view.insert_expense(ClientData { amount: 70, group: Some("food".to_string()), revoked: false });
    foreign(&feed, expense(300, "food", t - 40 * DAY, 1));
    foreign(&feed, expense(20, "food", t - DAY, 2));
    feed.deliver(ClientboundUpdate::Revoked { expense: expense(20, "food", t - DAY, 2) });
    let life = view.life_pie().to_vec();
    let month = view.month_pie().to_vec();
    for (cat, amount) in &month {
        let in_life = life.iter().find(|(c, _)| c == cat).map(|(_, a)| *a).unwrap_or(0);
        assert!(*amount <= in_life);
    }
    assert_eq!(life, vec![("food".to_string(), 370)]);
    assert_eq!(month, vec![("food".to_string(), 70)]);
}

#[test]
fn revoking_an_old_record_leaves_the_window() {
    let (feed, mut view) = seeded(0);
    let t = now_nanos();
    let old = expense(300, "rent", t - 40 * DAY, 1);
    foreign(&feed, old.clone());
    foreign(&feed, expense(50, "rent", t, 2));
    feed.deliver(ClientboundUpdate::Revoked { expense: old });
    assert_eq!(view.life_transactions_info(), (50, 1));
    assert_eq!(view.month_transactions_info(), (50, 1));
}

#[test]
fn revoking_an_unheld_record_changes_nothing() {
    let (feed, mut view) = seeded(0);
    let t = now_nanos();
    foreign(&feed, expense(50, "rent", t, 2));
    feed.deliver(ClientboundUpdate::Revoked { expense: expense(50, "rent", t, 3) });
    assert_eq!(view.life_transactions_info(), (50, 1));
    assert_eq!(describe(&view.load_last_spendings(3)), vec!["c2"]);
}

#[test]
fn revocation_skips_a_scope_that_never_counted_the_category() {
    let feed = Feed::default();
    let t = now_nanos();
    let held = expense(40, "gift", t, 1);
    feed.0.borrow_mut().init = Some((
        CachedStats::new(((40, 1), vec![("gift".to_string(), 40)])),
        CachedStats::empty(),
        vec![held.clone()],
    ));
    let mut view = DbView::with(feed.clone());
    feed.deliver(ClientboundUpdate::Revoked { expense: held });
    assert_eq!(view.life_transactions_info(), (0, 0));
    assert_eq!(view.month_transactions_info(), (0, 0));
    assert!(view.month_pie().is_empty());
}

#[test]
fn confirmation_of_a_revoked_expense_is_ignored() {
    let (feed, mut view) = seeded(0);
    let mut e = expense(80, "food", now_nanos(), 1);
    e.client.revoked = true;
    foreign(&feed, e);
    assert_eq!(view.life_transactions_info(), (0, 0));
    assert!(view.load_last_spendings(1).is_empty());
}

#[test]
fn later_snapshot_is_ignored() {
    let (feed, mut view) = seeded(0);
    feed.deliver(ClientboundUpdate::InitStats {
        lifetime_stats: ((999, 9), vec![("x".to_string(), 999)]),
        recent_expenses: vec![expense(999, "x", now_nanos(), 1)],
    });
    assert_eq!(view.life_transactions_info(), (0, 0));
    assert!(view.load_last_spendings(1).is_empty());
}

#[test]
fn without_snapshot_the_cache_starts_empty() {
    let feed = Feed::default();
    let mut view = DbView::with(feed);
    assert_eq!(view.life_transactions_info(), (0, 0));
    assert_eq!(view.month_transactions_info(), (0, 0));
    assert!(view.life_pie().is_empty());
    assert!(view.load_last_spendings(4).is_empty());
}

#[test]
fn record_expense_returns_the_submission() {
    let (_feed, mut view) = seeded(0);
    let c = ClientData { amount: 12, group: Some("tea".to_string()), revoked: false };
    match view.record_expense(c, 77, 5) {
        ServerboundUpdate::MadeExpense { info, temp_alias } => {
            assert_eq!((info.amount, info.group.as_deref(), temp_alias), (12, Some("tea"), 77));
        }
        _ => panic!("expected a submission"),
    }
    match &view.load_last_spendings(1)[0] {
        MayLoad::Provisional { data, temp_time } => assert_eq!((data.amount, *temp_time), (12, 5)),
        _ => panic!("expected the draft"),
    }
}

#[test]
fn apply_updates_folds_in_order() {
    let (_feed, mut view) = seeded(0);
    let t = now_nanos();
    let c = ClientData { amount: 12, group: Some("tea".to_string()), revoked: false };
    view.record_expense(c, 77, t);
    let x = expense(12, "tea", t, 4);
    let msgs = vec![
        ClientboundUpdate::NewSpending { expense: x.clone(), temp_alias: 77 },
        ClientboundUpdate::Revoked { expense: x },
    ];
    view.apply_updates(&msgs, t - MONTH_LIKE);
    assert_eq!(view.life_transactions_info(), (0, 0));
    assert_eq!(view.month_transactions_info(), (0, 0));
}
