use ledger_cache::db_view::{init_data_from, DbView};
use ledger_cache::protocol::{ClientboundUpdate, ServerboundUpdate, Upstream};
use ledger_cache::pseudo_upstream::PseudoUpstream;
use ledger_cache::records::{ClientData, Expense, MayLoad, Metadata};

fn draft(amount: u64, group: &str) -> ClientData {
    ClientData { amount, group: Some(group.to_string()), revoked: false }
}

#[test]
fn pseudo_upstream_confirms_in_order() {
    let mut up = PseudoUpstream::new();
    up.submit(ServerboundUpdate::MadeExpense { info: draft(5, "a"), temp_alias: 11 });
    up.submit(ServerboundUpdate::MadeExpense { info: draft(7, "b"), temp_alias: 12 });
    let msgs = up.sync();
    assert_eq!(msgs.len(), 2);
    let mut uids = vec![];
    for (msg, (alias, amount)) in msgs.iter().zip([(11u128, 5u64), (12, 7)]) {
        match msg {
            ClientboundUpdate::NewSpending { expense, temp_alias } => {
                assert_eq!(*temp_alias, alias);
                assert_eq!(expense.client.amount, amount);
                assert!(expense.server.principal.is_none());
                uids.push(expense.server.uid);
            }
            _ => panic!("expected a confirmation"),
        }
    }
    assert_ne!(uids[0], uids[1]);
    assert!(up.sync().is_empty());
}

#[test]
fn pseudo_upstream_reports_each_revocation_once() {
    let mut up = PseudoUpstream::new();
    up.submit(ServerboundUpdate::MadeExpense { info: draft(5, "a"), temp_alias: 11 });
    let uid = match &up.sync()[0] {
        ClientboundUpdate::NewSpending { expense, .. } => expense.server.uid,
        _ => panic!("expected a confirmation"),
    };
    up.submit(ServerboundUpdate::Revoked { expense_id: uid });
    up.submit(ServerboundUpdate::Revoked { expense_id: uid });
    up.submit(ServerboundUpdate::Revoked { expense_id: uid.wrapping_add(1) });
    let msgs = up.sync();
    assert_eq!(msgs.len(), 1);
    match &msgs[0] {
        ClientboundUpdate::Revoked { expense } => assert_eq!((expense.server.uid, expense.client.amount), (uid, 5)),
        _ => panic!("expected a revocation"),
    }
}

#[test]
fn cache_round_trip_through_pseudo_upstream() {
    let mut view = DbView::with(PseudoUpstream::new());
    assert_eq!(view.life_transactions_info(), (0, 0));
    view.insert_expense(draft(100, "food"));
    view.insert_expense(draft(40, "fun"));
    assert_eq!(view.life_transactions_info(), (140, 2));
    let list = view.load_last_spendings(2);
    let uid = match &list[..] {
        [MayLoad::Confirmed(a), MayLoad::Confirmed(b)] => {
            assert_eq!(a.client.amount + b.client.amount, 140);
            a.server.uid
        }
        _ => panic!("expected two confirmed records"),
    };
    view.revoke(uid);
    assert_eq!(view.total_live_transactions(), 1);
    assert_eq!(view.load_last_spendings(5).len(), 1);
}

#[test]
fn init_data_counts_the_window_from_recent_expenses() {
    let e = |uid: u128, amount: u64, g: &str| Expense {
        server: Metadata { uid, time: uid as i128, principal: None },
        client: draft(amount, g),
    };
    let (life, month, recent) = init_data_from(
        ((1000, 9), vec![("food".to_string(), 600), ("rent".to_string(), 400)]),
        vec![e(1, 10, "rent"), e(2, 20, "food"), e(3, 5, "rent")],
    );
    assert_eq!((life.total_spending, life.records_alive), (1000, 9));
    assert_eq!((month.total_spending, month.records_alive), (35, 3));
    assert_eq!(month.group_spendings, vec![("rent".to_string(), 15), ("food".to_string(), 20)]);
    assert_eq!(recent.len(), 3);
}
