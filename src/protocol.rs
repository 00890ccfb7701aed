use vstd::prelude::*;

use crate::records::{ClientData, Expense};
use crate::stats::CachedStats;

verus! {

/// Messages from the authority to the client.
pub enum ClientboundUpdate {
    /// The authority revoked this expense.
    Revoked { expense: Expense },
    /// The authority stored this expense; `temp_alias` is the client alias of
    /// the draft it came from, if it came from this client.
    NewSpending { expense: Expense, temp_alias: u128 },
    /// A snapshot: lifetime `((total, alive), per-category sums)` and the
    /// recent confirmed expenses.
    InitStats { lifetime_stats: ((u64, usize), Vec<(String, u64)>), recent_expenses: Vec<Expense> },
}

/// Messages from the client to the authority.
pub enum ServerboundUpdate {
    Revoked { expense_id: u128 },
    MadeExpense { info: ClientData, temp_alias: u128 },
}

/// The authoritative side that a cache synchronizes against.
pub trait Upstream {
    /// Hands a message to the authority; never waits for it.
    fn submit(&mut self, d: ServerboundUpdate);

    /// Drains, in delivery order, the messages that arrived so far; never waits.
    fn sync(&mut self) -> Vec<ClientboundUpdate>;

    /// Lifetime stats, window stats, and at least the window's worth of the
    /// most recent confirmed expenses, oldest first.
    fn take_init(&mut self) -> Option<(CachedStats, CachedStats, Vec<Expense>)>;
}

} // verus!
