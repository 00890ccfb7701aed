use vstd::prelude::*;

use crate::records::{ClientData, Expense, category_of};

verus! {

/// Running totals of one scope: how many records are alive, what they sum
/// to, and the sum of each category in the order categories were first seen.
pub struct StatsView {
    pub alive: usize,
    pub total: u64,
    pub groups: Seq<(Seq<char>, u64)>,
}

/// `x` clamped into the range of `u64`.
pub open spec fn sat_u64(x: int) -> u64 {
    if x < 0 {
        0
    } else if x > u64::MAX {
        u64::MAX
    } else {
        x as u64
    }
}

/// `x` clamped into the range of `usize`.
pub open spec fn sat_usize(x: int) -> usize {
    if x < 0 {
        0
    } else if x > usize::MAX {
        usize::MAX
    } else {
        x as usize
    }
}

pub open spec fn has_group(g: Seq<(Seq<char>, u64)>, cat: Seq<char>) -> bool {
    exists|i: int| 0 <= i < g.len() && #[trigger] g[i].0 == cat
}

/// `i` is the first position of category `cat` in `g`.
pub open spec fn is_first_group(g: Seq<(Seq<char>, u64)>, cat: Seq<char>, i: int) -> bool {
    &&& 0 <= i < g.len()
    &&& g[i].0 == cat
    &&& forall|j: int| 0 <= j < i ==> #[trigger] g[j].0 != cat
}

pub open spec fn first_group(g: Seq<(Seq<char>, u64)>, cat: Seq<char>) -> int {
    choose|i: int| is_first_group(g, cat, i)
}

/// The amount counted under `cat`, zero where the category was never seen.
pub open spec fn group_amount(g: Seq<(Seq<char>, u64)>, cat: Seq<char>) -> u64 {
    if has_group(g, cat) {
        g[first_group(g, cat)].1
    } else {
        0
    }
}

/// The effect of counting `amount` and `d` records under `cat`: the
/// category is appended on first sight, and every figure saturates.
pub open spec fn raw_add_spec(s: StatsView, cat: Seq<char>, amount: int, d: int) -> StatsView {
    let g = if has_group(s.groups, cat) {
        s.groups
    } else {
        s.groups.push((cat, 0u64))
    };
    let i = first_group(g, cat);
    StatsView {
        alive: sat_usize(s.alive + d),
        total: sat_u64(s.total + amount),
        groups: g.update(i, (cat, sat_u64(g[i].1 + amount))),
    }
}

pub proof fn lemma_first_group_unique(g: Seq<(Seq<char>, u64)>, cat: Seq<char>, i: int)
    requires
        is_first_group(g, cat, i),
    ensures
        has_group(g, cat),
        first_group(g, cat) == i,
{
    let k = first_group(g, cat);
    assert(is_first_group(g, cat, k));
    if k < i {
        assert(g[k].0 != cat);
    } else if k > i {
        assert(g[i].0 != cat);
    }
}

/// Counting under `c` changes the amount of `c` alone, and that one saturates.
pub proof fn lemma_group_amount_after_add(s: StatsView, c: Seq<char>, amount: int, d: int, x: Seq<char>)
    requires
        amount < 0 ==> has_group(s.groups, c),
    ensures
        group_amount(raw_add_spec(s, c, amount, d).groups, x) == if x == c {
            sat_u64(group_amount(s.groups, c) + amount)
        } else {
            group_amount(s.groups, x)
        },
{
    let g = if has_group(s.groups, c) {
        s.groups
    } else {
        s.groups.push((c, 0u64))
    };
    let i = if has_group(s.groups, c) {
        first_group(s.groups, c)
    } else {
        s.groups.len() as int
    };
    if has_group(s.groups, c) {
        let w = choose|k: int| 0 <= k < s.groups.len() && #[trigger] s.groups[k].0 == c;
        lemma_has_first(s.groups, c, w);
        assert(is_first_group(g, c, i));
    } else {
        assert(is_first_group(g, c, i));
    }
    lemma_first_group_unique(g, c, i);
    let n = g.update(i, (c, sat_u64(g[i].1 + amount)));
    assert(raw_add_spec(s, c, amount, d).groups == n);
    assert forall|j: int| 0 <= j < n.len() implies #[trigger] n[j].0 == g[j].0 by {}
    if x == c {
        assert(is_first_group(n, c, i));
        lemma_first_group_unique(n, c, i);
    } else if has_group(s.groups, x) {
        let w = choose|k: int| 0 <= k < s.groups.len() && #[trigger] s.groups[k].0 == x;
        lemma_has_first(s.groups, x, w);
        let k = first_group(s.groups, x);
        assert(is_first_group(g, x, k));
        assert(is_first_group(n, x, k));
        lemma_first_group_unique(n, x, k);
    } else {
        assert forall|j: int| 0 <= j < n.len() implies #[trigger] n[j].0 != x by {
            if j < s.groups.len() {
                assert(s.groups[j].0 != x);
            }
        }
    }
}

/// A category present somewhere has a first position.
pub proof fn lemma_has_first(g: Seq<(Seq<char>, u64)>, c: Seq<char>, w: int)
    requires
        0 <= w < g.len(),
        g[w].0 == c,
    ensures
        is_first_group(g, c, first_group(g, c)),
    decreases w,
{
    if exists|j: int| 0 <= j < w && #[trigger] g[j].0 == c {
        let j = choose|j: int| 0 <= j < w && #[trigger] g[j].0 == c;
        lemma_has_first(g, c, j);
    } else {
        assert(is_first_group(g, c, w));
    }
}

/// No category appears twice.
pub open spec fn names_distinct(g: Seq<(Seq<char>, u64)>) -> bool {
    forall|i: int, j: int| 0 <= i < j < g.len() ==> #[trigger] g[i].0 != #[trigger] g[j].0
}

/// Counting keeps category names distinct.
pub proof fn lemma_raw_add_keeps_names_distinct(s: StatsView, c: Seq<char>, amount: int, d: int)
    requires
        names_distinct(s.groups),
    ensures
        names_distinct(raw_add_spec(s, c, amount, d).groups),
{
    let g = if has_group(s.groups, c) {
        s.groups
    } else {
        s.groups.push((c, 0u64))
    };
    if has_group(s.groups, c) {
        let w = choose|k: int| 0 <= k < s.groups.len() && #[trigger] s.groups[k].0 == c;
        lemma_has_first(s.groups, c, w);
    } else {
        assert(is_first_group(g, c, s.groups.len() as int));
        lemma_first_group_unique(g, c, s.groups.len() as int);
    }
    let i = first_group(g, c);
    let n = raw_add_spec(s, c, amount, d).groups;
    assert(names_distinct(g)) by {
        assert forall|a: int, b: int| 0 <= a < b < g.len() implies #[trigger] g[a].0 != #[trigger] g[b].0 by {
            if b == s.groups.len() {
                assert(s.groups[a].0 != c);
            }
        }
    }
    assert forall|a: int, b: int| 0 <= a < b < n.len() implies #[trigger] n[a].0 != #[trigger] n[b].0 by {
        assert(n[a].0 == g[a].0 && n[b].0 == g[b].0);
    }
}

/// Aggregate statistics of one scope (lifetime or rolling window).
pub struct CachedStats {
    pub records_alive: usize,
    pub group_spendings: Vec<(String, u64)>,
    pub total_spending: u64,
}

impl View for CachedStats {
    type V = StatsView;

    open spec fn view(&self) -> StatsView {
        StatsView {
            alive: self.records_alive,
            total: self.total_spending,
            groups: self.group_spendings@.map_values(|p: (String, u64)| (p.0@, p.1)),
        }
    }
}

fn sat_shift_u64(x: u64, amount: i128) -> (r: u64)
    requires
        -(u64::MAX as int) <= amount <= u64::MAX,
    ensures
        r == sat_u64(x + amount),
{
    if amount >= 0 {
        x.saturating_add(amount as u64)
    } else {
        x.saturating_sub((0 - amount) as u64)
    }
}

fn sat_shift_usize(x: usize, d: isize) -> (r: usize)
    ensures
        r == sat_usize(x + d),
{
    if d >= 0 {
        x.saturating_add(d as usize)
    } else {
        x.saturating_sub((0 - (d as i128)) as usize)
    }
}

impl CachedStats {
    pub open spec fn new_spec(records: ((u64, usize), Vec<(String, u64)>)) -> StatsView {
        StatsView {
            alive: records.0.1,
            total: records.0.0,
            groups: records.1@.map_values(|p: (String, u64)| (p.0@, p.1)),
        }
    }

    /// Builds the statistics of a snapshot: `((total, alive), per-category sums)`.
    pub fn new(records: ((u64, usize), Vec<(String, u64)>)) -> (r: Self)
        ensures
            r@ == Self::new_spec(records),
    {
        let ((total_spending, records_alive), group_spendings) = records;
        CachedStats { records_alive, group_spendings, total_spending }
    }

    /// Statistics of a scope that holds nothing.
    pub fn empty() -> (r: Self)
        ensures
            r@ == (StatsView { alive: 0, total: 0, groups: Seq::empty() }),
    {
        let r = CachedStats { records_alive: 0, group_spendings: Vec::new(), total_spending: 0 };
        assert(r@.groups =~= Seq::empty());
        r
    }

    /// Position of the first entry for `cat`, if any.
    pub fn find_group(&self, cat: &String) -> (r: Option<usize>)
        ensures
            match r {
                Some(i) => is_first_group(self@.groups, cat@, i as int),
                None => !has_group(self@.groups, cat@),
            },
    {
        let mut i: usize = 0;
        while i < self.group_spendings.len()
            invariant
                0 <= i <= self.group_spendings.len(),
                forall|j: int| 0 <= j < i ==> #[trigger] self@.groups[j].0 != cat@,
            decreases self.group_spendings.len() - i,
        {
            if self.group_spendings[i].0 == *cat {
                return Some(i);
            }
            i += 1;
        }
        None
    }

    /// Counts `amount` (possibly negative) and `d` records under `category`.
    fn shift(&mut self, category: &str, amount: i128, d: isize)
        requires
            -(u64::MAX as int) <= amount <= u64::MAX,
            amount < 0 || d < 0 ==> has_group(old(self)@.groups, category@),
        ensures
            final(self)@ == raw_add_spec(old(self)@, category@, amount as int, d as int),
    {
        let ghost s = self@;
        let cat = category.to_owned();
        let ghost g = if has_group(s.groups, cat@) {
            s.groups
        } else {
            s.groups.push((cat@, 0u64))
        };
        let idx = match self.find_group(&cat) {
            Some(i) => i,
            None => {
                let i = self.group_spendings.len();
                self.group_spendings.push((cat, 0));
                assert(self@.groups =~= g);
                i
            },
        };
        assert(self@.groups == g);
        proof {
            lemma_first_group_unique(g, category@, idx as int);
        }
        let cur = self.group_spendings[idx].1;
        let next = sat_shift_u64(cur, amount);
        self.group_spendings[idx].1 = next;
        self.records_alive = sat_shift_usize(self.records_alive, d);
        self.total_spending = sat_shift_u64(self.total_spending, amount);
        assert(self@.groups =~= g.update(idx as int, (category@, next)));
    }

    /// Counts `amount` and `d` records under `category`; negative values take
    /// back what was counted. Taking back from a category that was never
    /// counted is outside the contract.
    pub fn raw_add(&mut self, category: &str, amount: i64, d: isize)
        requires
            amount < 0 || d < 0 ==> has_group(old(self)@.groups, category@),
        ensures
            final(self)@ == raw_add_spec(old(self)@, category@, amount as int, d as int),
    {
        self.shift(category, amount as i128, d);
    }

    /// Counts one more record: the expense's amount under its category.
    pub fn add(&mut self, e: &Expense)
        ensures
            final(self)@ == raw_add_spec(old(self)@, category_of(e.client), e.client.amount as int, 1),
    {
        self.add_client(&e.client);
    }

    /// Counts one more record with client data `c`.
    pub fn add_client(&mut self, c: &ClientData)
        ensures
            final(self)@ == raw_add_spec(old(self)@, category_of(*c), c.amount as int, 1),
    {
        self.shift(c.category(), c.amount as i128, 1);
    }

    /// Whether `category` was counted here.
    pub fn has_category(&self, category: &str) -> (r: bool)
        ensures
            r == has_group(self@.groups, category@),
    {
        let cat = category.to_owned();
        self.find_group(&cat).is_some()
    }

    /// Takes back a record counted by `add`.
    pub fn sub(&mut self, e: &Expense)
        requires
            has_group(old(self)@.groups, category_of(e.client)),
        ensures
            final(self)@ == raw_add_spec(
                old(self)@,
                category_of(e.client),
                -(e.client.amount as int),
                -1,
            ),
    {
        self.shift(e.client.category(), 0 - (e.client.amount as i128), -1);
    }
}

} // verus!
