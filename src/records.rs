use vstd::prelude::*;

verus! {

/// Category under which expenses without a group are counted.
pub const UNCLASSIFIED: &'static str = "unclassified";

/// Authority-assigned facts about an expense.
pub struct Metadata {
    /// Globally unique identifier, as the 128-bit value of a UUID.
    pub uid: u128,
    /// Moment of recording, in nanoseconds since the Unix epoch.
    pub time: i128,
    /// Owner of the expense; `None` stands for a local record.
    pub principal: Option<String>,
}

/// What the client states about an expense.
pub struct ClientData {
    /// Amount in the smallest currency unit.
    pub amount: u64,
    pub group: Option<String>,
    pub revoked: bool,
}

pub struct Expense {
    pub server: Metadata,
    pub client: ClientData,
}

/// The category an expense is counted under.
pub open spec fn category_of(c: ClientData) -> Seq<char> {
    match c.group {
        Some(g) => g@,
        None => UNCLASSIFIED@,
    }
}

fn clone_opt_string(s: &Option<String>) -> (r: Option<String>)
    ensures
        r == *s,
{
    match s {
        Some(g) => Some(g.clone()),
        None => None,
    }
}

impl Clone for Metadata {
    fn clone(&self) -> (r: Self)
        ensures
            r == *self,
    {
        Metadata { uid: self.uid, time: self.time, principal: clone_opt_string(&self.principal) }
    }
}

impl Clone for ClientData {
    fn clone(&self) -> (r: Self)
        ensures
            r == *self,
    {
        ClientData { amount: self.amount, group: clone_opt_string(&self.group), revoked: self.revoked }
    }
}

impl Clone for Expense {
    fn clone(&self) -> (r: Self)
        ensures
            r == *self,
    {
        Expense { server: self.server.clone(), client: self.client.clone() }
    }
}

impl ClientData {
    /// The category this expense is counted under.
    pub fn category(&self) -> (r: &str)
        ensures
            r@ == category_of(*self),
    {
        match &self.group {
            Some(g) => g.as_str(),
            None => UNCLASSIFIED,
        }
    }
}

/// Where a record sits in the store.
pub enum RecordViewKey {
    /// A record the authority confirmed: its time, then its identifier.
    Confirmed(i128, u128),
    /// A local draft, by its client alias.
    Provisional(u128),
}

/// Store order of keys: confirmed records by time then identifier, and every
/// provisional draft after all of them, by alias. Read backwards, the store
/// yields the freshly created drafts first and then the confirmed records
/// from the most recent on.
pub type SortKey = (u8, i128, u128);

/// The strict order std gives tuples of integers: lexicographic.
pub open spec fn key_lt(a: SortKey, b: SortKey) -> bool {
    a.0 < b.0 || (a.0 == b.0 && (a.1 < b.1 || (a.1 == b.1 && a.2 < b.2)))
}

impl RecordViewKey {
    pub open spec fn spec_sort_key(self) -> SortKey {
        match self {
            RecordViewKey::Confirmed(t, id) => (0u8, t, id),
            RecordViewKey::Provisional(alias) => (1u8, 0i128, alias),
        }
    }

    pub fn sort_key(&self) -> (r: SortKey)
        ensures
            r == self.spec_sort_key(),
    {
        match self {
            RecordViewKey::Confirmed(t, id) => (0, *t, *id),
            RecordViewKey::Provisional(alias) => (1, 0, *alias),
        }
    }
}

/// What the store holds for a record.
pub enum RecordViewValue {
    Confirmed(Expense),
    /// A draft and the local moment of its creation (Unix nanoseconds).
    Provisional(ClientData, i128),
}

/// One entry of a listing.
pub enum MayLoad {
    Confirmed(Expense),
    Provisional { data: ClientData, temp_time: i128 },
    /// A record known to exist from the lifetime count but not held locally.
    NotLoaded,
}

impl RecordViewValue {
    pub open spec fn spec_borrow(self) -> MayLoad {
        match self {
            RecordViewValue::Confirmed(c) => MayLoad::Confirmed(c),
            RecordViewValue::Provisional(data, temp_time) => MayLoad::Provisional { data, temp_time },
        }
    }

    /// The listing entry of this record.
    pub fn borrow(&self) -> (r: MayLoad)
        ensures
            r == self.spec_borrow(),
    {
        match self {
            RecordViewValue::Confirmed(c) => MayLoad::Confirmed(c.clone()),
            RecordViewValue::Provisional(data, temp_time) => MayLoad::Provisional {
                data: data.clone(),
                temp_time: *temp_time,
            },
        }
    }
}

} // verus!
