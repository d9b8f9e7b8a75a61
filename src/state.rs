//! The ledger state: balances, bets, application totals, the pool, metadata,
//! earnings windows, the whitelist and the time registers, with their
//! point accessors.
use vstd::prelude::*;
use crate::table::{amount_of, has_key, lemma_upsert_lookup, lookup, upsert, without, Table};

verus! {

/// Balance a user starts with on first stake or first balance query.
pub const INITIAL_BALANCE: u64 = 100;

/// Largest bet a user may hold on one application when a stake is accepted.
pub const MAX_BET_PER_APP: u64 = 100;

/// Address seeded into the whitelist beside the owner.
pub const BOOTSTRAP_ADMIN: &'static str = "0xa0916f957038344afff8c117b0a568562f73f0f2";

/// Metadata of an application that can be bet on.
pub struct AppInfo {
    pub app_id: String,
    pub name: String,
    pub description: String,
    /// Microseconds.
    pub added_at: u64,
    pub is_active: bool,
}

/// One user's bet on one application.
pub struct UserBet {
    pub app_id: String,
    /// Logically unsigned; a negative value reads as 0.
    pub amount: i64,
    /// Microseconds of the last change.
    pub timestamp: u64,
}

/// Why an operation was turned down. Nothing changes when one is returned.
#[derive(PartialEq, Eq, Structural, Debug, Clone, Copy)]
pub enum Rejection {
    NotWhitelisted,
    InvalidAmount,
    InsufficientBalance,
    BetCapExceeded,
    InsufficientBet,
    TooEarly,
    DuplicateApplication,
}

pub struct EdgeState {
    pub user_balances: Table<u64>,
    pub user_bets: Table<Vec<UserBet>>,
    pub app_total_bets: Table<u64>,
    pub app_pool_contributions: Table<u64>,
    pub pool_amount: u64,
    pub last_settle_time: u64,
    pub owner: Option<String>,
    pub app_info: Table<AppInfo>,
    pub user_daily_earnings: Table<u64>,
    pub user_weekly_earnings: Table<u64>,
    pub user_monthly_earnings: Table<u64>,
    pub last_daily_reset: u64,
    pub last_weekly_reset: u64,
    pub last_monthly_reset: u64,
    pub whitelist: Table<bool>,
}

/// What an address looks like after case normalisation.
pub uninterp spec fn lower_of(s: Seq<char>) -> Seq<char>;

/// Relies on `str::to_lowercase`, which maps each character to its lowercase
/// form; the result depends on the characters alone.
#[verifier::external_body]
fn lowercase(s: &String) -> (r: String)
    ensures
        r@ == lower_of(s@),
{
    s.to_lowercase()
}

/// `i` is the first position of `list` that holds a bet on `app`.
pub open spec fn is_first_match(list: Seq<UserBet>, app: Seq<char>, i: int) -> bool {
    &&& 0 <= i < list.len()
    &&& list[i].app_id@ == app
    &&& forall|j: int| 0 <= j < i ==> (#[trigger] list[j]).app_id@ != app
}

/// The first position of `list` that holds a bet on `app`, or -1.
pub open spec fn first_match(list: Seq<UserBet>, app: Seq<char>) -> int {
    if exists|i: int| is_first_match(list, app, i) {
        choose|i: int| is_first_match(list, app, i)
    } else {
        -1
    }
}

/// A summed amount as read: negative reads as 0, and a sum beyond the largest
/// storable amount reads as that amount.
pub open spec fn read_amount(x: int) -> int {
    if x <= 0 {
        0
    } else if x > i64::MAX {
        i64::MAX as int
    } else {
        x
    }
}

/// Sum of the amounts of all records in `list` on `app`.
pub open spec fn raw_bet_sum(list: Seq<UserBet>, app: Seq<char>) -> int
    decreases list.len(),
{
    if list.len() == 0 {
        0
    } else {
        raw_bet_sum(list.drop_last(), app) + if list.last().app_id@ == app {
            list.last().amount as int
        } else {
            0int
        }
    }
}

/// The bet held in `list` on `app`: the sum of its records on `app`, read
/// through `read_amount`.
pub open spec fn bet_in_list(list: Seq<UserBet>, app: Seq<char>) -> int {
    read_amount(raw_bet_sum(list, app))
}

/// The bets of `owner` (empty if none).
pub open spec fn bets_of(bets: Seq<(String, Vec<UserBet>)>, owner: Seq<char>) -> Seq<UserBet> {
    match lookup(bets, owner) {
        Some(v) => v@,
        None => Seq::empty(),
    }
}

/// The bet of `owner` on `app`.
pub open spec fn user_bet_on(bets: Seq<(String, Vec<UserBet>)>, owner: Seq<char>, app: Seq<char>) -> int {
    bet_in_list(bets_of(bets, owner), app)
}

/// `list` after the bet on `app` is set to `amount` at time `ts`: the first
/// record on `app` takes the amount and any later record on `app` is zeroed,
/// or a record is appended when there is none.
pub open spec fn set_bet(list: Seq<UserBet>, app: String, amount: i64, ts: u64) -> Seq<UserBet> {
    let p = first_match(list, app@);
    if p >= 0 {
        Seq::new(
            list.len(),
            |i: int|
                if i == p {
                    UserBet { app_id: list[p].app_id, amount: amount, timestamp: ts }
                } else if list[i].app_id@ == app@ {
                    UserBet { app_id: list[i].app_id, amount: 0, timestamp: list[i].timestamp }
                } else {
                    list[i]
                },
        )
    } else {
        list.push(UserBet { app_id: app, amount: amount, timestamp: ts })
    }
}

/// The balance of `owner`, or 0 when it has none yet.
pub open spec fn balance_of(s: EdgeState, owner: Seq<char>) -> u64 {
    amount_of(s.user_balances@, owner)
}

pub open spec fn whitelisted(s: EdgeState, addr: Seq<char>) -> bool {
    lookup(s.whitelist@, lower_of(addr)) == Some(true)
}

pub proof fn lemma_first_match_at(list: Seq<UserBet>, app: Seq<char>, i: int)
    requires
        is_first_match(list, app, i),
    ensures
        first_match(list, app) == i,
{
    let c = choose|c: int| is_first_match(list, app, c);
    if c < i {
        assert(list[c].app_id@ == app);
    } else if c > i {
        assert(list[i].app_id@ != app);
    }
}

pub proof fn lemma_first_match_none(list: Seq<UserBet>, app: Seq<char>)
    requires
        forall|j: int| 0 <= j < list.len() ==> (#[trigger] list[j]).app_id@ != app,
    ensures
        first_match(list, app) == -1,
{
}

/// The position of the first bet on `app` in `list`.
pub fn find_bet(list: &Vec<UserBet>, app_id: &String) -> (r: Option<usize>)
    ensures
        match r {
            Some(i) => is_first_match(list@, app_id@, i as int) && first_match(list@, app_id@)
                == i,
            None => first_match(list@, app_id@) == -1,
        },
{
    let mut i: usize = 0;
    while i < list.len()
        invariant
            i <= list@.len(),
            forall|j: int| 0 <= j < i ==> (#[trigger] list@[j]).app_id@ != app_id@,
        decreases list@.len() - i,
    {
        if list[i].app_id == *app_id {
            proof {
                lemma_first_match_at(list@, app_id@, i as int);
            }
            return Some(i);
        }
        i = i + 1;
    }
    proof {
        lemma_first_match_none(list@, app_id@);
    }
    None
}

/// The bet held in `list` on `app_id`.
pub fn bet_in(list: &Vec<UserBet>, app_id: &String) -> (r: u64)
    ensures
        r == bet_in_list(list@, app_id@),
{
    let mut sum: i128 = 0;
    let mut i: usize = 0;
    while i < list.len()
        invariant
            i <= list@.len(),
            sum == raw_bet_sum(list@.subrange(0, i as int), app_id@),
            -(i * 0x8000_0000_0000_0000) <= sum <= i * 0x7fff_ffff_ffff_ffff,
        decreases list@.len() - i,
    {
        proof {
            assert(list@.subrange(0, i + 1).drop_last() =~= list@.subrange(0, i as int));
            assert(i + 1 <= usize::MAX);
            assert((i + 1) * 0x8000_0000_0000_0000 <= 0x8000_0000_0000_0000_0000_0000_0000_0000 - 1)
                by (nonlinear_arith)
                requires
                    i + 1 <= usize::MAX,
                    usize::MAX <= 0xffff_ffff_ffff_ffff,
            ;
        }
        if list[i].app_id == *app_id {
            sum = sum + list[i].amount as i128;
        }
        i = i + 1;
    }
    assert(list@.subrange(0, i as int) =~= list@);
    if sum <= 0 {
        0
    } else if sum > 0x7fff_ffff_ffff_ffff {
        0x7fff_ffff_ffff_ffff
    } else {
        sum as u64
    }
}

pub fn copy_user_bet(b: &UserBet) -> (r: UserBet)
    ensures
        r == *b,
{
    UserBet { app_id: b.app_id.clone(), amount: b.amount, timestamp: b.timestamp }
}

pub fn copy_app_info(i: &AppInfo) -> (r: AppInfo)
    ensures
        r == *i,
{
    AppInfo {
        app_id: i.app_id.clone(),
        name: i.name.clone(),
        description: i.description.clone(),
        added_at: i.added_at,
        is_active: i.is_active,
    }
}

pub fn copy_bets(list: &Vec<UserBet>) -> (r: Vec<UserBet>)
    ensures
        r@ == list@,
{
    let mut r: Vec<UserBet> = Vec::new();
    let mut i: usize = 0;
    while i < list.len()
        invariant
            i <= list@.len(),
            r@ == list@.subrange(0, i as int),
        decreases list@.len() - i,
    {
        r.push(copy_user_bet(&list[i]));
        i = i + 1;
        assert(r@ =~= list@.subrange(0, i as int));
    }
    assert(list@.subrange(0, list@.len() as int) =~= list@);
    r
}

impl EdgeState {
    /// Every table of the ledger has distinct keys.
    pub open spec fn wf(&self) -> bool {
        &&& self.user_balances.wf()
        &&& self.user_bets.wf()
        &&& self.app_total_bets.wf()
        &&& self.app_pool_contributions.wf()
        &&& self.app_info.wf()
        &&& self.user_daily_earnings.wf()
        &&& self.user_weekly_earnings.wf()
        &&& self.user_monthly_earnings.wf()
        &&& self.whitelist.wf()
    }

    /// An empty ledger: no users, no applications, an empty pool, all times 0.
    pub fn create_empty() -> (s: Self)
        ensures
            s.wf(),
            s.user_balances@.len() == 0,
            s.user_bets@.len() == 0,
            s.app_total_bets@.len() == 0,
            s.app_pool_contributions@.len() == 0,
            s.pool_amount == 0,
            s.last_settle_time == 0,
            s.owner is None,
            s.app_info@.len() == 0,
            s.user_daily_earnings@.len() == 0,
            s.user_weekly_earnings@.len() == 0,
            s.user_monthly_earnings@.len() == 0,
            s.last_daily_reset == 0,
            s.last_weekly_reset == 0,
            s.last_monthly_reset == 0,
            s.whitelist@.len() == 0,
    {
        EdgeState {
            user_balances: Table::new(),
            user_bets: Table::new(),
            app_total_bets: Table::new(),
            app_pool_contributions: Table::new(),
            pool_amount: 0,
            last_settle_time: 0,
            owner: None,
            app_info: Table::new(),
            user_daily_earnings: Table::new(),
            user_weekly_earnings: Table::new(),
            user_monthly_earnings: Table::new(),
            last_daily_reset: 0,
            last_weekly_reset: 0,
            last_monthly_reset: 0,
            whitelist: Table::new(),
        }
    }

    /// Whether `address`, case-normalised, is on the whitelist.
    pub fn is_whitelisted(&self, address: &String) -> (b: bool)
        requires
            self.wf(),
        ensures
            b == whitelisted(*self, address@),
    {
        let key = lowercase(address);
        match self.whitelist.get(&key) {
            Some(v) => *v,
            None => false,
        }
    }

    /// Records `owner` and whitelists it together with the bootstrap address.
    pub fn set_owner(&mut self, owner: String)
        requires
            old(self).wf(),
        ensures
            final(self).wf(),
            final(self).owner == Some(owner),
            whitelisted(*final(self), owner@),
            whitelisted(*final(self), BOOTSTRAP_ADMIN@),
            forall|a: Seq<char>|
                #![trigger lookup(final(self).whitelist@, a)]
                lookup(final(self).whitelist@, a) == if a == lower_of(owner@) || a == lower_of(
                    BOOTSTRAP_ADMIN@,
                ) {
                    Some(true)
                } else {
                    lookup(old(self).whitelist@, a)
                },
            *final(self) == (EdgeState {
                owner: final(self).owner,
                whitelist: final(self).whitelist,
                ..*old(self)
            }),
    {
        let owner_key = lowercase(&owner);
        self.owner = Some(owner);
        let ghost w0 = self.whitelist@;
        self.whitelist.insert(owner_key, true);
        let bootstrap = String::from_str(BOOTSTRAP_ADMIN);
        let bootstrap_key = lowercase(&bootstrap);
        let ghost w1 = self.whitelist@;
        self.whitelist.insert(bootstrap_key, true);
        proof {
            assert forall|a: Seq<char>| #[trigger]
                lookup(self.whitelist@, a) == if a == lower_of(owner@) || a == lower_of(
                    BOOTSTRAP_ADMIN@,
                ) {
                    Some(true)
                } else {
                    lookup(w0, a)
                } by {
                lemma_upsert_lookup(w0, owner_key, true, a);
                lemma_upsert_lookup(w1, bootstrap_key, true, a);
            }
            lemma_upsert_lookup(w0, owner_key, true, lower_of(owner@));
            lemma_upsert_lookup(w1, bootstrap_key, true, lower_of(owner@));
            lemma_upsert_lookup(w1, bootstrap_key, true, lower_of(BOOTSTRAP_ADMIN@));
        }
    }

    /// The balance of `owner`, 0 if it has none.
    pub fn get_user_balance(&self, owner: &String) -> (b: u64)
        requires
            self.wf(),
        ensures
            b == balance_of(*self, owner@),
    {
        match self.user_balances.get(owner) {
            Some(b) => *b,
            None => 0,
        }
    }

    /// Same as `get_user_balance`.
    pub fn get_user_points(&self, owner: &String) -> (b: u64)
        requires
            self.wf(),
        ensures
            b == balance_of(*self, owner@),
    {
        self.get_user_balance(owner)
    }

    /// Gives `owner` the starting balance if it has none yet.
    pub fn initialize_user_balance(&mut self, owner: &String)
        requires
            old(self).wf(),
        ensures
            final(self).wf(),
            final(self).user_balances@ == if has_key(old(self).user_balances@, owner@) {
                old(self).user_balances@
            } else {
                old(self).user_balances@.push((*owner, INITIAL_BALANCE))
            },
            *final(self) == (EdgeState { user_balances: final(self).user_balances, ..*old(self) }),
    {
        if !self.user_balances.contains_key(owner) {
            self.user_balances.insert(owner.clone(), INITIAL_BALANCE);
        }
    }

    /// The balance of `owner`, first giving it the starting balance if it has none.
    pub fn get_user_balance_with_initialization(&mut self, owner: &String) -> (b: u64)
        requires
            old(self).wf(),
        ensures
            final(self).wf(),
            b == if has_key(old(self).user_balances@, owner@) {
                balance_of(*old(self), owner@)
            } else {
                INITIAL_BALANCE
            },
            final(self).user_balances@ == if has_key(old(self).user_balances@, owner@) {
                old(self).user_balances@
            } else {
                old(self).user_balances@.push((*owner, INITIAL_BALANCE))
            },
            *final(self) == (EdgeState { user_balances: final(self).user_balances, ..*old(self) }),
    {
        match self.user_balances.get(owner) {
            Some(b) => *b,
            None => {
                self.user_balances.insert(owner.clone(), INITIAL_BALANCE);
                INITIAL_BALANCE
            },
        }
    }

    pub fn update_user_balance(&mut self, owner: &String, amount: u64)
        requires
            old(self).wf(),
        ensures
            final(self).wf(),
            final(self).user_balances@ == upsert(old(self).user_balances@, *owner, amount),
            *final(self) == (EdgeState { user_balances: final(self).user_balances, ..*old(self) }),
    {
        self.user_balances.insert(owner.clone(), amount);
    }

    /// Same as `update_user_balance`.
    pub fn update_user_points(&mut self, owner: &String, points: u64)
        requires
            old(self).wf(),
        ensures
            final(self).wf(),
            final(self).user_balances@ == upsert(old(self).user_balances@, *owner, points),
            *final(self) == (EdgeState { user_balances: final(self).user_balances, ..*old(self) }),
    {
        self.update_user_balance(owner, points)
    }

    /// The bet of `owner` on `app_id` (0 if none; a negative amount reads as 0).
    pub fn get_user_app_bet(&self, owner: &String, app_id: &String) -> (r: u64)
        requires
            self.wf(),
        ensures
            r == user_bet_on(self.user_bets@, owner@, app_id@),
    {
        match self.user_bets.get(owner) {
            Some(list) => bet_in(list, app_id),
            None => 0,
        }
    }

    /// All bets of `owner`, in the order they were first placed.
    pub fn get_all_user_bets(&self, owner: &String) -> (r: Vec<UserBet>)
        requires
            self.wf(),
        ensures
            r@ == bets_of(self.user_bets@, owner@),
    {
        match self.user_bets.get(owner) {
            Some(list) => copy_bets(list),
            None => Vec::new(),
        }
    }

    /// Sets the bet of `owner` on `app_id` to `amount` at time `timestamp`.
    pub fn update_user_bet(&mut self, owner: &String, app_id: String, amount: i64, timestamp: u64)
        requires
            old(self).wf(),
        ensures
            final(self).wf(),
            exists|v: Vec<UserBet>|
                #![trigger upsert(old(self).user_bets@, *owner, v)]
                v@ == set_bet(bets_of(old(self).user_bets@, owner@), app_id, amount, timestamp)
                    && final(self).user_bets@ == upsert(old(self).user_bets@, *owner, v),
            *final(self) == (EdgeState { user_bets: final(self).user_bets, ..*old(self) }),
    {
        let mut list: Vec<UserBet> = match self.user_bets.get(owner) {
            Some(l) => copy_bets(l),
            None => Vec::new(),
        };
        let ghost before = list@;
        assert(before == bets_of(self.user_bets@, owner@));
        match find_bet(&list, &app_id) {
            Some(p) => {
                let ghost target = set_bet(before, app_id, amount, timestamp);
                let id = list[p].app_id.clone();
                list.set(p, UserBet { app_id: id, amount, timestamp });
                let len = list.len();
                let mut j: usize = p + 1;
                while j < len
                    invariant
                        p < j <= list@.len(),
                        len == list@.len(),
                        list@.len() == before.len(),
                        is_first_match(before, app_id@, p as int),
                        first_match(before, app_id@) == p,
                        target == set_bet(before, app_id, amount, timestamp),
                        forall|k: int| 0 <= k < j ==> #[trigger] list@[k] == target[k],
                        forall|k: int| j <= k < list@.len() ==> #[trigger] list@[k] == before[k],
                    decreases list@.len() - j,
                {
                    if list[j].app_id == app_id {
                        let id = list[j].app_id.clone();
                        let ts = list[j].timestamp;
                        list.set(j, UserBet { app_id: id, amount: 0, timestamp: ts });
                    }
                    j = j + 1;
                }
                assert(list@ =~= target);
            },
            None => {
                list.push(UserBet { app_id, amount, timestamp });
                assert(list@ =~= set_bet(before, app_id, amount, timestamp));
            },
        }
        self.user_bets.insert(owner.clone(), list);
    }

    /// Appends a bet record for `owner` without merging it into an existing one.
    pub fn record_user_bet(&mut self, owner: &String, app_id: &String, amount: i64, timestamp: u64)
        requires
            old(self).wf(),
        ensures
            final(self).wf(),
            exists|v: Vec<UserBet>|
                #![trigger upsert(old(self).user_bets@, *owner, v)]
                v@ == bets_of(old(self).user_bets@, owner@).push(
                    UserBet { app_id: *app_id, amount: amount, timestamp: timestamp },
                ) && final(self).user_bets@ == upsert(old(self).user_bets@, *owner, v),
            *final(self) == (EdgeState { user_bets: final(self).user_bets, ..*old(self) }),
    {
        let mut list: Vec<UserBet> = match self.user_bets.get(owner) {
            Some(l) => copy_bets(l),
            None => Vec::new(),
        };
        list.push(UserBet { app_id: app_id.clone(), amount, timestamp });
        self.user_bets.insert(owner.clone(), list);
    }

    /// Drops the bet records of `owner` on `app_id`; drops `owner` when none is left.
    pub fn clear_user_bets_for_app(&mut self, owner: &String, app_id: &String)
        requires
            old(self).wf(),
        ensures
            final(self).wf(),
            ({
                let kept = bets_of(old(self).user_bets@, owner@).filter(
                    |b: UserBet| b.app_id@ != app_id@,
                );
                if kept.len() == 0 {
                    final(self).user_bets@ == without(old(self).user_bets@, owner@)
                } else {
                    exists|v: Vec<UserBet>|
                        #![trigger upsert(old(self).user_bets@, *owner, v)]
                        v@ == kept && final(self).user_bets@ == upsert(
                            old(self).user_bets@,
                            *owner,
                            v,
                        )
                }
            }),
            *final(self) == (EdgeState { user_bets: final(self).user_bets, ..*old(self) }),
    {
        let ghost all = bets_of(self.user_bets@, owner@);
        let mut kept: Vec<UserBet> = Vec::new();
        match self.user_bets.get(owner) {
            Some(list) => {
                let mut i: usize = 0;
                while i < list.len()
                    invariant
                        i <= list@.len(),
                        list@ == all,
                        kept@ == all.subrange(0, i as int).filter(
                            |b: UserBet| b.app_id@ != app_id@,
                        ),
                    decreases list@.len() - i,
                {
                    proof {
                        assert(all.subrange(0, i + 1) =~= all.subrange(0, i as int).push(
                            all[i as int],
                        ));
                        all.subrange(0, i as int).lemma_filter_push(
                            all[i as int],
                            |b: UserBet| b.app_id@ != app_id@,
                        );
                    }
                    if list[i].app_id != *app_id {
                        kept.push(copy_user_bet(&list[i]));
                    }
                    i = i + 1;
                }
                assert(all.subrange(0, all.len() as int) =~= all);
            },
            None => {
                assert(all =~= Seq::<UserBet>::empty());
                assert(all.filter(|b: UserBet| b.app_id@ != app_id@) =~= Seq::<UserBet>::empty());
            },
        }
        if kept.len() == 0 {
            self.user_bets.remove(owner);
        } else {
            self.user_bets.insert(owner.clone(), kept);
        }
    }

    /// The number of users with at least one bet record.
    pub fn get_active_users_count(&self) -> (n: u64)
        ensures
            n == active_users(self.user_bets@, self.user_bets@.len() as int),
    {
        let mut n: u64 = 0;
        let mut i: usize = 0;
        while i < self.user_bets.len()
            invariant
                i <= self.user_bets@.len(),
                n == active_users(self.user_bets@, i as int),
                n <= i,
            decreases self.user_bets@.len() - i,
        {
            if self.user_bets.value_at(i).len() > 0 {
                n = n + 1;
            }
            i = i + 1;
        }
        n
    }

    pub fn get_app_total_bet(&self, app_id: &String) -> (r: u64)
        requires
            self.wf(),
        ensures
            r == amount_of(self.app_total_bets@, app_id@),
    {
        match self.app_total_bets.get(app_id) {
            Some(v) => *v,
            None => 0,
        }
    }

    pub fn update_app_total_bet(&mut self, app_id: String, amount: u64)
        requires
            old(self).wf(),
        ensures
            final(self).wf(),
            final(self).app_total_bets@ == upsert(old(self).app_total_bets@, app_id, amount),
            *final(self) == (EdgeState { app_total_bets: final(self).app_total_bets, ..*old(self) }),
    {
        self.app_total_bets.insert(app_id, amount);
    }

    pub fn get_app_pool_contribution(&self, app_id: &String) -> (r: u64)
        requires
            self.wf(),
        ensures
            r == amount_of(self.app_pool_contributions@, app_id@),
    {
        match self.app_pool_contributions.get(app_id) {
            Some(v) => *v,
            None => 0,
        }
    }

    pub fn update_app_pool_contribution(&mut self, app_id: String, amount: u64)
        requires
            old(self).wf(),
        ensures
            final(self).wf(),
            final(self).app_pool_contributions@ == upsert(
                old(self).app_pool_contributions@,
                app_id,
                amount,
            ),
            *final(self) == (EdgeState { app_pool_contributions: final(self).app_pool_contributions, ..*old(self) }),
    {
        self.app_pool_contributions.insert(app_id, amount);
    }

    /// Every application's total bet, in table order.
    pub fn get_all_app_totals(&self) -> (r: Vec<(String, u64)>)
        ensures
            r@ == self.app_total_bets@,
    {
        let mut r: Vec<(String, u64)> = Vec::new();
        let mut i: usize = 0;
        while i < self.app_total_bets.len()
            invariant
                i <= self.app_total_bets@.len(),
                r@ == self.app_total_bets@.subrange(0, i as int),
            decreases self.app_total_bets@.len() - i,
        {
            r.push((self.app_total_bets.key_at(i).clone(), *self.app_total_bets.value_at(i)));
            i = i + 1;
            assert(r@ =~= self.app_total_bets@.subrange(0, i as int));
        }
        assert(self.app_total_bets@.subrange(0, i as int) =~= self.app_total_bets@);
        r
    }

    pub fn get_app_info(&self, app_id: &String) -> (r: Option<AppInfo>)
        requires
            self.wf(),
        ensures
            r == lookup(self.app_info@, app_id@),
    {
        match self.app_info.get(app_id) {
            Some(i) => Some(copy_app_info(i)),
            None => None,
        }
    }

    pub fn add_app_info(&mut self, app_id: String, app_info: AppInfo)
        requires
            old(self).wf(),
        ensures
            final(self).wf(),
            final(self).app_info@ == upsert(old(self).app_info@, app_id, app_info),
            *final(self) == (EdgeState { app_info: final(self).app_info, ..*old(self) }),
    {
        self.app_info.insert(app_id, app_info);
    }

    pub fn remove_app_info(&mut self, app_id: &String)
        requires
            old(self).wf(),
        ensures
            final(self).wf(),
            final(self).app_info@ == without(old(self).app_info@, app_id@),
            *final(self) == (EdgeState { app_info: final(self).app_info, ..*old(self) }),
    {
        self.app_info.remove(app_id);
    }

    pub fn get_pool_amount(&self) -> (r: u64)
        ensures
            r == self.pool_amount,
    {
        self.pool_amount
    }

    pub fn update_pool_amount(&mut self, amount: u64)
        ensures
            *final(self) == (EdgeState { pool_amount: amount, ..*old(self) }),
    {
        self.pool_amount = amount;
    }

    pub fn get_last_settle_time(&self) -> (r: u64)
        ensures
            r == self.last_settle_time,
    {
        self.last_settle_time
    }

    pub fn update_last_settle_time(&mut self, timestamp: u64)
        ensures
            *final(self) == (EdgeState { last_settle_time: timestamp, ..*old(self) }),
    {
        self.last_settle_time = timestamp;
    }

    pub fn get_owner(&self) -> (r: Option<String>)
        ensures
            r == self.owner,
    {
        match &self.owner {
            Some(o) => Some(o.clone()),
            None => None,
        }
    }
}

/// Number of the first `n` users of `bets` that hold at least one bet record.
pub open spec fn active_users(bets: Seq<(String, Vec<UserBet>)>, n: int) -> int
    decreases n,
{
    if n <= 0 {
        0
    } else {
        active_users(bets, n - 1) + if bets[n - 1].1@.len() > 0 {
            1int
        } else {
            0int
        }
    }
}

} // verus!
