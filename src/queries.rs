//! Read-only views of the ledger: application rankings, earnings
//! leaderboards and per-user earnings.
use vstd::prelude::*;
use crate::ranking::{rank_descending, ranking_of};
use crate::settlement::{supporters, values_of};
use crate::state::{copy_app_info, AppInfo, EdgeState};
use crate::table::{amount_of, Table};

verus! {

/// One application in a ranking by total bet; `rank` counts from 1.
pub struct AppRanking {
    pub app_id: String,
    pub name: String,
    pub total_bet: u64,
    pub pool_contribution: u64,
    pub rank: u32,
    pub supporters: u32,
}

/// One user in an earnings leaderboard; `rank` counts from 1.
pub struct UserRanking {
    pub user: String,
    pub earnings: u64,
    pub rank: u32,
}

/// A user's earnings in the three windows.
#[derive(PartialEq, Eq, Structural, Debug, Clone, Copy)]
pub struct UserEarningsData {
    pub daily: u64,
    pub weekly: u64,
    pub monthly: u64,
}

pub open spec fn min_len(a: int, b: int) -> int {
    if a < b {
        a
    } else {
        b
    }
}

/// The first `limit` entries of `t` by descending value, ties in table order.
pub open spec fn leaderboard(t: Seq<(String, u64)>, limit: int) -> Seq<(String, u64)> {
    let r = ranking_of(values_of(t));
    Seq::new(min_len(limit, t.len() as int) as nat, |k: int| t[r[k] as int])
}

/// The total bet of each registered application, in metadata order.
pub open spec fn registered_totals(s: EdgeState) -> Seq<u64> {
    Seq::new(s.app_info@.len(), |i: int| amount_of(s.app_total_bets@, s.app_info@[i].0@))
}

/// `e` describes the application at position `k` of the ranking of `s`.
pub open spec fn ranking_entry(s: EdgeState, k: int, e: AppRanking) -> bool {
    let idx = ranking_of(registered_totals(s))[k] as int;
    let key = s.app_info@[idx].0;
    &&& e.app_id == key
    &&& e.name == s.app_info@[idx].1.name
    &&& e.total_bet == registered_totals(s)[idx]
    &&& e.pool_contribution == amount_of(s.app_pool_contributions@, key@)
    &&& e.rank == (k + 1) as u32
    &&& e.supporters == supporters(s.user_bets@, key@) as u32
}

/// The first `limit` entries of `t` by descending value, ties in table order.
fn top_entries(t: &Table<u64>, limit: usize) -> (r: Vec<(String, u64)>)
    ensures
        r@ == leaderboard(t@, limit as int),
{
    let n = t.len();
    let mut vals: Vec<u64> = Vec::new();
    let mut i: usize = 0;
    while i < n
        invariant
            i <= n,
            n == t@.len(),
            vals@ =~= values_of(t@).subrange(0, i as int),
        decreases n - i,
    {
        vals.push(*t.value_at(i));
        i = i + 1;
    }
    assert(vals@ =~= values_of(t@));
    let ranked = rank_descending(&vals);
    let m: usize = if limit < n {
        limit
    } else {
        n
    };
    let mut r: Vec<(String, u64)> = Vec::new();
    let mut k: usize = 0;
    while k < m
        invariant
            k <= m,
            m == min_len(limit as int, n as int),
            n == t@.len(),
            ranked@ == ranking_of(values_of(t@)),
            crate::ranking::is_ranking(values_of(t@), ranked@),
            r@ =~= leaderboard(t@, limit as int).subrange(0, k as int),
        decreases m - k,
    {
        let idx = ranked[k];
        r.push((t.key_at(idx).clone(), *t.value_at(idx)));
        k = k + 1;
    }
    r
}

/// Numbers leaderboard entries from 1.
pub fn to_user_rankings(entries: &Vec<(String, u64)>) -> (r: Vec<UserRanking>)
    requires
        entries@.len() <= u32::MAX,
    ensures
        r@.len() == entries@.len(),
        forall|k: int|
            0 <= k < r@.len() ==> (#[trigger] r@[k]).user == entries@[k].0 && r@[k].earnings
                == entries@[k].1 && r@[k].rank == k + 1,
{
    let mut r: Vec<UserRanking> = Vec::new();
    let mut k: usize = 0;
    while k < entries.len()
        invariant
            k <= entries@.len(),
            entries@.len() <= u32::MAX,
            r@.len() == k,
            forall|j: int|
                0 <= j < k ==> (#[trigger] r@[j]).user == entries@[j].0 && r@[j].earnings
                    == entries@[j].1 && r@[j].rank == j + 1,
        decreases entries@.len() - k,
    {
        r.push(
            UserRanking {
                user: entries[k].0.clone(),
                earnings: entries[k].1,
                rank: (k + 1) as u32,
            },
        );
        k = k + 1;
    }
    r
}

impl EdgeState {
    /// The `limit` users with the highest daily earnings.
    pub fn get_daily_leaderboard(&self, limit: usize) -> (r: Vec<(String, u64)>)
        ensures
            r@ == leaderboard(self.user_daily_earnings@, limit as int),
    {
        top_entries(&self.user_daily_earnings, limit)
    }

    /// The `limit` users with the highest weekly earnings.
    pub fn get_weekly_leaderboard(&self, limit: usize) -> (r: Vec<(String, u64)>)
        ensures
            r@ == leaderboard(self.user_weekly_earnings@, limit as int),
    {
        top_entries(&self.user_weekly_earnings, limit)
    }

    /// The `limit` users with the highest monthly earnings.
    pub fn get_monthly_leaderboard(&self, limit: usize) -> (r: Vec<(String, u64)>)
        ensures
            r@ == leaderboard(self.user_monthly_earnings@, limit as int),
    {
        top_entries(&self.user_monthly_earnings, limit)
    }

    /// The earnings of `user` in the three windows.
    pub fn get_user_earnings(&self, user: &String) -> (r: UserEarningsData)
        requires
            self.wf(),
        ensures
            r.daily == amount_of(self.user_daily_earnings@, user@),
            r.weekly == amount_of(self.user_weekly_earnings@, user@),
            r.monthly == amount_of(self.user_monthly_earnings@, user@),
    {
        UserEarningsData {
            daily: self.get_user_daily_earnings(user),
            weekly: self.get_user_weekly_earnings(user),
            monthly: self.get_user_monthly_earnings(user),
        }
    }

    /// The registered applications ranked by total bet, first `limit` only.
    pub fn get_top_apps(&self, limit: usize) -> (r: Vec<AppRanking>)
        requires
            self.wf(),
        ensures
            r@.len() == min_len(limit as int, self.app_info@.len() as int),
            forall|k: int| 0 <= k < r@.len() ==> ranking_entry(*self, k, #[trigger] r@[k]),
    {
        let n = self.app_info.len();
        let mut vals: Vec<u64> = Vec::new();
        let mut i: usize = 0;
        while i < n
            invariant
                i <= n,
                n == self.app_info@.len(),
                self.wf(),
                vals@ =~= registered_totals(*self).subrange(0, i as int),
            decreases n - i,
        {
            vals.push(self.get_app_total_bet(self.app_info.key_at(i)));
            i = i + 1;
        }
        assert(vals@ =~= registered_totals(*self));
        let ranked = rank_descending(&vals);
        let m: usize = if limit < n {
            limit
        } else {
            n
        };
        let mut r: Vec<AppRanking> = Vec::new();
        let mut k: usize = 0;
        while k < m
            invariant
                k <= m,
                m == min_len(limit as int, n as int),
                n == self.app_info@.len(),
                self.wf(),
                vals@ == registered_totals(*self),
                ranked@ == ranking_of(registered_totals(*self)),
                crate::ranking::is_ranking(registered_totals(*self), ranked@),
                r@.len() == k,
                forall|j: int| 0 <= j < k ==> ranking_entry(*self, j, #[trigger] r@[j]),
            decreases m - k,
        {
            let idx = ranked[k];
            let key = self.app_info.key_at(idx);
            let info = self.app_info.value_at(idx);
            let supporters = self.get_app_supporters_count(key);
            r.push(
                AppRanking {
                    app_id: key.clone(),
                    name: info.name.clone(),
                    total_bet: vals[idx],
                    pool_contribution: self.get_app_pool_contribution(key),
                    rank: (k as u64 + 1) as u32,
                    supporters: supporters as u32,
                },
            );
            k = k + 1;
        }
        r
    }

    /// All registered applications ranked by total bet.
    pub fn get_all_apps_for_betting(&self) -> (r: Vec<AppRanking>)
        requires
            self.wf(),
        ensures
            r@.len() == self.app_info@.len(),
            forall|k: int| 0 <= k < r@.len() ==> ranking_entry(*self, k, #[trigger] r@[k]),
    {
        self.get_top_apps(self.app_info.len())
    }

    /// The metadata of every registered application; when there is none, a
    /// single inactive placeholder record stamped with `now` says so.
    pub fn get_all_apps(&self, now: u64) -> (r: Vec<AppInfo>)
        ensures
            self.app_info@.len() > 0 ==> r@ == Seq::new(
                self.app_info@.len(),
                |i: int| self.app_info@[i].1,
            ),
            self.app_info@.len() == 0 ==> r@.len() == 1 && r@[0].app_id@ == "system-empty"@
                && r@[0].name@ == "System Message"@ && r@[0].description@
                == "No application data found. Please add your first application."@
                && r@[0].added_at == now && !r@[0].is_active,
    {
        let n = self.app_info.len();
        let mut r: Vec<AppInfo> = Vec::new();
        if n == 0 {
            r.push(
                AppInfo {
                    app_id: String::from_str("system-empty"),
                    name: String::from_str("System Message"),
                    description: String::from_str(
                        "No application data found. Please add your first application.",
                    ),
                    added_at: now,
                    is_active: false,
                },
            );
            return r;
        }
        let mut i: usize = 0;
        while i < n
            invariant
                i <= n,
                n == self.app_info@.len(),
                r@ =~= Seq::new(self.app_info@.len(), |j: int| self.app_info@[j].1).subrange(
                    0,
                    i as int,
                ),
            decreases n - i,
        {
            r.push(copy_app_info(self.app_info.value_at(i)));
            i = i + 1;
        }
        r
    }
}

} // verus!
