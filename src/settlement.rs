//! Settlement: the earnings-window resets, the ranking of applications, the
//! weighted reward of each ranked application, its pro-rata split among the
//! bettors, and the rate-limited settle operation.
use vstd::prelude::*;
use crate::ranking::{rank_descending, ranking_of};
use crate::rewards::{
    app_reward, app_reward_spec, bonus_percent_spec, distribution_amount, distribution_spec,
    lemma_pro_rata_within_reward, lemma_sum_amounts_bounds, pro_rata_shares, pro_rata_spec,
    share_spec, sum_amounts, weight_spec, TOP_APPS,
};
use crate::state::{bet_in, bet_in_list, whitelisted, EdgeState, Rejection, UserBet};
use crate::table::{amount_of, has_key, keys_distinct, lemma_upsert_lookup, lookup, upsert, Table};

verus! {

pub const ONE_DAY_MICROS: u64 = 86_400_000_000;

pub const ONE_WEEK_MICROS: u64 = 604_800_000_000;

pub const THIRTY_DAYS_MICROS: u64 = 2_592_000_000_000;

/// Minimum time between two settlements.
pub const MIN_SETTLE_INTERVAL_MICROS: u64 = 60_000_000;

/// Time from `since` to `now`, 0 if `now` is earlier.
pub open spec fn elapsed(since: u64, now: u64) -> int {
    now.saturating_sub(since) as int
}

/// A window last reset at `last` is due for a reset at `now`.
pub open spec fn reset_due(last: u64, now: u64, period: u64) -> bool {
    elapsed(last, now) >= period
}

/// `post` is `pre` after the reset pass at `now`: each due window is emptied
/// and stamped with `now`; everything else stays.
pub open spec fn resets_applied(pre: EdgeState, post: EdgeState, now: u64) -> bool {
    &&& if reset_due(pre.last_daily_reset, now, ONE_DAY_MICROS) {
        post.user_daily_earnings@.len() == 0 && post.last_daily_reset == now
    } else {
        post.user_daily_earnings == pre.user_daily_earnings && post.last_daily_reset
            == pre.last_daily_reset
    }
    &&& if reset_due(pre.last_weekly_reset, now, ONE_WEEK_MICROS) {
        post.user_weekly_earnings@.len() == 0 && post.last_weekly_reset == now
    } else {
        post.user_weekly_earnings == pre.user_weekly_earnings && post.last_weekly_reset
            == pre.last_weekly_reset
    }
    &&& if reset_due(pre.last_monthly_reset, now, THIRTY_DAYS_MICROS) {
        post.user_monthly_earnings@.len() == 0 && post.last_monthly_reset == now
    } else {
        post.user_monthly_earnings == pre.user_monthly_earnings && post.last_monthly_reset
            == pre.last_monthly_reset
    }
    &&& post.user_balances == pre.user_balances
    &&& post.user_bets == pre.user_bets
    &&& post.app_total_bets == pre.app_total_bets
    &&& post.app_pool_contributions == pre.app_pool_contributions
    &&& post.pool_amount == pre.pool_amount
    &&& post.last_settle_time == pre.last_settle_time
    &&& post.owner == pre.owner
    &&& post.app_info == pre.app_info
    &&& post.whitelist == pre.whitelist
}

/// The users holding a positive bet on `app`, with that bet, in table order.
pub open spec fn app_bettors(bets: Seq<(String, Vec<UserBet>)>, app: Seq<char>) -> Seq<(String, u64)>
    decreases bets.len(),
{
    if bets.len() == 0 {
        Seq::empty()
    } else {
        let rest = app_bettors(bets.drop_last(), app);
        let b = bet_in_list(bets.last().1@, app);
        if b > 0 {
            rest.push((bets.last().0, b as u64))
        } else {
            rest
        }
    }
}

/// `list` holds a positive bet record on `app`.
pub open spec fn supports(list: Seq<UserBet>, app: Seq<char>) -> bool {
    exists|i: int| 0 <= i < list.len() && (#[trigger] list[i]).app_id@ == app && list[i].amount > 0
}

/// The number of users holding a positive bet record on `app`.
pub open spec fn supporters(bets: Seq<(String, Vec<UserBet>)>, app: Seq<char>) -> int
    decreases bets.len(),
{
    if bets.len() == 0 {
        0
    } else {
        supporters(bets.drop_last(), app) + if supports(bets.last().1@, app) {
            1int
        } else {
            0int
        }
    }
}

/// `list` holds a record on `app` last changed at least `min_age` before `now`.
pub open spec fn has_aged_record(list: Seq<UserBet>, app: Seq<char>, now: u64, min_age: u64) -> bool {
    exists|i: int|
        0 <= i < list.len() && (#[trigger] list[i]).app_id@ == app && elapsed(list[i].timestamp, now)
            >= min_age
}

/// The bettors of `app` whose record on it is at least `min_age` old, in table order.
pub open spec fn aged_bettors(
    bets: Seq<(String, Vec<UserBet>)>,
    app: Seq<char>,
    now: u64,
    min_age: u64,
) -> Seq<(String, u64)>
    decreases bets.len(),
{
    if bets.len() == 0 {
        Seq::empty()
    } else {
        let rest = aged_bettors(bets.drop_last(), app, now, min_age);
        let b = bet_in_list(bets.last().1@, app);
        if b > 0 && has_aged_record(bets.last().1@, app, now, min_age) {
            rest.push((bets.last().0, b as u64))
        } else {
            rest
        }
    }
}

/// The totals of `t`, in table order.
pub open spec fn values_of(t: Seq<(String, u64)>) -> Seq<u64> {
    Seq::new(t.len(), |i: int| t[i].1)
}

/// How many of `n` ranked applications take part in a settlement.
pub open spec fn top_count(n: int) -> int {
    if n < TOP_APPS {
        n
    } else {
        TOP_APPS as int
    }
}

/// Sum of the totals of the first `m` ranked applications.
pub open spec fn top_sum(totals: Seq<(String, u64)>, r: Seq<usize>, m: int) -> int
    decreases m,
{
    if m <= 0 {
        0
    } else {
        top_sum(totals, r, m - 1) + totals[r[m - 1] as int].1
    }
}

/// The amount a settlement distributes: 10% of the top applications' combined stake.
pub open spec fn settle_distribution(totals: Seq<(String, u64)>) -> int {
    let r = ranking_of(values_of(totals));
    distribution_spec(top_sum(totals, r, top_count(totals.len() as int)))
}

/// Whole days from `then` to `now`.
pub open spec fn days_since(now: u64, then: u64) -> int {
    elapsed(then, now) / (ONE_DAY_MICROS as int)
}

/// The credits owed to the eligible bettors of the application at rank `k`.
pub open spec fn rank_credits(
    s: EdgeState,
    now: u64,
    min_age: u64,
    dist: int,
    r: Seq<usize>,
    k: int,
) -> Seq<(String, u64)> {
    let entry = s.app_total_bets@[r[k] as int];
    let bettors = aged_bettors(s.user_bets@, entry.0@, now, min_age);
    if entry.1 > 0 && bettors.len() > 0 {
        match lookup(s.app_info@, entry.0@) {
            Some(info) => pro_rata_spec(
                app_reward_spec(
                    dist,
                    k,
                    supporters(s.user_bets@, entry.0@),
                    days_since(now, info.added_at),
                ),
                bettors,
            ),
            None => Seq::empty(),
        }
    } else {
        Seq::empty()
    }
}

/// The credits owed over the first `m` ranks, rank by rank.
pub open spec fn credits_upto(
    s: EdgeState,
    now: u64,
    min_age: u64,
    dist: int,
    r: Seq<usize>,
    m: int,
) -> Seq<(String, u64)>
    decreases m,
{
    if m <= 0 {
        Seq::empty()
    } else {
        credits_upto(s, now, min_age, dist, r, m - 1) + rank_credits(s, now, min_age, dist, r, m - 1)
    }
}

/// Some application among the first `m` ranks has a positive total and an eligible bettor.
pub open spec fn eligible_upto(s: EdgeState, now: u64, min_age: u64, r: Seq<usize>, m: int) -> bool
    decreases m,
{
    if m <= 0 {
        false
    } else {
        eligible_upto(s, now, min_age, r, m - 1) || {
            let entry = s.app_total_bets@[r[m - 1] as int];
            entry.1 > 0 && aged_bettors(s.user_bets@, entry.0@, now, min_age).len() > 0
        }
    }
}

/// All credits of a settlement of `s` at `now` that pays bets at least
/// `min_age` old, in the order they are paid.
pub open spec fn settlement_credits(s: EdgeState, now: u64, min_age: u64) -> Seq<(String, u64)> {
    let dist = settle_distribution(s.app_total_bets@);
    if dist > 0 {
        let r = ranking_of(values_of(s.app_total_bets@));
        credits_upto(s, now, min_age, dist, r, top_count(s.app_total_bets@.len() as int))
    } else {
        Seq::empty()
    }
}

/// Whether such a settlement found at least one application with an eligible bettor.
pub open spec fn settlement_eligible(s: EdgeState, now: u64, min_age: u64) -> bool {
    let dist = settle_distribution(s.app_total_bets@);
    dist > 0 && eligible_upto(
        s,
        now,
        min_age,
        ranking_of(values_of(s.app_total_bets@)),
        top_count(s.app_total_bets@.len() as int),
    )
}

/// `t` after each credit is added (saturating) to its user's entry, in order.
pub open spec fn apply_credits(t: Seq<(String, u64)>, c: Seq<(String, u64)>) -> Seq<(String, u64)>
    decreases c.len(),
{
    if c.len() == 0 {
        t
    } else {
        let t1 = apply_credits(t, c.drop_last());
        let e = c.last();
        upsert(t1, e.0, amount_of(t1, e.0@).saturating_add(e.1))
    }
}

/// Sum of the credits in `c` addressed to `k`.
pub open spec fn credited_to(c: Seq<(String, u64)>, k: Seq<char>) -> int
    decreases c.len(),
{
    if c.len() == 0 {
        0
    } else {
        credited_to(c.drop_last(), k) + if c.last().0@ == k {
            c.last().1 as int
        } else {
            0int
        }
    }
}

/// `x` capped at the largest `u64`.
pub open spec fn saturated(x: int) -> int {
    if x > u64::MAX {
        u64::MAX as int
    } else {
        x
    }
}

/// Applying credits adds to each user's entry the sum of that user's
/// credits, capped at the largest `u64`.
pub proof fn lemma_apply_credits_amount(t: Seq<(String, u64)>, c: Seq<(String, u64)>, k: Seq<char>)
    requires
        keys_distinct(t),
    ensures
        keys_distinct(apply_credits(t, c)),
        amount_of(apply_credits(t, c), k) == saturated(amount_of(t, k) + credited_to(c, k)),
    decreases c.len(),
{
    if c.len() > 0 {
        let t1 = apply_credits(t, c.drop_last());
        let e = c.last();
        lemma_apply_credits_amount(t, c.drop_last(), k);
        lemma_apply_credits_amount(t, c.drop_last(), e.0@);
        lemma_upsert_lookup(t1, e.0, amount_of(t1, e.0@).saturating_add(e.1), k);
    }
}

/// `post` is `mid` after the distribution step of a settlement at `now`
/// that pays bets at least `min_age` old.
pub open spec fn distribution_applied(mid: EdgeState, post: EdgeState, now: u64, min_age: u64) -> bool {
    if mid.pool_amount == 0 {
        post == mid
    } else {
        let credits = settlement_credits(mid, now, min_age);
        let dist = settle_distribution(mid.app_total_bets@);
        &&& post.user_balances@ == apply_credits(mid.user_balances@, credits)
        &&& post.user_daily_earnings@ == apply_credits(mid.user_daily_earnings@, credits)
        &&& post.user_weekly_earnings@ == apply_credits(mid.user_weekly_earnings@, credits)
        &&& post.user_monthly_earnings@ == apply_credits(mid.user_monthly_earnings@, credits)
        &&& post.pool_amount == if settlement_eligible(mid, now, min_age) && dist
            <= mid.pool_amount {
            (mid.pool_amount - dist) as u64
        } else {
            mid.pool_amount
        }
        &&& post.last_settle_time == now
        &&& post.user_bets == mid.user_bets
        &&& post.app_total_bets == mid.app_total_bets
        &&& post.app_pool_contributions == mid.app_pool_contributions
        &&& post.owner == mid.owner
        &&& post.app_info == mid.app_info
        &&& post.last_daily_reset == mid.last_daily_reset
        &&& post.last_weekly_reset == mid.last_weekly_reset
        &&& post.last_monthly_reset == mid.last_monthly_reset
        &&& post.whitelist == mid.whitelist
    }
}

/// `post` is `pre` after a full settlement at `now`: resets, then distribution.
pub open spec fn settlement_applied(pre: EdgeState, post: EdgeState, now: u64, min_age: u64) -> bool {
    exists|mid: EdgeState|
        #![trigger resets_applied(pre, mid, now)]
        resets_applied(pre, mid, now) && distribution_applied(mid, post, now, min_age)
}

pub open spec fn settle_check(s: EdgeState, caller: Seq<char>, now: u64) -> Result<(), Rejection> {
    if !whitelisted(s, caller) {
        Err(Rejection::NotWhitelisted)
    } else if elapsed(s.last_settle_time, now) < MIN_SETTLE_INTERVAL_MICROS {
        Err(Rejection::TooEarly)
    } else {
        Ok(())
    }
}

/// `post` is what a settle request by `caller` at `now` leaves of `pre`.
pub open spec fn settle_outcome(pre: EdgeState, caller: Seq<char>, now: u64, post: EdgeState) -> bool {
    match settle_check(pre, caller, now) {
        Ok(()) => settlement_applied(pre, post, now, 0),
        Err(_) => post == pre,
    }
}

/// The distribution step of a settlement leaves each user with their balance
/// before it plus every credit the settlement owes them, capped at the largest
/// `u64`; the earnings windows grow the same way.
pub proof fn lemma_distribution_balances(
    mid: EdgeState,
    post: EdgeState,
    now: u64,
    min_age: u64,
    u: Seq<char>,
)
    requires
        mid.wf(),
        mid.pool_amount > 0,
        distribution_applied(mid, post, now, min_age),
    ensures
        amount_of(post.user_balances@, u) == saturated(
            amount_of(mid.user_balances@, u) + credited_to(settlement_credits(mid, now, min_age), u),
        ),
        amount_of(post.user_daily_earnings@, u) == saturated(
            amount_of(mid.user_daily_earnings@, u) + credited_to(
                settlement_credits(mid, now, min_age),
                u,
            ),
        ),
{
    let c = settlement_credits(mid, now, min_age);
    lemma_apply_credits_amount(mid.user_balances@, c, u);
    lemma_apply_credits_amount(mid.user_daily_earnings@, c, u);
}

/// The reward of the application at rank `k` when its bettors are paid, 0 otherwise.
pub open spec fn rank_reward(
    s: EdgeState,
    now: u64,
    min_age: u64,
    dist: int,
    r: Seq<usize>,
    k: int,
) -> int {
    let entry = s.app_total_bets@[r[k] as int];
    let bettors = aged_bettors(s.user_bets@, entry.0@, now, min_age);
    if entry.1 > 0 && bettors.len() > 0 {
        match lookup(s.app_info@, entry.0@) {
            Some(info) => app_reward_spec(
                dist,
                k,
                supporters(s.user_bets@, entry.0@),
                days_since(now, info.added_at),
            ),
            None => 0,
        }
    } else {
        0
    }
}

/// Sum of the rewards of the first `m` ranks.
pub open spec fn rewards_upto(
    s: EdgeState,
    now: u64,
    min_age: u64,
    dist: int,
    r: Seq<usize>,
    m: int,
) -> int
    decreases m,
{
    if m <= 0 {
        0
    } else {
        rewards_upto(s, now, min_age, dist, r, m - 1) + rank_reward(s, now, min_age, dist, r, m - 1)
    }
}

proof fn lemma_sum_amounts_concat(a: Seq<(String, u64)>, b: Seq<(String, u64)>)
    ensures
        sum_amounts(a + b) == sum_amounts(a) + sum_amounts(b),
    decreases b.len(),
{
    if b.len() == 0 {
        assert(a + b =~= a);
    } else {
        assert((a + b).drop_last() =~= a + b.drop_last());
        lemma_sum_amounts_concat(a, b.drop_last());
    }
}

proof fn lemma_supporters_nonneg(bets: Seq<(String, Vec<UserBet>)>, app: Seq<char>)
    ensures
        supporters(bets, app) >= 0,
    decreases bets.len(),
{
    if bets.len() > 0 {
        lemma_supporters_nonneg(bets.drop_last(), app);
    }
}

proof fn lemma_aged_bettors_positive(
    bets: Seq<(String, Vec<UserBet>)>,
    app: Seq<char>,
    now: u64,
    min_age: u64,
)
    ensures
        forall|i: int|
            0 <= i < aged_bettors(bets, app, now, min_age).len() ==> (#[trigger] aged_bettors(
                bets,
                app,
                now,
                min_age,
            )[i]).1 > 0,
    decreases bets.len(),
{
    if bets.len() > 0 {
        lemma_aged_bettors_positive(bets.drop_last(), app, now, min_age);
        let rest = aged_bettors(bets.drop_last(), app, now, min_age);
        let all = aged_bettors(bets, app, now, min_age);
        let b = bet_in_list(bets.last().1@, app);
        assert(b <= i64::MAX);
        assert forall|i: int| 0 <= i < all.len() implies (#[trigger] all[i]).1 > 0 by {
            if i < rest.len() {
                assert(all[i] == rest[i]);
            }
        }
    }
}

proof fn lemma_app_reward_bounds(dist: int, rank: int, supporters: int, days: int)
    requires
        0 <= dist <= u64::MAX,
        0 <= rank < TOP_APPS,
        supporters >= 0,
    ensures
        0 <= app_reward_spec(dist, rank, supporters, days) <= dist,
{
    let w = weight_spec(rank);
    let bonus = bonus_percent_spec(supporters, rank, days);
    let base = dist * w / 100;
    assert(0 <= base <= dist && base * 100 <= dist * 15) by (nonlinear_arith)
        requires
            base == dist * w / 100,
            0 <= w <= 15,
            dist >= 0,
    ;
    assert(0 <= bonus <= 145);
    let total = base * (100 + bonus) / 100;
    assert(0 <= total <= dist) by (nonlinear_arith)
        requires
            total == base * (100 + bonus) / 100,
            0 <= base,
            base * 100 <= dist * 15,
            0 <= bonus <= 145,
    ;
}

/// Over the first `m` ranks, the bettors are credited at most the sum of the
/// applications' rewards: rounding down only ever leaves dust in the pool.
pub proof fn lemma_credits_within_rewards(
    s: EdgeState,
    now: u64,
    min_age: u64,
    dist: int,
    r: Seq<usize>,
    m: int,
)
    requires
        0 <= dist <= u64::MAX,
        0 <= m <= TOP_APPS,
    ensures
        sum_amounts(credits_upto(s, now, min_age, dist, r, m)) <= rewards_upto(
            s,
            now,
            min_age,
            dist,
            r,
            m,
        ),
    decreases m,
{
    if m > 0 {
        let k = m - 1;
        lemma_credits_within_rewards(s, now, min_age, dist, r, k);
        lemma_sum_amounts_concat(
            credits_upto(s, now, min_age, dist, r, k),
            rank_credits(s, now, min_age, dist, r, k),
        );
        let entry = s.app_total_bets@[r[k] as int];
        let bettors = aged_bettors(s.user_bets@, entry.0@, now, min_age);
        if entry.1 > 0 && bettors.len() > 0 {
            match lookup(s.app_info@, entry.0@) {
                Some(info) => {
                    let sup = supporters(s.user_bets@, entry.0@);
                    let reward = app_reward_spec(dist, k, sup, days_since(now, info.added_at));
                    lemma_supporters_nonneg(s.user_bets@, entry.0@);
                    lemma_app_reward_bounds(dist, k, sup, days_since(now, info.added_at));
                    lemma_aged_bettors_positive(s.user_bets@, entry.0@, now, min_age);
                    lemma_sum_amounts_bounds(bettors);
                    assert(bettors[0].1 > 0);
                    lemma_pro_rata_within_reward(reward as u64, bettors);
                },
                None => {},
            }
        }
    }
}

/// What a user is credited over two runs of credits is the sum of both.
pub proof fn lemma_credited_to_concat(a: Seq<(String, u64)>, b: Seq<(String, u64)>, u: Seq<char>)
    ensures
        credited_to(a + b, u) == credited_to(a, u) + credited_to(b, u),
    decreases b.len(),
{
    if b.len() == 0 {
        assert(a + b =~= a);
    } else {
        assert((a + b).drop_last() =~= a + b.drop_last());
        lemma_credited_to_concat(a, b.drop_last(), u);
    }
}

proof fn lemma_credited_pro_rata_prefix(
    reward: int,
    bettors: Seq<(String, u64)>,
    u: Seq<char>,
    i: int,
    k: int,
)
    requires
        0 <= i < bettors.len(),
        0 <= k <= bettors.len(),
        bettors[i].0@ == u,
        forall|j: int| 0 <= j < bettors.len() && j != i ==> (#[trigger] bettors[j]).0@ != u,
    ensures
        credited_to(pro_rata_spec(reward, bettors).subrange(0, k), u) == if i < k {
            (share_spec(reward, bettors[i].1 as int, sum_amounts(bettors)) as u64) as int
        } else {
            0
        },
    decreases k,
{
    if k > 0 {
        let p = pro_rata_spec(reward, bettors);
        assert(p.subrange(0, k).drop_last() =~= p.subrange(0, k - 1));
        lemma_credited_pro_rata_prefix(reward, bettors, u, i, k - 1);
    }
}

/// A bettor listed once among an application's bettors, with bet `b` out of
/// `S` in all, is credited exactly `floor(reward * b / S)` by that application.
pub proof fn lemma_credited_pro_rata(reward: u64, bettors: Seq<(String, u64)>, i: int)
    requires
        0 <= i < bettors.len(),
        sum_amounts(bettors) > 0,
        forall|j: int|
            0 <= j < bettors.len() && j != i ==> (#[trigger] bettors[j]).0@ != bettors[i].0@,
    ensures
        credited_to(pro_rata_spec(reward as int, bettors), bettors[i].0@) == share_spec(
            reward as int,
            bettors[i].1 as int,
            sum_amounts(bettors),
        ),
{
    let n = bettors.len() as int;
    let total = sum_amounts(bettors);
    let b = bettors[i].1 as int;
    lemma_sum_amounts_bounds(bettors);
    lemma_credited_pro_rata_prefix(reward as int, bettors, bettors[i].0@, i, n);
    assert(pro_rata_spec(reward as int, bettors).subrange(0, n) =~= pro_rata_spec(
        reward as int,
        bettors,
    ));
    let f = share_spec(reward as int, b, total);
    assert(0 <= f <= reward) by (nonlinear_arith)
        requires
            f == (reward as int) * b / total,
            0 <= b <= total,
            total > 0,
    ;
}

/// A user's credit from a settlement is the sum of their credits rank by rank.
pub proof fn lemma_credited_by_rank(
    s: EdgeState,
    now: u64,
    min_age: u64,
    dist: int,
    r: Seq<usize>,
    m: int,
    u: Seq<char>,
)
    requires
        m >= 1,
    ensures
        credited_to(credits_upto(s, now, min_age, dist, r, m), u) == credited_to(
            credits_upto(s, now, min_age, dist, r, m - 1),
            u,
        ) + credited_to(rank_credits(s, now, min_age, dist, r, m - 1), u),
{
    lemma_credited_to_concat(
        credits_upto(s, now, min_age, dist, r, m - 1),
        rank_credits(s, now, min_age, dist, r, m - 1),
        u,
    );
}

/// Within one minute of an accepted settlement (with a non-empty pool), a
/// second settle request changes nothing, whoever sends it.
pub proof fn lemma_settle_rate_limited(
    s0: EdgeState,
    s1: EdgeState,
    s2: EdgeState,
    c1: Seq<char>,
    c2: Seq<char>,
    t1: u64,
    t2: u64,
)
    requires
        settle_check(s0, c1, t1) is Ok,
        s0.pool_amount > 0,
        settle_outcome(s0, c1, t1, s1),
        settle_outcome(s1, c2, t2, s2),
        elapsed(t1, t2) < MIN_SETTLE_INTERVAL_MICROS,
    ensures
        settle_check(s1, c2, t2) is Err,
        s2 == s1,
{
    let mid = choose|mid: EdgeState|
        #![trigger resets_applied(s0, mid, t1)]
        resets_applied(s0, mid, t1) && distribution_applied(mid, s1, t1, 0);
    assert(s1.last_settle_time == t1);
}

/// A due daily reset empties the daily earnings once; another reset pass
/// less than a day later leaves them alone, and one a day or more later
/// empties them again.
pub proof fn lemma_daily_reset_once_per_period(
    s0: EdgeState,
    s1: EdgeState,
    s2: EdgeState,
    t1: u64,
    t2: u64,
)
    requires
        resets_applied(s0, s1, t1),
        resets_applied(s1, s2, t2),
        reset_due(s0.last_daily_reset, t1, ONE_DAY_MICROS),
        t1 <= t2,
    ensures
        s1.user_daily_earnings@.len() == 0,
        s1.last_daily_reset == t1,
        t2 - t1 < ONE_DAY_MICROS ==> s2.user_daily_earnings == s1.user_daily_earnings
            && s2.last_daily_reset == t1,
        t2 - t1 >= ONE_DAY_MICROS ==> s2.user_daily_earnings@.len() == 0 && s2.last_daily_reset
            == t2,
{
}

/// Adds each credit (saturating) to its user's entry of `t`, in order.
pub fn credit_all(t: &mut Table<u64>, credits: &Vec<(String, u64)>)
    requires
        old(t).wf(),
    ensures
        final(t).wf(),
        final(t)@ == apply_credits(old(t)@, credits@),
{
    let ghost start = t@;
    let mut i: usize = 0;
    while i < credits.len()
        invariant
            i <= credits@.len(),
            t.wf(),
            t@ == apply_credits(start, credits@.subrange(0, i as int)),
        decreases credits@.len() - i,
    {
        let current: u64 = match t.get(&credits[i].0) {
            Some(v) => *v,
            None => 0,
        };
        proof {
            assert(credits@.subrange(0, i + 1).drop_last() =~= credits@.subrange(0, i as int));
        }
        t.insert(credits[i].0.clone(), current.saturating_add(credits[i].1));
        i = i + 1;
    }
    assert(credits@.subrange(0, credits@.len() as int) =~= credits@);
}

fn list_supports(list: &Vec<UserBet>, app_id: &String) -> (b: bool)
    ensures
        b == supports(list@, app_id@),
{
    let mut i: usize = 0;
    while i < list.len()
        invariant
            i <= list@.len(),
            forall|j: int|
                0 <= j < i ==> !((#[trigger] list@[j]).app_id@ == app_id@ && list@[j].amount > 0),
        decreases list@.len() - i,
    {
        if list[i].app_id == *app_id && list[i].amount > 0 {
            return true;
        }
        i = i + 1;
    }
    false
}

fn list_has_aged_record(list: &Vec<UserBet>, app_id: &String, now: u64, min_age: u64) -> (b: bool)
    ensures
        b == has_aged_record(list@, app_id@, now, min_age),
{
    let mut i: usize = 0;
    while i < list.len()
        invariant
            i <= list@.len(),
            forall|j: int|
                0 <= j < i ==> !((#[trigger] list@[j]).app_id@ == app_id@ && elapsed(
                    list@[j].timestamp,
                    now,
                ) >= min_age),
        decreases list@.len() - i,
    {
        if list[i].app_id == *app_id && now.saturating_sub(list[i].timestamp) >= min_age {
            return true;
        }
        i = i + 1;
    }
    false
}

proof fn lemma_positive_sum(s: Seq<(String, u64)>)
    requires
        s.len() > 0,
        s[0].1 > 0,
    ensures
        sum_amounts(s) > 0,
{
    lemma_sum_amounts_bounds(s);
}

impl EdgeState {
    /// Empties each earnings window whose period has run out since its last
    /// reset, and stamps it with `now`.
    pub fn check_and_perform_resets(&mut self, current_time: u64)
        requires
            old(self).wf(),
        ensures
            final(self).wf(),
            resets_applied(*old(self), *final(self), current_time),
    {
        if current_time.saturating_sub(self.last_daily_reset) >= ONE_DAY_MICROS {
            self.reset_daily_earnings();
            self.update_last_daily_reset(current_time);
        }
        if current_time.saturating_sub(self.last_weekly_reset) >= ONE_WEEK_MICROS {
            self.reset_weekly_earnings();
            self.update_last_weekly_reset(current_time);
        }
        if current_time.saturating_sub(self.last_monthly_reset) >= THIRTY_DAYS_MICROS {
            self.reset_monthly_earnings();
            self.update_last_monthly_reset(current_time);
        }
    }

    pub fn reset_daily_earnings(&mut self)
        ensures
            final(self).user_daily_earnings@.len() == 0,
            *final(self) == (EdgeState {
                user_daily_earnings: final(self).user_daily_earnings,
                ..*old(self)
            }),
    {
        self.user_daily_earnings.clear();
    }

    pub fn reset_weekly_earnings(&mut self)
        ensures
            final(self).user_weekly_earnings@.len() == 0,
            *final(self) == (EdgeState {
                user_weekly_earnings: final(self).user_weekly_earnings,
                ..*old(self)
            }),
    {
        self.user_weekly_earnings.clear();
    }

    pub fn reset_monthly_earnings(&mut self)
        ensures
            final(self).user_monthly_earnings@.len() == 0,
            *final(self) == (EdgeState {
                user_monthly_earnings: final(self).user_monthly_earnings,
                ..*old(self)
            }),
    {
        self.user_monthly_earnings.clear();
    }

    pub fn get_last_daily_reset(&self) -> (r: u64)
        ensures
            r == self.last_daily_reset,
    {
        self.last_daily_reset
    }

    pub fn get_last_weekly_reset(&self) -> (r: u64)
        ensures
            r == self.last_weekly_reset,
    {
        self.last_weekly_reset
    }

    pub fn get_last_monthly_reset(&self) -> (r: u64)
        ensures
            r == self.last_monthly_reset,
    {
        self.last_monthly_reset
    }

    pub fn update_last_daily_reset(&mut self, timestamp: u64)
        ensures
            *final(self) == (EdgeState { last_daily_reset: timestamp, ..*old(self) }),
    {
        self.last_daily_reset = timestamp;
    }

    pub fn update_last_weekly_reset(&mut self, timestamp: u64)
        ensures
            *final(self) == (EdgeState { last_weekly_reset: timestamp, ..*old(self) }),
    {
        self.last_weekly_reset = timestamp;
    }

    pub fn update_last_monthly_reset(&mut self, timestamp: u64)
        ensures
            *final(self) == (EdgeState { last_monthly_reset: timestamp, ..*old(self) }),
    {
        self.last_monthly_reset = timestamp;
    }

    /// The users holding a positive bet on `app_id`, with that bet, in table order.
    pub fn get_app_bettors(&self, app_id: &String) -> (r: Vec<(String, u64)>)
        requires
            self.wf(),
        ensures
            r@ == app_bettors(self.user_bets@, app_id@),
            forall|i: int| 0 <= i < r@.len() ==> (#[trigger] r@[i]).1 > 0,
    {
        let mut r: Vec<(String, u64)> = Vec::new();
        let mut i: usize = 0;
        while i < self.user_bets.len()
            invariant
                i <= self.user_bets@.len(),
                r@ == app_bettors(self.user_bets@.subrange(0, i as int), app_id@),
                forall|j: int| 0 <= j < r@.len() ==> (#[trigger] r@[j]).1 > 0,
            decreases self.user_bets@.len() - i,
        {
            proof {
                assert(self.user_bets@.subrange(0, i + 1).drop_last() =~= self.user_bets@.subrange(
                    0,
                    i as int,
                ));
            }
            let bet = bet_in(self.user_bets.value_at(i), app_id);
            if bet > 0 {
                r.push((self.user_bets.key_at(i).clone(), bet));
            }
            i = i + 1;
        }
        assert(self.user_bets@.subrange(0, i as int) =~= self.user_bets@);
        r
    }

    /// The bettors of `app_id` whose record on it is at least `min_age` old at `now`.
    pub fn get_aged_bettors(&self, app_id: &String, now: u64, min_age: u64) -> (r: Vec<
        (String, u64),
    >)
        requires
            self.wf(),
        ensures
            r@ == aged_bettors(self.user_bets@, app_id@, now, min_age),
            forall|i: int| 0 <= i < r@.len() ==> (#[trigger] r@[i]).1 > 0,
    {
        let mut r: Vec<(String, u64)> = Vec::new();
        let mut i: usize = 0;
        while i < self.user_bets.len()
            invariant
                i <= self.user_bets@.len(),
                r@ == aged_bettors(self.user_bets@.subrange(0, i as int), app_id@, now, min_age),
                forall|j: int| 0 <= j < r@.len() ==> (#[trigger] r@[j]).1 > 0,
            decreases self.user_bets@.len() - i,
        {
            proof {
                assert(self.user_bets@.subrange(0, i + 1).drop_last() =~= self.user_bets@.subrange(
                    0,
                    i as int,
                ));
            }
            let list = self.user_bets.value_at(i);
            let bet = bet_in(list, app_id);
            if bet > 0 && list_has_aged_record(list, app_id, now, min_age) {
                r.push((self.user_bets.key_at(i).clone(), bet));
            }
            i = i + 1;
        }
        assert(self.user_bets@.subrange(0, i as int) =~= self.user_bets@);
        r
    }

    /// The number of users holding a positive bet record on `app_id`.
    pub fn get_app_supporters_count(&self, app_id: &String) -> (n: u64)
        requires
            self.wf(),
        ensures
            n == supporters(self.user_bets@, app_id@),
    {
        let mut n: u64 = 0;
        let mut i: usize = 0;
        while i < self.user_bets.len()
            invariant
                i <= self.user_bets@.len(),
                n == supporters(self.user_bets@.subrange(0, i as int), app_id@),
                n <= i,
            decreases self.user_bets@.len() - i,
        {
            proof {
                assert(self.user_bets@.subrange(0, i + 1).drop_last() =~= self.user_bets@.subrange(
                    0,
                    i as int,
                ));
            }
            if list_supports(self.user_bets.value_at(i), app_id) {
                n = n + 1;
            }
            i = i + 1;
        }
        assert(self.user_bets@.subrange(0, i as int) =~= self.user_bets@);
        n
    }

    /// What a settlement at `now` paying bets at least `min_bet_age` old pays
    /// out, whether it found an eligible application, and the amount it distributes.
    pub fn settlement_plan(&self, now: u64, min_bet_age: u64) -> (plan: (
        Vec<(String, u64)>,
        bool,
        u64,
    ))
        requires
            self.wf(),
        ensures
            plan.0@ == settlement_credits(*self, now, min_bet_age),
            plan.1 == settlement_eligible(*self, now, min_bet_age),
            plan.2 == settle_distribution(self.app_total_bets@),
    {
        let totals = self.get_all_app_totals();
        let n = totals.len();
        let mut vals: Vec<u64> = Vec::new();
        let mut i: usize = 0;
        while i < n
            invariant
                i <= n,
                n == totals@.len(),
                totals@ == self.app_total_bets@,
                vals@ =~= values_of(totals@).subrange(0, i as int),
            decreases n - i,
        {
            vals.push(totals[i].1);
            i = i + 1;
        }
        assert(vals@ =~= values_of(totals@));
        let ranked = rank_descending(&vals);
        let m: usize = if n < TOP_APPS {
            n
        } else {
            TOP_APPS
        };
        let mut sum: u128 = 0;
        let mut k: usize = 0;
        while k < m
            invariant
                k <= m,
                m == top_count(n as int),
                m <= n,
                n == totals@.len(),
                ranked@ == ranking_of(values_of(totals@)),
                crate::ranking::is_ranking(values_of(totals@), ranked@),
                sum == top_sum(totals@, ranked@, k as int),
                sum <= k * (u64::MAX as int),
            decreases m - k,
        {
            sum = sum + totals[ranked[k]].1 as u128;
            k = k + 1;
        }
        let dist = distribution_amount(sum);
        let mut credits: Vec<(String, u64)> = Vec::new();
        let mut eligible = false;
        if dist > 0 {
            let mut k: usize = 0;
            while k < m
                invariant
                    k <= m,
                    m == top_count(n as int),
                    m <= n,
                    m <= TOP_APPS,
                    n == totals@.len(),
                    self.wf(),
                    totals@ == self.app_total_bets@,
                    ranked@ == ranking_of(values_of(totals@)),
                    crate::ranking::is_ranking(values_of(totals@), ranked@),
                    dist == settle_distribution(self.app_total_bets@),
                    credits@ == credits_upto(*self, now, min_bet_age, dist as int, ranked@, k as int),
                    eligible == eligible_upto(*self, now, min_bet_age, ranked@, k as int),
                decreases m - k,
            {
                let idx = ranked[k];
                let app_id = &totals[idx].0;
                let total = totals[idx].1;
                let bettors = self.get_aged_bettors(app_id, now, min_bet_age);
                if total > 0 && bettors.len() > 0 {
                    eligible = true;
                    match self.app_info.get(app_id) {
                        Some(info) => {
                            let supporters = self.get_app_supporters_count(app_id);
                            let days = now.saturating_sub(info.added_at) / ONE_DAY_MICROS;
                            let reward = app_reward(dist, k, supporters, days);
                            proof {
                                lemma_positive_sum(bettors@);
                            }
                            let mut shares = pro_rata_shares(reward, &bettors);
                            credits.append(&mut shares);
                        },
                        None => {},
                    }
                }
                k = k + 1;
            }
        }
        (credits, eligible, dist)
    }

    /// The settlement itself: resets, then, if the pool is not empty, rewards
    /// for the top applications' bettors, the pool deduction and the new
    /// settlement time.
    pub fn execute_settlement_logic(&mut self, current_time: u64)
        requires
            old(self).wf(),
        ensures
            final(self).wf(),
            settlement_applied(*old(self), *final(self), current_time, 0),
    {
        self.settle_paying_aged_bets(current_time, 0);
    }

    /// Settles without a caller check once a minute has passed since the last
    /// settlement, paying only bets whose record is at least a minute old.
    /// Returns whether it ran.
    pub fn check_and_execute_automatic_settlement(&mut self, current_time: u64) -> (ran: bool)
        requires
            old(self).wf(),
        ensures
            final(self).wf(),
            ran == (elapsed(old(self).last_settle_time, current_time)
                >= MIN_SETTLE_INTERVAL_MICROS),
            ran ==> settlement_applied(
                *old(self),
                *final(self),
                current_time,
                MIN_SETTLE_INTERVAL_MICROS,
            ),
            !ran ==> *final(self) == *old(self),
    {
        if current_time.saturating_sub(self.last_settle_time) < MIN_SETTLE_INTERVAL_MICROS {
            return false;
        }
        self.settle_paying_aged_bets(current_time, MIN_SETTLE_INTERVAL_MICROS);
        true
    }

    /// A settlement at `current_time` that pays bets at least `min_bet_age` old.
    pub fn settle_paying_aged_bets(&mut self, current_time: u64, min_bet_age: u64)
        requires
            old(self).wf(),
        ensures
            final(self).wf(),
            settlement_applied(*old(self), *final(self), current_time, min_bet_age),
    {
        self.check_and_perform_resets(current_time);
        let ghost mid = *self;
        if self.pool_amount == 0 {
            assert(resets_applied(*old(self), mid, current_time));
            return ;
        }
        let (credits, eligible, dist) = self.settlement_plan(current_time, min_bet_age);
        credit_all(&mut self.user_balances, &credits);
        credit_all(&mut self.user_daily_earnings, &credits);
        credit_all(&mut self.user_weekly_earnings, &credits);
        credit_all(&mut self.user_monthly_earnings, &credits);
        if eligible && dist <= self.pool_amount {
            self.pool_amount = self.pool_amount - dist;
        }
        self.last_settle_time = current_time;
        assert(resets_applied(*old(self), mid, current_time));
    }

    /// Settles on behalf of a whitelisted `caller`, at most once per minute.
    pub fn handle_settle(&mut self, caller: &String, current_time: u64) -> (r: Result<(), Rejection>)
        requires
            old(self).wf(),
        ensures
            final(self).wf(),
            r == settle_check(*old(self), caller@, current_time),
            settle_outcome(*old(self), caller@, current_time, *final(self)),
    {
        if !self.is_whitelisted(caller) {
            return Err(Rejection::NotWhitelisted);
        }
        if current_time.saturating_sub(self.last_settle_time) < MIN_SETTLE_INTERVAL_MICROS {
            return Err(Rejection::TooEarly);
        }
        self.execute_settlement_logic(current_time);
        Ok(())
    }

    /// Adds `amount` (saturating) to each of `owner`'s three earnings windows.
    pub fn update_user_earnings(&mut self, owner: &String, amount: u64)
        requires
            old(self).wf(),
        ensures
            final(self).wf(),
            final(self).user_daily_earnings@ == upsert(
                old(self).user_daily_earnings@,
                *owner,
                amount_of(old(self).user_daily_earnings@, owner@).saturating_add(amount),
            ),
            final(self).user_weekly_earnings@ == upsert(
                old(self).user_weekly_earnings@,
                *owner,
                amount_of(old(self).user_weekly_earnings@, owner@).saturating_add(amount),
            ),
            final(self).user_monthly_earnings@ == upsert(
                old(self).user_monthly_earnings@,
                *owner,
                amount_of(old(self).user_monthly_earnings@, owner@).saturating_add(amount),
            ),
            *final(self) == (EdgeState {
                user_daily_earnings: final(self).user_daily_earnings,
                user_weekly_earnings: final(self).user_weekly_earnings,
                user_monthly_earnings: final(self).user_monthly_earnings,
                ..*old(self)
            }),
    {
        let daily = self.get_user_daily_earnings(owner);
        self.user_daily_earnings.insert(owner.clone(), daily.saturating_add(amount));
        let weekly = self.get_user_weekly_earnings(owner);
        self.user_weekly_earnings.insert(owner.clone(), weekly.saturating_add(amount));
        let monthly = self.get_user_monthly_earnings(owner);
        self.user_monthly_earnings.insert(owner.clone(), monthly.saturating_add(amount));
    }

    pub fn get_user_daily_earnings(&self, owner: &String) -> (r: u64)
        requires
            self.wf(),
        ensures
            r == amount_of(self.user_daily_earnings@, owner@),
    {
        match self.user_daily_earnings.get(owner) {
            Some(v) => *v,
            None => 0,
        }
    }

    pub fn get_user_weekly_earnings(&self, owner: &String) -> (r: u64)
        requires
            self.wf(),
        ensures
            r == amount_of(self.user_weekly_earnings@, owner@),
    {
        match self.user_weekly_earnings.get(owner) {
            Some(v) => *v,
            None => 0,
        }
    }

    pub fn get_user_monthly_earnings(&self, owner: &String) -> (r: u64)
        requires
            self.wf(),
        ensures
            r == amount_of(self.user_monthly_earnings@, owner@),
    {
        match self.user_monthly_earnings.get(owner) {
            Some(v) => *v,
            None => 0,
        }
    }
}

} // verus!
