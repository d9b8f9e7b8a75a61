//! Staking, redemption, pool injection and application management, each
//! validated in full before anything is written.
use vstd::prelude::*;
use crate::rewards::{redemption_fee, redemption_fee_spec};
use crate::state::{
    balance_of, bet_in_list, bets_of, first_match, is_first_match, lemma_first_match_at,
    raw_bet_sum, read_amount, set_bet, user_bet_on, whitelisted, lower_of, AppInfo,
    EdgeState, Rejection, UserBet, BOOTSTRAP_ADMIN, INITIAL_BALANCE, MAX_BET_PER_APP,
};
use crate::table::{
    amount_of, has_key, key_pos, keys_distinct, lemma_lookup_at, lemma_upsert_lookup, lookup,
    upsert, without,
};

verus! {

/// Sum over all users of their bet on `app`.
pub open spec fn total_staked(bets: Seq<(String, Vec<UserBet>)>, app: Seq<char>) -> int
    decreases bets.len(),
{
    if bets.len() == 0 {
        0
    } else {
        total_staked(bets.drop_last(), app) + bet_in_list(bets.last().1@, app)
    }
}

/// Every application's total bet equals the sum of the users' bets on it.
pub open spec fn totals_consistent(s: EdgeState) -> bool {
    forall|app: Seq<char>|
        #![trigger amount_of(s.app_total_bets@, app)]
        #![trigger total_staked(s.user_bets@, app)]
        amount_of(s.app_total_bets@, app) == total_staked(s.user_bets@, app)
}

/// No stored bet amount is negative.
pub open spec fn bets_nonneg(bets: Seq<(String, Vec<UserBet>)>) -> bool {
    forall|k: int, i: int|
        0 <= k < bets.len() && 0 <= i < bets[k].1@.len() ==> (#[trigger] bets[k].1@[i]).amount
            >= 0
}

/// The balance a stake is checked against: the current one, or the starting
/// balance for a user without one.
pub open spec fn stake_balance(s: EdgeState, owner: Seq<char>) -> int {
    match lookup(s.user_balances@, owner) {
        Some(b) => b as int,
        None => INITIAL_BALANCE as int,
    }
}

pub open spec fn stake_check(s: EdgeState, owner: Seq<char>, app: Seq<char>, amount: u64) -> Result<
    (),
    Rejection,
> {
    if amount == 0 {
        Err(Rejection::InvalidAmount)
    } else if stake_balance(s, owner) < amount {
        Err(Rejection::InsufficientBalance)
    } else if user_bet_on(s.user_bets@, owner, app) + amount > MAX_BET_PER_APP {
        Err(Rejection::BetCapExceeded)
    } else {
        Ok(())
    }
}

/// `post` is `pre` after an accepted stake.
pub open spec fn stake_applied(
    pre: EdgeState,
    post: EdgeState,
    owner: String,
    app_id: String,
    amount: u64,
    now: u64,
) -> bool {
    let cur = user_bet_on(pre.user_bets@, owner@, app_id@);
    &&& post.user_balances@ == upsert(
        pre.user_balances@,
        owner,
        (stake_balance(pre, owner@) - amount) as u64,
    )
    &&& exists|v: Vec<UserBet>|
        #![trigger upsert(pre.user_bets@, owner, v)]
        v@ == set_bet(bets_of(pre.user_bets@, owner@), app_id, (cur + amount) as i64, now)
            && post.user_bets@ == upsert(pre.user_bets@, owner, v)
    &&& post.app_total_bets@ == upsert(
        pre.app_total_bets@,
        app_id,
        amount_of(pre.app_total_bets@, app_id@).saturating_add(amount),
    )
    &&& post.app_pool_contributions@ == upsert(
        pre.app_pool_contributions@,
        app_id,
        amount_of(pre.app_pool_contributions@, app_id@).saturating_add(amount),
    )
    &&& post.pool_amount == pre.pool_amount.saturating_add(amount)
    &&& post.last_settle_time == pre.last_settle_time
    &&& post.owner == pre.owner
    &&& post.app_info == pre.app_info
    &&& post.user_daily_earnings == pre.user_daily_earnings
    &&& post.user_weekly_earnings == pre.user_weekly_earnings
    &&& post.user_monthly_earnings == pre.user_monthly_earnings
    &&& post.last_daily_reset == pre.last_daily_reset
    &&& post.last_weekly_reset == pre.last_weekly_reset
    &&& post.last_monthly_reset == pre.last_monthly_reset
    &&& post.whitelist == pre.whitelist
}

pub open spec fn redeem_check(s: EdgeState, owner: Seq<char>, app: Seq<char>, amount: u64) -> Result<
    (),
    Rejection,
> {
    if amount == 0 {
        Err(Rejection::InvalidAmount)
    } else if amount > user_bet_on(s.user_bets@, owner, app) {
        Err(Rejection::InsufficientBet)
    } else {
        Ok(())
    }
}

/// `post` is `pre` after an accepted redemption.
pub open spec fn redeem_applied(
    pre: EdgeState,
    post: EdgeState,
    owner: String,
    app_id: String,
    amount: u64,
    now: u64,
) -> bool {
    let cur = user_bet_on(pre.user_bets@, owner@, app_id@);
    let fee = redemption_fee_spec(amount as int);
    &&& exists|v: Vec<UserBet>|
        #![trigger upsert(pre.user_bets@, owner, v)]
        v@ == set_bet(bets_of(pre.user_bets@, owner@), app_id, (cur - amount) as i64, now)
            && post.user_bets@ == upsert(pre.user_bets@, owner, v)
    &&& post.user_balances@ == upsert(
        pre.user_balances@,
        owner,
        balance_of(pre, owner@).saturating_add((amount - fee) as u64),
    )
    &&& post.app_total_bets@ == upsert(
        pre.app_total_bets@,
        app_id,
        amount_of(pre.app_total_bets@, app_id@).saturating_sub(amount),
    )
    &&& post.pool_amount == pre.pool_amount.saturating_add(fee as u64)
    &&& post.app_pool_contributions == pre.app_pool_contributions
    &&& post.last_settle_time == pre.last_settle_time
    &&& post.owner == pre.owner
    &&& post.app_info == pre.app_info
    &&& post.user_daily_earnings == pre.user_daily_earnings
    &&& post.user_weekly_earnings == pre.user_weekly_earnings
    &&& post.user_monthly_earnings == pre.user_monthly_earnings
    &&& post.last_daily_reset == pre.last_daily_reset
    &&& post.last_weekly_reset == pre.last_weekly_reset
    &&& post.last_monthly_reset == pre.last_monthly_reset
    &&& post.whitelist == pre.whitelist
}

/// Lists that agree on every record's application, and on the amount of every
/// record on `q`, sum to the same bet on `q`.
proof fn lemma_raw_sum_agree(s1: Seq<UserBet>, s2: Seq<UserBet>, q: Seq<char>)
    requires
        s1.len() == s2.len(),
        forall|i: int| 0 <= i < s1.len() ==> (#[trigger] s1[i]).app_id@ == s2[i].app_id@,
        forall|i: int|
            0 <= i < s1.len() && (#[trigger] s1[i]).app_id@ == q ==> s1[i].amount == s2[i].amount,
    ensures
        raw_bet_sum(s1, q) == raw_bet_sum(s2, q),
    decreases s1.len(),
{
    if s1.len() > 0 {
        let n = s1.len() - 1;
        assert(s1[n].app_id@ == s2[n].app_id@);
        lemma_raw_sum_agree(s1.drop_last(), s2.drop_last(), q);
    }
}

/// A list whose records on `q` all hold 0 sums to 0 on `q`.
proof fn lemma_raw_sum_zero(s: Seq<UserBet>, q: Seq<char>)
    requires
        forall|i: int| 0 <= i < s.len() && (#[trigger] s[i]).app_id@ == q ==> s[i].amount == 0,
    ensures
        raw_bet_sum(s, q) == 0,
    decreases s.len(),
{
    if s.len() > 0 {
        lemma_raw_sum_zero(s.drop_last(), q);
    }
}

/// A list whose only non-zero record on `q` is at `p` sums to that record's amount.
proof fn lemma_raw_sum_single(s: Seq<UserBet>, q: Seq<char>, p: int)
    requires
        0 <= p < s.len(),
        s[p].app_id@ == q,
        forall|i: int|
            0 <= i < s.len() && i != p && (#[trigger] s[i]).app_id@ == q ==> s[i].amount == 0,
    ensures
        raw_bet_sum(s, q) == s[p].amount,
    decreases s.len(),
{
    let n = s.len() - 1;
    if p == n {
        lemma_raw_sum_zero(s.drop_last(), q);
    } else {
        lemma_raw_sum_single(s.drop_last(), q, p);
    }
}

/// Setting the bet on `app` makes it read as the new amount and changes what
/// is read for no other application.
pub proof fn lemma_set_bet_effect(list: Seq<UserBet>, app: String, amount: i64, ts: u64, q: Seq<char>)
    ensures
        bet_in_list(set_bet(list, app, amount, ts), q) == if q == app@ {
            read_amount(amount as int)
        } else {
            bet_in_list(list, q)
        },
{
    let n = set_bet(list, app, amount, ts);
    let p = first_match(list, app@);
    if p >= 0 {
        assert(is_first_match(list, app@, p));
        if q == app@ {
            lemma_raw_sum_single(n, q, p);
        } else {
            lemma_raw_sum_agree(n, list, q);
        }
    } else {
        assert(forall|j: int| 0 <= j < list.len() ==> (#[trigger] list[j]).app_id@ != app@) by {
            if exists|j: int| 0 <= j < list.len() && (#[trigger] list[j]).app_id@ == app@ {
                let j = choose|j: int| 0 <= j < list.len() && (#[trigger] list[j]).app_id@ == app@;
                lemma_first_exists(list, app@, j);
            }
        }
        assert(n.drop_last() =~= list);
        if q == app@ {
            lemma_raw_sum_zero(list, q);
        }
    }
}

/// A list that holds a bet on `app` at `j` has a first such position.
pub proof fn lemma_first_exists(list: Seq<UserBet>, app: Seq<char>, j: int)
    requires
        0 <= j < list.len(),
        list[j].app_id@ == app,
    ensures
        first_match(list, app) >= 0,
        first_match(list, app) <= j,
        is_first_match(list, app, first_match(list, app)),
    decreases j,
{
    if forall|i: int| 0 <= i < j ==> (#[trigger] list[i]).app_id@ != app {
        assert(is_first_match(list, app, j));
        lemma_first_match_at(list, app, j);
    } else {
        let i = choose|i: int| 0 <= i < j && (#[trigger] list[i]).app_id@ == app;
        lemma_first_exists(list, app, i);
    }
}

proof fn lemma_total_staked_nonneg(bets: Seq<(String, Vec<UserBet>)>, app: Seq<char>)
    ensures
        total_staked(bets, app) >= 0,
    decreases bets.len(),
{
    if bets.len() > 0 {
        lemma_total_staked_nonneg(bets.drop_last(), app);
    }
}

proof fn lemma_total_staked_update(
    s: Seq<(String, Vec<UserBet>)>,
    p: int,
    x: (String, Vec<UserBet>),
    q: Seq<char>,
)
    requires
        0 <= p < s.len(),
    ensures
        total_staked(s.update(p, x), q) == total_staked(s, q) - bet_in_list(s[p].1@, q)
            + bet_in_list(x.1@, q),
    decreases s.len(),
{
    let t = s.update(p, x);
    if p == s.len() - 1 {
        assert(t.drop_last() =~= s.drop_last());
    } else {
        assert(t.drop_last() =~= s.drop_last().update(p, x));
        lemma_total_staked_update(s.drop_last(), p, x, q);
    }
}

/// Writing `v` as `owner`'s bets changes each total by the change in `owner`'s bet.
pub proof fn lemma_total_staked_upsert(
    bets: Seq<(String, Vec<UserBet>)>,
    owner: String,
    v: Vec<UserBet>,
    q: Seq<char>,
)
    requires
        keys_distinct(bets),
    ensures
        total_staked(upsert(bets, owner, v), q) == total_staked(bets, q) - bet_in_list(
            bets_of(bets, owner@),
            q,
        ) + bet_in_list(v@, q),
{
    if has_key(bets, owner@) {
        let p = key_pos(bets, owner@);
        lemma_lookup_at(bets, p);
        lemma_total_staked_update(bets, p, (owner, v), q);
    } else {
        assert(bets.push((owner, v)).drop_last() =~= bets);
        assert(bets_of(bets, owner@) =~= Seq::<UserBet>::empty());
    }
}

proof fn lemma_set_bet_nonneg(list: Seq<UserBet>, app: String, amount: i64, ts: u64)
    requires
        amount >= 0,
        forall|i: int| 0 <= i < list.len() ==> (#[trigger] list[i]).amount >= 0,
    ensures
        forall|i: int|
            0 <= i < set_bet(list, app, amount, ts).len() ==> (#[trigger] set_bet(
                list,
                app,
                amount,
                ts,
            )[i]).amount >= 0,
{
}

proof fn lemma_upsert_nonneg(bets: Seq<(String, Vec<UserBet>)>, owner: String, v: Vec<UserBet>)
    requires
        keys_distinct(bets),
        bets_nonneg(bets),
        forall|i: int| 0 <= i < v@.len() ==> (#[trigger] v@[i]).amount >= 0,
    ensures
        bets_nonneg(upsert(bets, owner, v)),
{
    let t = upsert(bets, owner, v);
    assert forall|k: int, i: int| 0 <= k < t.len() && 0 <= i < t[k].1@.len() implies (
    #[trigger] t[k].1@[i]).amount >= 0 by {
        if has_key(bets, owner@) {
            let p = key_pos(bets, owner@);
            if k != p {
                assert(t[k] == bets[k]);
            }
        } else if k < bets.len() {
            assert(t[k] == bets[k]);
        }
    }
}

proof fn lemma_bets_of_nonneg(bets: Seq<(String, Vec<UserBet>)>, owner: Seq<char>)
    requires
        keys_distinct(bets),
        bets_nonneg(bets),
    ensures
        forall|i: int|
            0 <= i < bets_of(bets, owner).len() ==> (#[trigger] bets_of(bets, owner)[i]).amount
                >= 0,
{
    if has_key(bets, owner) {
        let p = key_pos(bets, owner);
        lemma_lookup_at(bets, p);
        assert forall|i: int| 0 <= i < bets_of(bets, owner).len() implies (#[trigger] bets_of(
            bets,
            owner,
        )[i]).amount >= 0 by {
            assert(bets[p].1@[i] == bets_of(bets, owner)[i]);
        }
    }
}

/// Writing a bet of `amount` for `owner` on `app` moves the total on `app` by
/// the change of that bet and keeps every other total.
pub proof fn lemma_bet_write_totals(
    pre: EdgeState,
    post: EdgeState,
    owner: String,
    app_id: String,
    amount: i64,
    now: u64,
    q: Seq<char>,
)
    requires
        pre.wf(),
        amount >= 0,
        exists|v: Vec<UserBet>|
            #![trigger upsert(pre.user_bets@, owner, v)]
            v@ == set_bet(bets_of(pre.user_bets@, owner@), app_id, amount, now) && post.user_bets@
                == upsert(pre.user_bets@, owner, v),
    ensures
        total_staked(post.user_bets@, q) == if q == app_id@ {
            total_staked(pre.user_bets@, q) - user_bet_on(pre.user_bets@, owner@, q) + amount
        } else {
            total_staked(pre.user_bets@, q)
        },
        bets_nonneg(pre.user_bets@) ==> bets_nonneg(post.user_bets@),
        user_bet_on(post.user_bets@, owner@, app_id@) == amount,
{
    let v = choose|v: Vec<UserBet>|
        #![trigger upsert(pre.user_bets@, owner, v)]
        v@ == set_bet(bets_of(pre.user_bets@, owner@), app_id, amount, now) && post.user_bets@
            == upsert(pre.user_bets@, owner, v);
    lemma_total_staked_upsert(pre.user_bets@, owner, v, q);
    lemma_set_bet_effect(bets_of(pre.user_bets@, owner@), app_id, amount, now, q);
    lemma_set_bet_effect(bets_of(pre.user_bets@, owner@), app_id, amount, now, app_id@);
    lemma_upsert_lookup(pre.user_bets@, owner, v, owner@);
    if bets_nonneg(pre.user_bets@) {
        lemma_bets_of_nonneg(pre.user_bets@, owner@);
        lemma_set_bet_nonneg(bets_of(pre.user_bets@, owner@), app_id, amount, now);
        lemma_upsert_nonneg(pre.user_bets@, owner, v);
    }
}

/// An accepted stake keeps every application's total equal to the sum of the
/// users' bets on it, provided the staked application's new total fits in 64 bits.
pub proof fn lemma_stake_keeps_totals(
    pre: EdgeState,
    post: EdgeState,
    owner: String,
    app_id: String,
    amount: u64,
    now: u64,
)
    requires
        pre.wf(),
        stake_check(pre, owner@, app_id@, amount) is Ok,
        stake_applied(pre, post, owner, app_id, amount, now),
        totals_consistent(pre),
        amount_of(pre.app_total_bets@, app_id@) + amount <= u64::MAX,
    ensures
        totals_consistent(post),
{
    let cur = user_bet_on(pre.user_bets@, owner@, app_id@);
    assert forall|q: Seq<char>| amount_of(post.app_total_bets@, q) == total_staked(
        post.user_bets@,
        q,
    ) by {
        lemma_bet_write_totals(pre, post, owner, app_id, (cur + amount) as i64, now, q);
        lemma_upsert_lookup(
            pre.app_total_bets@,
            app_id,
            amount_of(pre.app_total_bets@, app_id@).saturating_add(amount),
            q,
        );
        assert(amount_of(pre.app_total_bets@, q) == total_staked(pre.user_bets@, q));
    }
}

/// An accepted redemption keeps every application's total equal to the sum of
/// the users' bets on it.
pub proof fn lemma_redeem_keeps_totals(
    pre: EdgeState,
    post: EdgeState,
    owner: String,
    app_id: String,
    amount: u64,
    now: u64,
)
    requires
        pre.wf(),
        redeem_check(pre, owner@, app_id@, amount) is Ok,
        redeem_applied(pre, post, owner, app_id, amount, now),
        totals_consistent(pre),
    ensures
        totals_consistent(post),
{
    let cur = user_bet_on(pre.user_bets@, owner@, app_id@);
    lemma_bet_write_totals(pre, post, owner, app_id, (cur - amount) as i64, now, app_id@);
    lemma_total_staked_nonneg(post.user_bets@, app_id@);
    assert(amount_of(pre.app_total_bets@, app_id@) == total_staked(pre.user_bets@, app_id@));
    assert forall|q: Seq<char>| amount_of(post.app_total_bets@, q) == total_staked(
        post.user_bets@,
        q,
    ) by {
        lemma_bet_write_totals(pre, post, owner, app_id, (cur - amount) as i64, now, q);
        lemma_upsert_lookup(
            pre.app_total_bets@,
            app_id,
            amount_of(pre.app_total_bets@, app_id@).saturating_sub(amount),
            q,
        );
        assert(amount_of(pre.app_total_bets@, q) == total_staked(pre.user_bets@, q));
    }
}

impl EdgeState {
    /// Stakes `amount` of `owner`'s balance on `app_id` at time `now`.
    pub fn handle_bet(&mut self, owner: String, app_id: String, amount: u64, now: u64) -> (r: Result<
        (),
        Rejection,
    >)
        requires
            old(self).wf(),
        ensures
            final(self).wf(),
            r == stake_check(*old(self), owner@, app_id@, amount),
            r is Err ==> *final(self) == *old(self),
            r is Ok ==> stake_applied(*old(self), *final(self), owner, app_id, amount, now),
            r is Ok ==> user_bet_on(final(self).user_bets@, owner@, app_id@) <= MAX_BET_PER_APP,
            bets_nonneg(old(self).user_bets@) ==> bets_nonneg(final(self).user_bets@),
            totals_consistent(*old(self)) && amount_of(old(self).app_total_bets@, app_id@) + amount
                <= u64::MAX ==> totals_consistent(*final(self)),
    {
        if amount == 0 {
            return Err(Rejection::InvalidAmount);
        }
        let current_balance: u64 = match self.user_balances.get(&owner) {
            Some(b) => *b,
            None => INITIAL_BALANCE,
        };
        if current_balance < amount {
            return Err(Rejection::InsufficientBalance);
        }
        let current_bet = self.get_user_app_bet(&owner, &app_id);
        if current_bet.saturating_add(amount) > MAX_BET_PER_APP {
            return Err(Rejection::BetCapExceeded);
        }
        let ghost pre = *self;
        self.user_balances.insert(owner.clone(), current_balance - amount);
        let new_bet = current_bet + amount;
        self.update_user_bet(&owner, app_id.clone(), new_bet as i64, now);
        let current_total = self.get_app_total_bet(&app_id);
        self.app_total_bets.insert(app_id.clone(), current_total.saturating_add(amount));
        let current_contribution = self.get_app_pool_contribution(&app_id);
        self.app_pool_contributions.insert(
            app_id.clone(),
            current_contribution.saturating_add(amount),
        );
        self.pool_amount = self.pool_amount.saturating_add(amount);
        proof {
            lemma_bet_write_totals(pre, *self, owner, app_id, new_bet as i64, now, app_id@);
            if totals_consistent(pre) && amount_of(pre.app_total_bets@, app_id@) + amount
                <= u64::MAX {
                lemma_stake_keeps_totals(pre, *self, owner, app_id, amount, now);
            }
        }
        Ok(())
    }

    /// Redeems `amount` of `owner`'s bet on `app_id`; the fee goes to the pool.
    pub fn handle_redeem(&mut self, owner: String, app_id: String, amount: u64, now: u64) -> (r:
        Result<(), Rejection>)
        requires
            old(self).wf(),
        ensures
            final(self).wf(),
            r == redeem_check(*old(self), owner@, app_id@, amount),
            r is Err ==> *final(self) == *old(self),
            r is Ok ==> redeem_applied(*old(self), *final(self), owner, app_id, amount, now),
            bets_nonneg(old(self).user_bets@) ==> bets_nonneg(final(self).user_bets@),
            totals_consistent(*old(self)) ==> totals_consistent(*final(self)),
    {
        if amount == 0 {
            return Err(Rejection::InvalidAmount);
        }
        let current_bet = self.get_user_app_bet(&owner, &app_id);
        if amount > current_bet {
            return Err(Rejection::InsufficientBet);
        }
        let ghost pre = *self;
        let fee = redemption_fee(amount);
        let return_amount = amount - fee;
        let new_bet = current_bet - amount;
        self.update_user_bet(&owner, app_id.clone(), new_bet as i64, now);
        let current_balance = self.get_user_balance(&owner);
        self.user_balances.insert(owner.clone(), current_balance.saturating_add(return_amount));
        let current_total = self.get_app_total_bet(&app_id);
        self.app_total_bets.insert(app_id.clone(), current_total.saturating_sub(amount));
        self.pool_amount = self.pool_amount.saturating_add(fee);
        proof {
            lemma_bet_write_totals(pre, *self, owner, app_id, new_bet as i64, now, app_id@);
            if totals_consistent(pre) {
                lemma_redeem_keeps_totals(pre, *self, owner, app_id, amount, now);
            }
        }
        Ok(())
    }

    /// Adds `amount` to the pool on behalf of a whitelisted `caller`.
    pub fn handle_inject_pool(&mut self, caller: &String, amount: u64) -> (r: Result<(), Rejection>)
        requires
            old(self).wf(),
        ensures
            final(self).wf(),
            r == if !whitelisted(*old(self), caller@) {
                Err(Rejection::NotWhitelisted)
            } else if amount == 0 {
                Err(Rejection::InvalidAmount)
            } else {
                Ok(())
            },
            r is Err ==> *final(self) == *old(self),
            r is Ok ==> *final(self) == (EdgeState {
                pool_amount: old(self).pool_amount.saturating_add(amount),
                ..*old(self)
            }),
    {
        if !self.is_whitelisted(caller) {
            return Err(Rejection::NotWhitelisted);
        }
        if amount == 0 {
            return Err(Rejection::InvalidAmount);
        }
        self.pool_amount = self.pool_amount.saturating_add(amount);
        Ok(())
    }

    /// Registers a new application `app_id` at time `now` and sets its total bet to 0.
    pub fn handle_add_application(
        &mut self,
        caller: &String,
        app_id: String,
        name: String,
        description: String,
        now: u64,
    ) -> (r: Result<(), Rejection>)
        requires
            old(self).wf(),
        ensures
            final(self).wf(),
            r == if !whitelisted(*old(self), caller@) {
                Err(Rejection::NotWhitelisted)
            } else if has_key(old(self).app_info@, app_id@) {
                Err(Rejection::DuplicateApplication)
            } else {
                Ok(())
            },
            r is Err ==> *final(self) == *old(self),
            r is Ok ==> {
                &&& final(self).app_info@ == old(self).app_info@.push(
                    (
                        app_id,
                        AppInfo {
                            app_id: app_id,
                            name: name,
                            description: description,
                            added_at: now,
                            is_active: true,
                        },
                    ),
                )
                &&& final(self).app_total_bets@ == upsert(old(self).app_total_bets@, app_id, 0)
                &&& *final(self) == (EdgeState {
                    app_info: final(self).app_info,
                    app_total_bets: final(self).app_total_bets,
                    ..*old(self)
                })
            },
    {
        if !self.is_whitelisted(caller) {
            return Err(Rejection::NotWhitelisted);
        }
        if self.app_info.contains_key(&app_id) {
            return Err(Rejection::DuplicateApplication);
        }
        let info = AppInfo {
            app_id: app_id.clone(),
            name,
            description,
            added_at: now,
            is_active: true,
        };
        self.app_info.insert(app_id.clone(), info);
        self.app_total_bets.insert(app_id, 0);
        Ok(())
    }

    /// Deletes the metadata of `app_id`; its bets and totals stay.
    pub fn handle_remove_application(&mut self, caller: &String, app_id: &String) -> (r: Result<
        (),
        Rejection,
    >)
        requires
            old(self).wf(),
        ensures
            final(self).wf(),
            r == if !whitelisted(*old(self), caller@) {
                Err(Rejection::NotWhitelisted)
            } else {
                Ok(())
            },
            r is Err ==> *final(self) == *old(self),
            r is Ok ==> final(self).app_info@ == without(old(self).app_info@, app_id@),
            r is Ok ==> *final(self) == (EdgeState { app_info: final(self).app_info, ..*old(self) }),
    {
        if !self.is_whitelisted(caller) {
            return Err(Rejection::NotWhitelisted);
        }
        self.app_info.remove(app_id);
        Ok(())
    }

    /// First-time setup: records `contract_address` as owner (whitelisting it and
    /// the bootstrap address) and starts the settlement clock at `now`.
    /// Does nothing once an owner is set.
    pub fn instantiate(&mut self, contract_address: String, now: u64)
        requires
            old(self).wf(),
        ensures
            final(self).wf(),
            old(self).owner is Some ==> *final(self) == *old(self),
            old(self).owner is None ==> {
                &&& final(self).owner == Some(contract_address)
                &&& whitelisted(*final(self), contract_address@)
                &&& whitelisted(*final(self), BOOTSTRAP_ADMIN@)
                &&& forall|a: Seq<char>|
                    #![trigger lookup(final(self).whitelist@, a)]
                    lookup(final(self).whitelist@, a) == if a == lower_of(contract_address@) || a
                        == lower_of(BOOTSTRAP_ADMIN@) {
                        Some(true)
                    } else {
                        lookup(old(self).whitelist@, a)
                    }
                &&& *final(self) == (EdgeState {
                    owner: final(self).owner,
                    whitelist: final(self).whitelist,
                    last_settle_time: now,
                    ..*old(self)
                })
            },
    {
        if self.owner.is_some() {
            return ;
        }
        self.set_owner(contract_address);
        self.last_settle_time = now;
    }
}

} // verus!
