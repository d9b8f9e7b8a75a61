//! Fee and reward arithmetic: redemption fee, distribution amount, rank
//! weights, bonus percentages and the pro-rata split among bettors.
use vstd::prelude::*;

verus! {

/// Number of top-ranked applications that take part in a settlement.
pub const TOP_APPS: usize = 10;

/// Share of the top applications' combined stake distributed per settlement, in percent.
pub const DISTRIBUTION_PERCENT: u64 = 10;

/// The fee kept by the pool when `amount` is redeemed.
pub open spec fn redemption_fee_spec(amount: int) -> int {
    if amount <= 100 {
        1
    } else {
        let c = (amount + 99) / 100;
        if c < 1 {
            1
        } else {
            c
        }
    }
}

/// Flat 1 unit up to 100 units; otherwise 1% rounded up, and at least 1 unit.
pub fn redemption_fee(amount: u64) -> (fee: u64)
    ensures
        fee == redemption_fee_spec(amount as int),
        amount >= 1 ==> 1 <= fee <= amount,
{
    if amount <= 100 {
        1
    } else {
        let c: u64 = amount / 100 + if amount % 100 == 0 {
            0u64
        } else {
            1u64
        };
        assert(c == (amount + 99) / 100);
        if c < 1 {
            1
        } else {
            c
        }
    }
}

/// The amount paid back when `amount` is redeemed.
pub fn redemption_payout(amount: u64) -> (payout: u64)
    requires
        amount >= 1,
    ensures
        payout == amount - redemption_fee_spec(amount as int),
{
    amount - redemption_fee(amount)
}

/// `floor(top_sum * 10 / 100)`.
pub open spec fn distribution_spec(top_sum: int) -> int {
    top_sum * DISTRIBUTION_PERCENT / 100
}

pub fn distribution_amount(top_sum: u128) -> (d: u64)
    requires
        top_sum <= 10 * (u64::MAX as int),
    ensures
        d == distribution_spec(top_sum as int),
{
    (top_sum * 10 / 100) as u64
}

/// Weight of rank `rank` (0 is the highest): 15, 14, ..., 6 percent.
pub open spec fn weight_spec(rank: int) -> int {
    15 - rank
}

/// Supporter bonus: 10 points per supporter, at most 100.
pub open spec fn supporter_bonus_spec(supporters: int) -> int {
    if supporters * 10 < 100 {
        supporters * 10
    } else {
        100
    }
}

/// Growth bonus for the lower half of the top ten.
pub open spec fn growth_bonus_spec(rank: int) -> int {
    if rank >= 5 {
        (10 - rank) * 5
    } else {
        0
    }
}

/// Bonus for an application added less than seven whole days ago.
pub open spec fn new_app_bonus_spec(days_since_added: int) -> int {
    if days_since_added < 7 {
        20
    } else {
        0
    }
}

pub open spec fn bonus_percent_spec(supporters: int, rank: int, days_since_added: int) -> int {
    supporter_bonus_spec(supporters) + growth_bonus_spec(rank) + new_app_bonus_spec(
        days_since_added,
    )
}

/// `floor(dist * weight / 100)`.
pub open spec fn base_reward_spec(dist: int, rank: int) -> int {
    dist * weight_spec(rank) / 100
}

/// The reward of the application at `rank`, bonuses included.
pub open spec fn app_reward_spec(dist: int, rank: int, supporters: int, days_since_added: int) -> int {
    base_reward_spec(dist, rank) * (100 + bonus_percent_spec(supporters, rank, days_since_added))
        / 100
}

pub fn bonus_percent(supporters: u64, rank: usize, days_since_added: u64) -> (b: u64)
    requires
        rank < TOP_APPS,
    ensures
        b == bonus_percent_spec(supporters as int, rank as int, days_since_added as int),
        b <= 145,
{
    let supporter_bonus: u64 = if supporters < 10 {
        supporters * 10
    } else {
        100
    };
    let growth_bonus: u64 = if rank >= 5 {
        ((10 - rank) * 5) as u64
    } else {
        0
    };
    let new_app_bonus: u64 = if days_since_added < 7 {
        20
    } else {
        0
    };
    supporter_bonus + growth_bonus + new_app_bonus
}

pub fn app_reward(dist: u64, rank: usize, supporters: u64, days_since_added: u64) -> (r: u64)
    requires
        rank < TOP_APPS,
    ensures
        r == app_reward_spec(dist as int, rank as int, supporters as int, days_since_added as int),
        r <= dist,
{
    let weight: u128 = (15 - rank) as u128;
    assert(dist * weight <= 15 * (u64::MAX as int)) by (nonlinear_arith)
        requires
            weight <= 15,
            dist <= u64::MAX,
    ;
    let base: u128 = dist as u128 * weight / 100;
    assert(base <= dist) by (nonlinear_arith)
        requires
            base == dist * weight / 100,
            weight <= 15,
    ;
    let bonus = bonus_percent(supporters, rank, days_since_added);
    assert(base * (100 + bonus) <= 245 * (u64::MAX as int)) by (nonlinear_arith)
        requires
            base <= dist,
            dist <= u64::MAX,
            bonus <= 145,
    ;
    let total: u128 = base * (100 + bonus as u128) / 100;
    assert(total <= dist) by (nonlinear_arith)
        requires
            total == base * (100 + bonus) / 100,
            base == dist * weight / 100,
            weight <= 15,
            bonus <= 145,
    ;
    total as u64
}

/// Sum of the amounts in `s`.
pub open spec fn sum_amounts(s: Seq<(String, u64)>) -> int
    decreases s.len(),
{
    if s.len() == 0 {
        0
    } else {
        sum_amounts(s.drop_last()) + s.last().1
    }
}

/// `floor(reward * bet / total)`.
pub open spec fn share_spec(reward: int, bet: int, total: int) -> int {
    reward * bet / total
}

/// Each bettor's share of `reward`, in the bettors' order.
pub open spec fn pro_rata_spec(reward: int, bettors: Seq<(String, u64)>) -> Seq<(String, u64)> {
    Seq::new(
        bettors.len(),
        |i: int| (bettors[i].0, share_spec(reward, bettors[i].1 as int, sum_amounts(bettors)) as u64),
    )
}

/// Sum of the shares of `reward` over the first `n` bettors.
pub open spec fn shares_total(reward: int, bettors: Seq<(String, u64)>, total: int, n: int) -> int
    decreases n,
{
    if n <= 0 {
        0
    } else {
        shares_total(reward, bettors, total, n - 1) + share_spec(reward, bettors[n - 1].1 as int, total)
    }
}

pub proof fn lemma_sum_amounts_bounds(s: Seq<(String, u64)>)
    ensures
        0 <= sum_amounts(s) <= s.len() * (u64::MAX as int),
        forall|i: int| 0 <= i < s.len() ==> #[trigger] s[i].1 <= sum_amounts(s),
    decreases s.len(),
{
    if s.len() > 0 {
        lemma_sum_amounts_bounds(s.drop_last());
        assert forall|i: int| 0 <= i < s.len() implies #[trigger] s[i].1 <= sum_amounts(s) by {
            if i < s.len() - 1 {
                assert(s.drop_last()[i] == s[i]);
            }
        }
    }
}

proof fn lemma_shares_scaled(reward: int, bettors: Seq<(String, u64)>, total: int, n: int)
    requires
        reward >= 0,
        total > 0,
        0 <= n <= bettors.len(),
    ensures
        shares_total(reward, bettors, total, n) * total <= reward * sum_amounts(bettors.subrange(0, n)),
    decreases n,
{
    if n > 0 {
        lemma_shares_scaled(reward, bettors, total, n - 1);
        assert(bettors.subrange(0, n).drop_last() =~= bettors.subrange(0, n - 1));
        let b = bettors[n - 1].1 as int;
        let f = share_spec(reward, b, total);
        assert(f * total <= reward * b) by (nonlinear_arith)
            requires
                f == reward * b / total,
                total > 0,
        ;
        let prev = shares_total(reward, bettors, total, n - 1);
        assert((prev + f) * total == prev * total + f * total) by (nonlinear_arith);
        assert(reward * sum_amounts(bettors.subrange(0, n)) == reward * sum_amounts(
            bettors.subrange(0, n - 1),
        ) + reward * b) by (nonlinear_arith)
            requires
                sum_amounts(bettors.subrange(0, n)) == sum_amounts(bettors.subrange(0, n - 1)) + b,
        ;
    }
}

proof fn lemma_shares_sum(reward: int, bettors: Seq<(String, u64)>, k: int)
    requires
        0 <= reward <= u64::MAX,
        sum_amounts(bettors) > 0,
        0 <= k <= bettors.len(),
        forall|i: int| 0 <= i < bettors.len() ==> #[trigger] bettors[i].1 <= sum_amounts(bettors),
    ensures
        sum_amounts(pro_rata_spec(reward, bettors).subrange(0, k)) == shares_total(
            reward,
            bettors,
            sum_amounts(bettors),
            k,
        ),
    decreases k,
{
    if k > 0 {
        let shares = pro_rata_spec(reward, bettors);
        lemma_shares_sum(reward, bettors, k - 1);
        assert(shares.subrange(0, k).drop_last() =~= shares.subrange(0, k - 1));
        let total = sum_amounts(bettors);
        let b = bettors[k - 1].1 as int;
        let f = share_spec(reward, b, total);
        assert(0 <= f <= reward) by (nonlinear_arith)
            requires
                f == reward * b / total,
                0 <= b <= total,
                total > 0,
                reward >= 0,
        ;
    }
}

/// The bettors' shares never add up to more than the reward they split:
/// rounding down only ever leaves dust behind.
pub proof fn lemma_pro_rata_within_reward(reward: u64, bettors: Seq<(String, u64)>)
    requires
        sum_amounts(bettors) > 0,
    ensures
        sum_amounts(pro_rata_spec(reward as int, bettors)) <= reward,
{
    let total = sum_amounts(bettors);
    let n = bettors.len() as int;
    lemma_sum_amounts_bounds(bettors);
    lemma_shares_sum(reward as int, bettors, n);
    assert(pro_rata_spec(reward as int, bettors).subrange(0, n) =~= pro_rata_spec(
        reward as int,
        bettors,
    ));
    lemma_shares_scaled(reward as int, bettors, total, n);
    assert(bettors.subrange(0, n) =~= bettors);
    let st = shares_total(reward as int, bettors, total, n);
    assert(st <= reward) by (nonlinear_arith)
        requires
            st * total <= reward * total,
            total > 0,
    ;
}

/// Splits `reward` among `bettors` in proportion to their bets (rounded down).
pub fn pro_rata_shares(reward: u64, bettors: &Vec<(String, u64)>) -> (shares: Vec<(String, u64)>)
    ensures
        sum_amounts(bettors@) > 0 ==> shares@ == pro_rata_spec(reward as int, bettors@),
        sum_amounts(bettors@) == 0 ==> shares@.len() == 0,
{
    let n = bettors.len();
    let mut total: u128 = 0;
    let mut i: usize = 0;
    while i < n
        invariant
            i <= n,
            n == bettors@.len(),
            total == sum_amounts(bettors@.subrange(0, i as int)),
            total <= i * (u64::MAX as int),
        decreases n - i,
    {
        assert(bettors@.subrange(0, i + 1).drop_last() =~= bettors@.subrange(0, i as int));
        assert(total + bettors@[i as int].1 <= (i + 1) * (u64::MAX as int)) by (nonlinear_arith)
            requires
                total <= i * (u64::MAX as int),
                bettors@[i as int].1 <= u64::MAX,
        ;
        assert(i + 1 <= usize::MAX);
        assert((i + 1) * (u64::MAX as int) <= u128::MAX) by (nonlinear_arith)
            requires
                i + 1 <= usize::MAX,
                usize::MAX <= u64::MAX,
        ;
        total = total + bettors[i].1 as u128;
        i = i + 1;
    }
    assert(bettors@.subrange(0, n as int) =~= bettors@);
    let mut shares: Vec<(String, u64)> = Vec::new();
    if total == 0 {
        return shares;
    }
    proof {
        lemma_sum_amounts_bounds(bettors@);
    }
    let mut j: usize = 0;
    while j < n
        invariant
            j <= n,
            n == bettors@.len(),
            total == sum_amounts(bettors@),
            total > 0,
            forall|k: int| 0 <= k < n ==> #[trigger] bettors@[k].1 <= total,
            shares@ =~= pro_rata_spec(reward as int, bettors@).subrange(0, j as int),
        decreases n - j,
    {
        let bet = bettors[j].1;
        assert((reward as int) * (bet as int) <= (u64::MAX as int) * (u64::MAX as int))
            by (nonlinear_arith)
            requires
                reward <= u64::MAX,
                bet <= u64::MAX,
        ;
        let share: u128 = reward as u128 * bet as u128 / total;
        assert(share <= reward) by (nonlinear_arith)
            requires
                share == (reward as int) * (bet as int) / (total as int),
                bet <= total,
                total > 0,
        ;
        shares.push((bettors[j].0.clone(), share as u64));
        j = j + 1;
    }
    shares
}

} // verus!
