use linera_edge_ledger::operation::EdgeOperation;
use linera_edge_ledger::ranking::rank_descending;
use linera_edge_ledger::rewards::{
    app_reward, bonus_percent, distribution_amount, pro_rata_shares, redemption_fee,
    redemption_payout,
};
use linera_edge_ledger::settlement::{ONE_DAY_MICROS, ONE_WEEK_MICROS};
use linera_edge_ledger::state::{EdgeState, Rejection};

const T0: u64 = 1_000_000_000_000;
const MINUTE: u64 = 60_000_000;

fn s(x: &str) -> String {
    x.to_string()
}

fn admin_state() -> EdgeState {
    let mut st = EdgeState::create_empty();
    st.instantiate(s("admin"), T0);
    st
}

fn snapshot(st: &EdgeState, users: &[&str], apps: &[&str]) -> Vec<u64> {
    let mut v = vec![st.pool_amount, st.last_settle_time];
    for u in users {
        v.push(st.get_user_balance(&s(u)));
        v.push(st.get_user_daily_earnings(&s(u)));
        for a in apps {
            v.push(st.get_user_app_bet(&s(u), &s(a)));
        }
    }
    for a in apps {
        v.push(st.get_app_total_bet(&s(a)));
        v.push(st.get_app_pool_contribution(&s(a)));
    }
    v
}

#[test]
fn end_to_end_stake_redeem_settle() {
    let mut st = admin_state();
    assert_eq!(st.pool_amount, 0);
    assert_eq!(st.handle_add_application(&s("admin"), s("A"), s("App A"), s("first"), T0), Ok(()));
    assert_eq!(st.get_app_total_bet(&s("A")), 0);

    assert_eq!(st.handle_bet(s("U"), s("A"), 40, T0 + 1), Ok(()));
    assert_eq!(st.get_user_balance(&s("U")), 60);
    assert_eq!(st.get_app_total_bet(&s("A")), 40);
    assert_eq!(st.pool_amount, 40);

    assert_eq!(st.handle_redeem(s("U"), s("A"), 40, T0 + 2), Ok(()));
    assert_eq!(st.get_user_balance(&s("U")), 99);
    assert_eq!(st.get_app_total_bet(&s("A")), 0);
    assert_eq!(st.pool_amount, 41);

    let before = snapshot(&st, &["U"], &["A"]);
    assert_eq!(st.handle_settle(&s("admin"), T0 + 30_000_000), Err(Rejection::TooEarly));
    assert_eq!(snapshot(&st, &["U"], &["A"]), before);

    let later = T0 + MINUTE + 1;
    assert_eq!(st.handle_settle(&s("admin"), later), Ok(()));
    assert_eq!(st.last_settle_time, later);
    assert_eq!(st.get_user_balance(&s("U")), 99);
    assert_eq!(st.pool_amount, 41);
    assert_eq!(st.get_user_daily_earnings(&s("U")), 0);
}

#[test]
fn stake_over_cap_is_rejected_without_change() {
    let mut st = admin_state();
    st.update_user_balance(&s("u"), 200);
    assert_eq!(st.handle_bet(s("u"), s("A"), 60, T0), Ok(()));
    let before = snapshot(&st, &["u"], &["A"]);
    assert_eq!(st.handle_bet(s("u"), s("A"), 50, T0 + 5), Err(Rejection::BetCapExceeded));
    assert_eq!(snapshot(&st, &["u"], &["A"]), before);
    assert_eq!(st.get_user_app_bet(&s("u"), &s("A")), 60);
    assert_eq!(st.handle_bet(s("u"), s("A"), 40, T0 + 6), Ok(()));
    assert_eq!(st.get_user_app_bet(&s("u"), &s("A")), 100);
    assert_eq!(st.get_user_balance(&s("u")), 100);
    assert_eq!(st.handle_bet(s("u"), s("A"), 1, T0 + 7), Err(Rejection::BetCapExceeded));
}

#[test]
fn redemption_fee_floor() {
    assert_eq!(redemption_fee(50), 1);
    assert_eq!(redemption_payout(50), 49);
    assert_eq!(redemption_fee(1000), 10);
    assert_eq!(redemption_payout(1000), 990);
    assert_eq!(redemption_fee(100), 1);
    assert_eq!(redemption_fee(101), 2);
    assert_eq!(redemption_fee(1), 1);
    assert_eq!(redemption_payout(1), 0);
}

#[test]
fn settle_twice_within_a_minute_is_a_no_op() {
    let mut st = admin_state();
    st.handle_add_application(&s("admin"), s("A"), s("A"), s(""), T0).unwrap();
    st.handle_bet(s("u1"), s("A"), 100, T0).unwrap();
    let t1 = T0 + 2 * MINUTE;
    assert_eq!(st.handle_settle(&s("admin"), t1), Ok(()));
    let after_first = snapshot(&st, &["u1"], &["A"]);
    assert_eq!(st.handle_settle(&s("admin"), t1 + MINUTE - 1), Err(Rejection::TooEarly));
    assert_eq!(snapshot(&st, &["u1"], &["A"]), after_first);
    assert_eq!(st.handle_settle(&s("admin"), t1 + MINUTE), Ok(()));
}

#[test]
fn pro_rata_two_bettors() {
    let bettors = vec![(s("a"), 30u64), (s("b"), 10u64)];
    let shares = pro_rata_shares(101, &bettors);
    assert_eq!(shares, vec![(s("a"), 101 * 30 / 40), (s("b"), 101 * 10 / 40)]);
    assert_eq!(shares[0].1, 75);
    assert_eq!(shares[1].1, 25);
    assert!(shares[0].1 + shares[1].1 <= 101);
    assert!(pro_rata_shares(5, &Vec::new()).is_empty());
}

#[test]
fn daily_reset_clears_once_per_period() {
    let mut st = admin_state();
    st.update_user_earnings(&s("u"), 7);
    let t1 = ONE_DAY_MICROS + 5;
    st.check_and_perform_resets(t1);
    assert_eq!(st.get_user_daily_earnings(&s("u")), 0);
    assert_eq!(st.last_daily_reset, t1);

    st.update_user_earnings(&s("u"), 3);
    st.check_and_perform_resets(t1 + ONE_DAY_MICROS - 1);
    assert_eq!(st.get_user_daily_earnings(&s("u")), 3);
    assert_eq!(st.last_daily_reset, t1);

    st.check_and_perform_resets(t1 + ONE_DAY_MICROS);
    assert_eq!(st.get_user_daily_earnings(&s("u")), 0);
    assert_eq!(st.last_daily_reset, t1 + ONE_DAY_MICROS);
    assert_eq!(st.get_user_weekly_earnings(&s("u")), 10);
    st.check_and_perform_resets(ONE_WEEK_MICROS + 10);
    assert_eq!(st.get_user_weekly_earnings(&s("u")), 0);
}

#[test]
fn totals_match_sum_of_bets_and_stay_nonnegative() {
    let mut st = admin_state();
    st.handle_bet(s("a"), s("X"), 30, T0).unwrap();
    st.handle_bet(s("b"), s("X"), 25, T0).unwrap();
    st.handle_bet(s("a"), s("Y"), 50, T0).unwrap();
    st.handle_redeem(s("b"), s("X"), 5, T0).unwrap();
    st.handle_bet(s("a"), s("X"), 10, T0).unwrap();
    assert_eq!(st.handle_redeem(s("a"), s("Y"), 51, T0), Err(Rejection::InsufficientBet));
    st.handle_redeem(s("a"), s("Y"), 50, T0).unwrap();
    for app in ["X", "Y"] {
        let sum: u64 = ["a", "b"].iter().map(|u| st.get_user_app_bet(&s(u), &s(app))).sum();
        assert_eq!(st.get_app_total_bet(&s(app)), sum);
    }
    assert_eq!(st.get_app_total_bet(&s("X")), 60);
    assert_eq!(st.get_app_total_bet(&s("Y")), 0);
    for u in ["a", "b"] {
        for b in st.get_all_user_bets(&s(u)) {
            assert!(b.amount >= 0);
        }
    }
    assert_eq!(st.get_app_pool_contribution(&s("X")), 65);
    assert_eq!(st.get_app_pool_contribution(&s("Y")), 50);
}

fn two_app_market() -> EdgeState {
    let mut st = admin_state();
    st.handle_add_application(&s("admin"), s("A"), s("Alpha"), s(""), T0).unwrap();
    st.handle_add_application(&s("admin"), s("B"), s("Beta"), s(""), T0).unwrap();
    for i in 0..20 {
        st.handle_bet(format!("a{}", i), s("A"), 100, T0).unwrap();
    }
    for i in 0..10 {
        st.handle_bet(format!("b{}", i), s("B"), 50, T0).unwrap();
    }
    st
}

#[test]
fn settlement_pays_weighted_pro_rata_rewards() {
    let mut st = two_app_market();
    assert_eq!(st.pool_amount, 2500);
    let plan = st.settlement_plan(T0 + MINUTE, 0);
    assert_eq!(plan.2, 250);
    assert!(plan.1);
    assert_eq!(plan.0.len(), 30);
    assert_eq!(st.handle_settle(&s("admin"), T0 + MINUTE), Ok(()));
    for i in 0..20 {
        assert_eq!(st.get_user_balance(&format!("a{}", i)), 4);
        assert_eq!(st.get_user_daily_earnings(&format!("a{}", i)), 4);
        assert_eq!(st.get_user_monthly_earnings(&format!("a{}", i)), 4);
    }
    for i in 0..10 {
        assert_eq!(st.get_user_balance(&format!("b{}", i)), 57);
        assert_eq!(st.get_user_weekly_earnings(&format!("b{}", i)), 7);
    }
    assert_eq!(st.pool_amount, 2250);
    assert_eq!(st.last_settle_time, T0 + MINUTE);

    let board = st.get_daily_leaderboard(3);
    assert_eq!(board, vec![(s("b0"), 7), (s("b1"), 7), (s("b2"), 7)]);
    let earnings = st.get_user_earnings(&s("b3"));
    assert_eq!((earnings.daily, earnings.weekly, earnings.monthly), (7, 7, 7));
}

#[test]
fn removed_application_is_not_paid() {
    let mut st = two_app_market();
    assert_eq!(st.handle_remove_application(&s("admin"), &s("A")), Ok(()));
    assert!(st.get_app_info(&s("A")).is_none());
    assert_eq!(st.get_app_total_bet(&s("A")), 2000);
    st.handle_settle(&s("admin"), T0 + MINUTE).unwrap();
    assert_eq!(st.get_user_balance(&s("a0")), 0);
    assert_eq!(st.get_user_balance(&s("b0")), 57);
    assert_eq!(st.pool_amount, 2250);
}

#[test]
fn old_application_gets_no_new_app_bonus() {
    let mut st = two_app_market();
    let later = T0 + 7 * ONE_DAY_MICROS;
    st.handle_settle(&s("admin"), later).unwrap();
    // A: 37 * 200 / 100 = 74, each a-user 74 * 100 / 2000 = 3
    assert_eq!(st.get_user_balance(&s("a0")), 3);
    // B: 35 * 200 / 100 = 70, each b-user 70 * 50 / 500 = 7
    assert_eq!(st.get_user_balance(&s("b9")), 57);
}

#[test]
fn settlement_with_empty_pool_only_resets() {
    let mut st = admin_state();
    st.update_user_earnings(&s("x"), 9);
    assert_eq!(st.handle_settle(&s("admin"), T0 + ONE_DAY_MICROS), Ok(()));
    assert_eq!(st.get_user_daily_earnings(&s("x")), 0);
    assert_eq!(st.last_settle_time, T0);
}

#[test]
fn rejections_name_their_reason() {
    let mut st = admin_state();
    assert_eq!(
        st.handle_add_application(&s("mallory"), s("A"), s("A"), s(""), T0),
        Err(Rejection::NotWhitelisted)
    );
    st.handle_add_application(&s("admin"), s("A"), s("A"), s(""), T0).unwrap();
    assert_eq!(
        st.handle_add_application(&s("admin"), s("A"), s("again"), s(""), T0),
        Err(Rejection::DuplicateApplication)
    );
    assert_eq!(st.handle_bet(s("u"), s("A"), 0, T0), Err(Rejection::InvalidAmount));
    assert_eq!(st.handle_bet(s("u"), s("A"), 101, T0), Err(Rejection::InsufficientBalance));
    assert_eq!(st.get_user_balance(&s("u")), 0);
    assert_eq!(st.handle_redeem(s("u"), s("A"), 1, T0), Err(Rejection::InsufficientBet));
    assert_eq!(st.handle_redeem(s("u"), s("A"), 0, T0), Err(Rejection::InvalidAmount));
    assert_eq!(st.handle_settle(&s("mallory"), T0 + MINUTE), Err(Rejection::NotWhitelisted));
    assert_eq!(st.handle_settle(&s("admin"), T0 + 1), Err(Rejection::TooEarly));
    assert_eq!(st.handle_inject_pool(&s("mallory"), 5), Err(Rejection::NotWhitelisted));
    assert_eq!(st.handle_inject_pool(&s("admin"), 0), Err(Rejection::InvalidAmount));
    assert_eq!(st.handle_inject_pool(&s("admin"), 5), Ok(()));
    assert_eq!(st.pool_amount, 5);
    assert_eq!(st.handle_remove_application(&s("mallory"), &s("A")), Err(Rejection::NotWhitelisted));
}

#[test]
fn whitelist_ignores_address_case() {
    let mut st = EdgeState::create_empty();
    st.set_owner(s("0xAbC"));
    assert!(st.is_whitelisted(&s("0xabc")));
    assert!(st.is_whitelisted(&s("0xABC")));
    assert!(st.is_whitelisted(&s("0xA0916F957038344AFFF8C117B0A568562F73F0F2")));
    assert!(!st.is_whitelisted(&s("0xabd")));
    assert_eq!(st.get_owner(), Some(s("0xAbC")));
}

#[test]
fn instantiate_runs_once() {
    let mut st = EdgeState::create_empty();
    st.instantiate(s("first"), 10);
    st.instantiate(s("second"), 20);
    assert_eq!(st.get_owner(), Some(s("first")));
    assert_eq!(st.last_settle_time, 10);
    assert!(!st.is_whitelisted(&s("second")));
}

#[test]
fn balance_initialisation() {
    let mut st = EdgeState::create_empty();
    assert_eq!(st.get_user_balance(&s("n")), 0);
    assert_eq!(st.get_user_balance_with_initialization(&s("n")), 100);
    st.update_user_balance(&s("n"), 7);
    assert_eq!(st.get_user_balance_with_initialization(&s("n")), 7);
    st.initialize_user_balance(&s("m"));
    assert_eq!(st.get_user_points(&s("m")), 100);
    st.update_user_points(&s("m"), 3);
    assert_eq!(st.get_user_balance(&s("m")), 3);
}

#[test]
fn stable_descending_ranking() {
    assert_eq!(rank_descending(&vec![5, 9, 5, 1, 9]), vec![1, 4, 0, 2, 3]);
    assert_eq!(rank_descending(&Vec::new()), Vec::<usize>::new());
}

#[test]
fn reward_formulas() {
    assert_eq!(distribution_amount(2500), 250);
    assert_eq!(distribution_amount(9), 0);
    assert_eq!(bonus_percent(3, 0, 10), 30);
    assert_eq!(bonus_percent(12, 5, 0), 100 + 25 + 20);
    assert_eq!(bonus_percent(0, 9, 6), 5 + 20);
    assert_eq!(app_reward(250, 0, 20, 0), 81);
    assert_eq!(app_reward(250, 1, 10, 0), 77);
    assert_eq!(app_reward(1000, 9, 0, 30), 60 * 105 / 100);
}

#[test]
fn rankings_of_applications() {
    let st = two_app_market();
    let top = st.get_top_apps(1);
    assert_eq!(top.len(), 1);
    assert_eq!(top[0].app_id, "A");
    assert_eq!(top[0].name, "Alpha");
    assert_eq!(top[0].total_bet, 2000);
    assert_eq!(top[0].pool_contribution, 2000);
    assert_eq!(top[0].rank, 1);
    assert_eq!(top[0].supporters, 20);
    let all = st.get_all_apps_for_betting();
    assert_eq!(all.len(), 2);
    assert_eq!(all[1].app_id, "B");
    assert_eq!(all[1].rank, 2);
    assert_eq!(all[1].supporters, 10);
    assert_eq!(st.get_app_supporters_count(&s("B")), 10);
    assert_eq!(st.get_app_bettors(&s("B")).len(), 10);
    assert_eq!(st.get_active_users_count(), 30);
}

#[test]
fn listing_applications() {
    let st = admin_state();
    let empty = st.get_all_apps(42);
    assert_eq!(empty.len(), 1);
    assert_eq!(empty[0].app_id, "system-empty");
    assert!(!empty[0].is_active);
    assert_eq!(empty[0].added_at, 42);
    let st = two_app_market();
    let apps = st.get_all_apps(42);
    assert_eq!(apps.len(), 2);
    assert_eq!(apps[0].name, "Alpha");
    assert_eq!(apps[1].added_at, T0);
    assert!(apps[1].is_active);
}

#[test]
fn bet_records() {
    let mut st = admin_state();
    st.handle_bet(s("u"), s("A"), 10, T0).unwrap();
    st.handle_bet(s("u"), s("B"), 20, T0 + 7).unwrap();
    let bets = st.get_all_user_bets(&s("u"));
    assert_eq!(bets.len(), 2);
    assert_eq!(bets[1].app_id, "B");
    assert_eq!(bets[1].amount, 20);
    assert_eq!(bets[1].timestamp, T0 + 7);
    st.update_user_bet(&s("u"), s("A"), 15, T0 + 9);
    assert_eq!(st.get_user_app_bet(&s("u"), &s("A")), 15);
    assert_eq!(st.get_all_user_bets(&s("u"))[0].timestamp, T0 + 9);
    st.record_user_bet(&s("u"), &s("C"), -4, T0);
    assert_eq!(st.get_user_app_bet(&s("u"), &s("C")), 0);
    st.clear_user_bets_for_app(&s("u"), &s("A"));
    assert_eq!(st.get_all_user_bets(&s("u")).len(), 2);
    st.clear_user_bets_for_app(&s("u"), &s("B"));
    st.clear_user_bets_for_app(&s("u"), &s("C"));
    assert!(st.get_all_user_bets(&s("u")).is_empty());
    assert_eq!(st.get_active_users_count(), 0);
}

#[test]
fn operations_dispatch() {
    let mut st = admin_state();
    let ops = vec![
        EdgeOperation::AddApplication {
            caller: s("admin"),
            app_id: s("A"),
            name: s("A"),
            description: s("d"),
        },
        EdgeOperation::Bet { caller: s("u"), app_id: s("A"), amount: 30 },
        EdgeOperation::Redeem { caller: s("u"), app_id: s("A"), amount: 10 },
        EdgeOperation::InjectPool { caller: s("admin"), amount: 100 },
        EdgeOperation::Settle { caller: s("admin") },
        EdgeOperation::RemoveApplication { caller: s("admin"), app_id: s("A") },
    ];
    let results: Vec<Result<(), Rejection>> =
        ops.into_iter().map(|op| st.execute_operation(op, T0 + 2 * MINUTE)).collect();
    assert_eq!(results, vec![Ok(()); 6]);
    assert_eq!(st.get_user_app_bet(&s("u"), &s("A")), 20);
    assert_eq!(st.get_user_balance(&s("u")), 79);
    assert!(st.get_app_info(&s("A")).is_none());
}

#[test]
fn automatic_settlement_pays_only_bets_a_minute_old() {
    let mut st = admin_state();
    st.handle_add_application(&s("admin"), s("A"), s("A"), s(""), T0).unwrap();
    for i in 0..20 {
        st.handle_bet(format!("a{}", i), s("A"), 100, T0).unwrap();
    }
    st.handle_bet(s("late"), s("A"), 100, T0 + 50_000_000).unwrap();
    assert!(!st.check_and_execute_automatic_settlement(T0 + 30_000_000));
    assert_eq!(st.last_settle_time, T0);
    assert!(st.check_and_execute_automatic_settlement(T0 + MINUTE + 1_000_000));
    // dist 210, base 31, reward 31 * 220 / 100 = 68, each of 2000 staked: 68 * 100 / 2000 = 3
    assert_eq!(st.get_user_balance(&s("a0")), 3);
    assert_eq!(st.get_user_balance(&s("late")), 0);
    assert_eq!(st.get_user_daily_earnings(&s("late")), 0);
    assert_eq!(st.pool_amount, 2100 - 210);
    assert_eq!(st.get_aged_bettors(&s("A"), T0 + MINUTE, MINUTE).len(), 20);
    assert_eq!(st.get_app_bettors(&s("A")).len(), 21);
}

#[test]
fn largest_amounts_saturate() {
    let mut st = admin_state();
    assert_eq!(st.handle_inject_pool(&s("admin"), u64::MAX), Ok(()));
    assert_eq!(st.handle_inject_pool(&s("admin"), 7), Ok(()));
    assert_eq!(st.pool_amount, u64::MAX);
    assert_eq!(redemption_fee(u64::MAX), u64::MAX / 100 + 1);
    assert_eq!(redemption_payout(u64::MAX), u64::MAX - (u64::MAX / 100 + 1));
    assert_eq!(distribution_amount(10 * (u64::MAX as u128)), u64::MAX);
    st.update_user_earnings(&s("w"), u64::MAX);
    st.update_user_earnings(&s("w"), 1);
    assert_eq!(st.get_user_monthly_earnings(&s("w")), u64::MAX);
}

#[test]
fn bet_reads_sum_of_records() {
    let mut st = admin_state();
    st.record_user_bet(&s("u"), &s("A"), 5, T0);
    st.record_user_bet(&s("u"), &s("A"), 7, T0);
    assert_eq!(st.get_user_app_bet(&s("u"), &s("A")), 12);
    assert_eq!(st.get_app_bettors(&s("A")), vec![(s("u"), 12)]);
    st.record_user_bet(&s("v"), &s("A"), 5, T0);
    st.record_user_bet(&s("v"), &s("A"), -8, T0);
    assert_eq!(st.get_user_app_bet(&s("v"), &s("A")), 0);
    assert_eq!(st.get_app_bettors(&s("A")).len(), 1);

    assert_eq!(st.handle_bet(s("u"), s("A"), 3, T0 + 1), Ok(()));
    assert_eq!(st.get_user_app_bet(&s("u"), &s("A")), 15);
    let bets = st.get_all_user_bets(&s("u"));
    assert_eq!(bets.len(), 2);
    assert_eq!((bets[0].amount, bets[1].amount), (15, 0));
    assert_eq!(st.get_user_balance(&s("u")), 97);
    assert_eq!(st.handle_bet(s("u"), s("A"), 86, T0 + 2), Err(Rejection::BetCapExceeded));
    assert_eq!(st.handle_redeem(s("u"), s("A"), 16, T0 + 3), Err(Rejection::InsufficientBet));
    assert_eq!(st.handle_redeem(s("u"), s("A"), 15, T0 + 3), Ok(()));
    assert_eq!(st.get_user_app_bet(&s("u"), &s("A")), 0);
}

#[test]
fn instantiate_whitelists_bootstrap_address() {
    let st = admin_state();
    assert!(st.is_whitelisted(&s("admin")));
    assert!(st.is_whitelisted(&s("0xa0916f957038344afff8c117b0a568562f73f0f2")));
    assert_eq!(st.pool_amount, 0);
}
