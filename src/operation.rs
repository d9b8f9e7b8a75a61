//! The operations the ledger accepts, and their dispatch.
use vstd::prelude::*;
use crate::accounting::{bets_nonneg, redeem_applied, redeem_check, stake_applied, stake_check};
use crate::settlement::{distribution_applied, resets_applied, settle_check, settle_outcome};
use crate::state::{whitelisted, AppInfo, EdgeState, Rejection};
use crate::table::{has_key, upsert, without};

verus! {

/// An operation as delivered by the host; amounts are in units, callers are addresses.
pub enum EdgeOperation {
    Bet { caller: String, app_id: String, amount: u64 },
    Redeem { caller: String, app_id: String, amount: u64 },
    Settle { caller: String },
    AddApplication { caller: String, app_id: String, name: String, description: String },
    RemoveApplication { caller: String, app_id: String },
    InjectPool { caller: String, amount: u64 },
}

/// `post` and `r` are what applying `op` at `now` to `pre` gives.
pub open spec fn operation_outcome(
    pre: EdgeState,
    op: EdgeOperation,
    now: u64,
    post: EdgeState,
    r: Result<(), Rejection>,
) -> bool {
    match op {
        EdgeOperation::Bet { caller, app_id, amount } => {
            &&& r == stake_check(pre, caller@, app_id@, amount)
            &&& r is Err ==> post == pre
            &&& r is Ok ==> stake_applied(pre, post, caller, app_id, amount, now)
        },
        EdgeOperation::Redeem { caller, app_id, amount } => {
            &&& r == redeem_check(pre, caller@, app_id@, amount)
            &&& r is Err ==> post == pre
            &&& r is Ok ==> redeem_applied(pre, post, caller, app_id, amount, now)
        },
        EdgeOperation::Settle { caller } => {
            &&& r == settle_check(pre, caller@, now)
            &&& settle_outcome(pre, caller@, now, post)
        },
        EdgeOperation::AddApplication { caller, app_id, name, description } => {
            &&& r == if !whitelisted(pre, caller@) {
                Err(Rejection::NotWhitelisted)
            } else if has_key(pre.app_info@, app_id@) {
                Err(Rejection::DuplicateApplication)
            } else {
                Ok(())
            }
            &&& r is Err ==> post == pre
            &&& r is Ok ==> {
                &&& post.app_info@ == pre.app_info@.push(
                    (
                        app_id,
                        AppInfo {
                            app_id: app_id,
                            name: name,
                            description: description,
                            added_at: now,
                            is_active: true,
                        },
                    ),
                )
                &&& post.app_total_bets@ == upsert(pre.app_total_bets@, app_id, 0)
                &&& post == (EdgeState {
                    app_info: post.app_info,
                    app_total_bets: post.app_total_bets,
                    ..pre
                })
            }
        },
        EdgeOperation::RemoveApplication { caller, app_id } => {
            &&& r == if !whitelisted(pre, caller@) {
                Err(Rejection::NotWhitelisted)
            } else {
                Ok(())
            }
            &&& r is Err ==> post == pre
            &&& r is Ok ==> post.app_info@ == without(pre.app_info@, app_id@) && post == (
            EdgeState { app_info: post.app_info, ..pre })
        },
        EdgeOperation::InjectPool { caller, amount } => {
            &&& r == if !whitelisted(pre, caller@) {
                Err(Rejection::NotWhitelisted)
            } else if amount == 0 {
                Err(Rejection::InvalidAmount)
            } else {
                Ok(())
            }
            &&& r is Err ==> post == pre
            &&& r is Ok ==> post == (EdgeState {
                pool_amount: pre.pool_amount.saturating_add(amount),
                ..pre
            })
        },
    }
}

impl EdgeState {
    /// Applies `operation` at time `now`.
    pub fn execute_operation(&mut self, operation: EdgeOperation, now: u64) -> (r: Result<
        (),
        Rejection,
    >)
        requires
            old(self).wf(),
        ensures
            final(self).wf(),
            operation_outcome(*old(self), operation, now, *final(self), r),
            bets_nonneg(old(self).user_bets@) ==> bets_nonneg(final(self).user_bets@),
    {
        let ghost pre = *self;
        let ghost op = operation;
        let r = match operation {
            EdgeOperation::Bet { caller, app_id, amount } => self.handle_bet(
                caller,
                app_id,
                amount,
                now,
            ),
            EdgeOperation::Redeem { caller, app_id, amount } => self.handle_redeem(
                caller,
                app_id,
                amount,
                now,
            ),
            EdgeOperation::Settle { caller } => self.handle_settle(&caller, now),
            EdgeOperation::AddApplication { caller, app_id, name, description } => {
                self.handle_add_application(&caller, app_id, name, description, now)
            },
            EdgeOperation::RemoveApplication { caller, app_id } => {
                self.handle_remove_application(&caller, &app_id)
            },
            EdgeOperation::InjectPool { caller, amount } => self.handle_inject_pool(
                &caller,
                amount,
            ),
        };
        proof {
            if let EdgeOperation::Settle { caller } = op {
                if settle_check(pre, caller@, now) is Ok {
                    let mid = choose|mid: EdgeState|
                        #![trigger resets_applied(pre, mid, now)]
                        resets_applied(pre, mid, now) && distribution_applied(mid, *self, now, 0);
                    assert(self.user_bets == pre.user_bets);
                }
            }
        }
        r
    }
}

} // verus!
