//! The contract's operations: one-time setup, the deposit ledger, the
//! proportional distribution engine, and the read-only query surface.

use vstd::prelude::*;

use crate::error::ContractError;
use crate::msg::ExecuteMsg;
use crate::msg::InstantiateMsg;
use crate::msg::QueryAnswer;
use crate::msg::QueryMsg;
use crate::state::RewardState;
use crate::state::UsdsimBalance;
use crate::state::WtokenBalance;
use crate::state::LedgerEntry;
use crate::state::Payout;
use crate::state::lemma_balance_absent;
use crate::state::lemma_balance_at;
use crate::state::lemma_balance_of_insert;
use crate::state::lemma_balance_of_update;
use crate::state::lemma_element_le_sum;
use crate::state::lemma_sum_insert;
use crate::state::lemma_sum_nonneg;
use crate::state::lemma_sum_payouts_push;
use crate::state::lemma_sum_take_le;
use crate::state::lemma_sum_take_succ;
use crate::state::lemma_sum_update;
use crate::state::sum_balances;
use crate::state::sum_payouts;
use vstd::arithmetic::div_mod::lemma_div_is_ordered;
use vstd::arithmetic::div_mod::lemma_div_multiples_vanish;
use vstd::arithmetic::div_mod::lemma_fundamental_div_mod;
use vstd::arithmetic::div_mod::lemma_mod_division_less_than_divisor;
use vstd::arithmetic::mul::lemma_mul_inequality;
use vstd::arithmetic::mul::lemma_mul_is_associative;
use vstd::arithmetic::mul::lemma_mul_is_commutative;
use vstd::arithmetic::mul::lemma_mul_is_distributive_add;
use vstd::arithmetic::mul::lemma_mul_is_distributive_add_other_way;
use vstd::arithmetic::mul::lemma_mul_left_inequality;
use vstd::arithmetic::mul::lemma_mul_nonnegative;
use vstd::pervasive::VecAdditionalExecFns;

verus! {

/// What one deposit report does to the state.
///
/// A report is accepted exactly when it comes from the trusted token
/// contract, carries a positive amount, and overflows nothing; it then adds
/// the amount to the named account's balance and to the running total, and
/// touches nothing else. A rejected report names its reason and leaves the
/// state exactly as it was.
pub open spec fn deposit_outcome(
    pre: RewardState,
    post: RewardState,
    info_sender: u64,
    sender: u64,
    amount: u128,
    r: Result<(), ContractError>,
) -> bool {
    &&& post.wf()
    &&& post.wtoken_contract == pre.wtoken_contract
    &&& post.remaining == pre.remaining
    &&& match r {
        Ok(()) => {
            &&& info_sender == pre.wtoken_contract
            &&& amount > 0
            &&& pre.total_balance + amount <= u128::MAX
            &&& post.total_balance == pre.total_balance + amount
            &&& post.balances@.len() == pre.balances@.len() + (if pre.spec_contains(sender) {
                0int
            } else {
                1int
            })
            &&& post.spec_balance_of(sender) == pre.spec_balance_of(sender) + amount
            &&& forall|a: u64|
                a != sender ==> post.spec_balance_of(a) == pre.spec_balance_of(a)
            &&& forall|a: u64| post.spec_contains(a) <==> (pre.spec_contains(a) || a == sender)
        },
        Err(e) => {
            &&& post == pre
            &&& (info_sender != pre.wtoken_contract || amount == 0 || pre.total_balance + amount
                > u128::MAX)
            &&& (e == (ContractError::InvalidWtokenAddress { address: info_sender })
                <==> info_sender != pre.wtoken_contract)
            &&& (e == ContractError::ZeroAmountReceived
                <==> info_sender == pre.wtoken_contract && amount == 0)
            &&& (e == ContractError::Overflow
                <==> info_sender == pre.wtoken_contract && amount > 0
                    && pre.total_balance + amount > u128::MAX)
        },
    }
}

/// The exact integer share of `pool` owed to a balance of `balance` out of
/// a ledger total of `total`: the floor of `balance * pool / total`.
pub open spec fn reward_share(balance: int, pool: int, total: int) -> int {
    (balance * pool) / total
}

/// The payouts of a distribution result, as a sequence.
pub open spec fn view_result(r: Result<Vec<Payout>, ContractError>) -> Result<
    Seq<Payout>,
    ContractError,
> {
    match r {
        Ok(payouts) => Ok(payouts@),
        Err(e) => Err(e),
    }
}

/// What one distribution round does to the state.
///
/// `usdsim_attached` is the amount of the distributable asset attached to
/// the call, or nothing when the call carries no coin of that denomination
/// at all. The ledger itself is never touched. A round with an attached
/// amount of zero succeeds and does nothing. Otherwise the round succeeds
/// exactly when some deposit is recorded and no product overflows; it then
/// emits one payout per ledger entry, in ledger (ascending account) order,
/// each the floor of the entry's proportional share of the pool (the
/// attached amount plus the carried remainder), and retains exactly the
/// rest of the pool as the new remainder, which stays below the ledger
/// total. A failed round names its reason and leaves the state exactly as
/// it was.
pub open spec fn distribution_outcome(
    pre: RewardState,
    post: RewardState,
    usdsim_attached: Option<u128>,
    r: Result<Seq<Payout>, ContractError>,
) -> bool {
    &&& post.wf()
    &&& post.wtoken_contract == pre.wtoken_contract
    &&& post.balances@ == pre.balances@
    &&& post.total_balance == pre.total_balance
    &&& match r {
        Ok(payouts) => match usdsim_attached {
            None => false,
            Some(amount) => {
                if amount == 0 {
                    post == pre && payouts.len() == 0
                } else {
                    let pool = amount + pre.remaining;
                    &&& pre.total_balance > 0
                    &&& pool <= u128::MAX
                    &&& forall|j: int|
                        0 <= j < pre.balances@.len() ==> (#[trigger] pre.balances@[j]).balance
                            * pool <= u128::MAX
                    &&& payouts.len() == pre.balances@.len()
                    &&& forall|j: int|
                        0 <= j < payouts.len() ==> (#[trigger] payouts[j]).to_address
                            == pre.balances@[j].account
                    &&& forall|j: int|
                        0 <= j < payouts.len() ==> (#[trigger] payouts[j]).amount == reward_share(
                            pre.balances@[j].balance as int,
                            pool,
                            pre.total_balance as int,
                        )
                    &&& sum_payouts(payouts) + post.remaining == pool
                    &&& post.remaining < pre.total_balance
                }
            },
        },
        Err(e) => {
            &&& post == pre
            &&& match usdsim_attached {
                None => e == ContractError::NoUsdsimTokensSent,
                Some(amount) => {
                    let pool = amount + pre.remaining;
                    &&& amount > 0
                    &&& (pre.total_balance == 0 || pool > u128::MAX || exists|j: int|
                        0 <= j < pre.balances@.len() && (#[trigger] pre.balances@[j]).balance
                            * pool > u128::MAX)
                    &&& (e == ContractError::NoRecipients <==> pre.total_balance == 0)
                    &&& (e == ContractError::Overflow <==> pre.total_balance > 0 && (pool
                        > u128::MAX || exists|j: int|
                        0 <= j < pre.balances@.len() && (#[trigger] pre.balances@[j]).balance
                            * pool > u128::MAX))
                },
            }
        },
    }
}

/// Floor division distributes superadditively over a sum of numerators.
proof fn lemma_div_sum_le(x: int, y: int, d: int)
    requires
        0 <= x,
        0 <= y,
        0 < d,
    ensures
        x / d + y / d <= (x + y) / d,
{
    lemma_fundamental_div_mod(x, d);
    lemma_fundamental_div_mod(y, d);
    lemma_mod_division_less_than_divisor(x, d);
    lemma_mod_division_less_than_divisor(y, d);
    lemma_mul_is_distributive_add(d, x / d, y / d);
    lemma_div_is_ordered(d * (x / d + y / d), x + y, d);
    lemma_div_multiples_vanish(x / d + y / d, d);
}

/// A floored proportional share is at least the balance times the floored
/// ratio.
proof fn lemma_div_mul_lower(b: int, p: int, t: int)
    requires
        0 < b,
        0 <= p,
        0 < t,
    ensures
        b * (p / t) <= (b * p) / t,
{
    let q = p / t;
    lemma_fundamental_div_mod(p, t);
    lemma_mod_division_less_than_divisor(p, t);
    assert(t * q <= p);
    lemma_mul_left_inequality(b, t * q, p);
    assert(b * (t * q) == t * (b * q)) by {
        lemma_mul_is_associative(b, t, q);
        lemma_mul_is_commutative(b, t);
        lemma_mul_is_associative(t, b, q);
    }
    lemma_div_is_ordered(t * (b * q), b * p, t);
    lemma_div_multiples_vanish(b * q, t);
}

/// One-time setup: fixes the trusted token contract identity and starts
/// with an empty ledger, a zero total, and a zero remainder.
pub fn instantiate(msg: InstantiateMsg) -> (state: RewardState)
    ensures
        state.wf(),
        state.wtoken_contract == msg.wtoken_contract,
        state.balances@.len() == 0,
        state.total_balance == 0,
        state.remaining == 0,
{
    RewardState {
        wtoken_contract: msg.wtoken_contract,
        balances: Vec::new(),
        total_balance: 0,
        remaining: 0,
    }
}

impl RewardState {
    /// The recorded deposit balance of one account; an account with no
    /// ledger entry is reported as not found.
    pub fn wtoken_balance(&self, address: u64) -> (r: Result<WtokenBalance, ContractError>)
        requires
            self.wf(),
        ensures
            match r {
                Ok(b) => self.spec_contains(address) && b.0 == self.spec_balance_of(address),
                Err(e) => e == ContractError::NotFound && !self.spec_contains(address),
            },
    {
        let n = self.balances.len();
        let mut i: usize = 0;
        while i < n
            invariant
                0 <= i <= n,
                n == self.balances@.len(),
                self.wf(),
                forall|j: int| 0 <= j < i ==> (#[trigger] self.balances@[j]).account != address,
            decreases n - i,
        {
            let entry = self.balances[i];
            if entry.account == address {
                proof {
                    lemma_balance_at(self.balances@, i as int);
                }
                return Ok(WtokenBalance(entry.balance));
            }
            i += 1;
        }
        proof {
            lemma_balance_absent(self.balances@, address);
        }
        Err(ContractError::NotFound)
    }

    /// The running total of all recorded deposit balances.
    pub fn wtoken_total_balance(&self) -> (r: WtokenBalance)
        ensures
            r.0 == self.total_balance,
    {
        WtokenBalance(self.total_balance)
    }

    /// The remainder retained by the most recent distribution round.
    pub fn remaining_usdsim(&self) -> (r: UsdsimBalance)
        ensures
            r.0 == self.remaining,
    {
        UsdsimBalance(self.remaining)
    }

    /// Accepts one deposit report. Only the configured token contract may
    /// report; a report of zero is rejected; on success the depositor's
    /// balance and the running total both grow by the amount, atomically.
    pub fn receive_wtoken(&mut self, info_sender: u64, sender: u64, amount: u128) -> (r: Result<
        (),
        ContractError,
    >)
        requires
            old(self).wf(),
        ensures
            deposit_outcome(*old(self), *final(self), info_sender, sender, amount, r),
    {
        if info_sender != self.wtoken_contract {
            return Err(ContractError::InvalidWtokenAddress { address: info_sender });
        }
        self.receive_wtoken_inner(sender, amount)
    }

    /// Credits a deposit that has already passed the trusted-reporter check.
    #[verifier::loop_isolation(false)]
    fn receive_wtoken_inner(&mut self, sender: u64, amount: u128) -> (r: Result<
        (),
        ContractError,
    >)
        requires
            old(self).wf(),
        ensures
            deposit_outcome(
                *old(self),
                *final(self),
                old(self).wtoken_contract,
                sender,
                amount,
                r,
            ),
    {
        if amount == 0 {
            return Err(ContractError::ZeroAmountReceived);
        }
        let new_total = match self.total_balance.checked_add(amount) {
            Some(t) => t,
            None => {
                return Err(ContractError::Overflow);
            },
        };
        let n = self.balances.len();
        let mut i: usize = 0;
        while i < n && self.balances[i].account < sender
            invariant
                0 <= i <= n,
                forall|j: int| 0 <= j < i ==> (#[trigger] self.balances@[j]).account < sender,
            decreases n - i,
        {
            i += 1;
        }
        if i < n && self.balances[i].account == sender {
            let entry = self.balances[i];
            let ghost pre_seq = self.balances@;
            proof {
                lemma_element_le_sum(pre_seq, i as int);
            }
            let updated = LedgerEntry { account: sender, balance: entry.balance + amount };
            proof {
                lemma_balance_at(pre_seq, i as int);
                lemma_sum_update(pre_seq, i as int, updated);
                lemma_balance_of_update(pre_seq, i as int, updated);
            }
            self.balances.set(i, updated);
        } else {
            let entry = LedgerEntry { account: sender, balance: amount };
            let ghost pre_seq = self.balances@;
            proof {
                if i < n {
                    assert(pre_seq[i as int].account > sender);
                }
                assert forall|j: int| i <= j < n implies (#[trigger] pre_seq[j]).account
                    > sender by {
                    if j > i {
                        assert(pre_seq[i as int].account < pre_seq[j].account);
                    }
                }
                lemma_sum_insert(pre_seq, i as int, entry);
                lemma_balance_of_insert(pre_seq, i as int, entry);
            }
            self.balances.insert(i, entry);
        }
        self.total_balance = new_total;
        Ok(())
    }

    /// Runs one distribution round, funded by the usdsim attached to the
    /// call; any caller may fund a round. `usdsim_attached` is the attached
    /// amount, or `None` when the call carried no usdsim at all.
    pub fn receive_usdsim(&mut self, usdsim_attached: Option<u128>) -> (r: Result<
        Vec<Payout>,
        ContractError,
    >)
        requires
            old(self).wf(),
        ensures
            distribution_outcome(*old(self), *final(self), usdsim_attached, view_result(r)),
    {
        match usdsim_attached {
            None => Err(ContractError::NoUsdsimTokensSent),
            Some(amount) => self.receive_usdsim_inner(amount),
        }
    }

    /// Distributes an attached amount, plus the carried remainder, among
    /// the recorded depositors in proportion to their balances. An attached
    /// amount of zero is a no-op success.
    #[verifier::loop_isolation(false)]
    fn receive_usdsim_inner(&mut self, amount: u128) -> (r: Result<Vec<Payout>, ContractError>)
        requires
            old(self).wf(),
        ensures
            distribution_outcome(*old(self), *final(self), Some(amount), view_result(r)),
    {
        if amount == 0 {
            return Ok(Vec::new());
        }
        if self.total_balance == 0 {
            return Err(ContractError::NoRecipients);
        }
        let pool = match amount.checked_add(self.remaining) {
            Some(p) => p,
            None => {
                return Err(ContractError::Overflow);
            },
        };
        let total = self.total_balance;
        let ghost s = self.balances@;
        let ghost p = pool as int;
        let ghost t = total as int;
        let ghost q = p / t;
        let n = self.balances.len();
        let mut payouts: Vec<Payout> = Vec::new();
        let mut distributed: u128 = 0;
        let mut i: usize = 0;
        proof {
            assert(s.take(0) =~= Seq::<LedgerEntry>::empty());
            assert(sum_balances(s.take(0)) == 0);
        }
        while i < n
            invariant
                0 <= i <= n,
                payouts@.len() == i,
                forall|j: int|
                    0 <= j < i ==> (#[trigger] payouts@[j]).to_address == s[j].account,
                forall|j: int|
                    0 <= j < i ==> (#[trigger] payouts@[j]).amount == reward_share(
                        s[j].balance as int,
                        p,
                        t,
                    ),
                forall|j: int| 0 <= j < i ==> (#[trigger] s[j]).balance * p <= u128::MAX,
                distributed == sum_payouts(payouts@),
                distributed <= reward_share(sum_balances(s.take(i as int)), p, t),
                q * sum_balances(s.take(i as int)) <= distributed,
            decreases n - i,
        {
            let entry = self.balances[i];
            let product = match entry.balance.checked_mul(pool) {
                Some(v) => v,
                None => {
                    return Err(ContractError::Overflow);
                },
            };
            let reward = product / total;
            let payout = Payout { to_address: entry.account, amount: reward };
            proof {
                let b = entry.balance as int;
                let si = sum_balances(s.take(i as int));
                let si1 = sum_balances(s.take(i as int + 1));
                lemma_sum_take_succ(s, i as int);
                assert(si1 == si + b);
                lemma_sum_nonneg(s.take(i as int));
                lemma_mul_nonnegative(si, p);
                lemma_mul_nonnegative(b, p);
                lemma_div_sum_le(si * p, b * p, t);
                lemma_mul_is_distributive_add_other_way(p, si, b);
                assert(si * p + b * p == si1 * p);
                assert(distributed + reward <= reward_share(si1, p, t));
                lemma_sum_take_le(s, i as int + 1);
                assert(si1 <= t);
                lemma_mul_inequality(si1, t, p);
                lemma_div_is_ordered(si1 * p, t * p, t);
                lemma_div_multiples_vanish(p, t);
                assert(reward_share(si1, p, t) <= p);
                lemma_div_mul_lower(b, p, t);
                lemma_mul_is_commutative(b, q);
                lemma_mul_is_distributive_add(q, si, b);
                assert(q * si1 <= distributed + reward);
                lemma_sum_payouts_push(payouts@, payout);
            }
            payouts.push(payout);
            distributed = distributed + reward;
            i += 1;
        }
        proof {
            assert(s.take(n as int) =~= s);
            lemma_mul_inequality(sum_balances(s), t, p);
            lemma_div_is_ordered(sum_balances(s) * p, t * p, t);
            lemma_div_multiples_vanish(p, t);
            assert(distributed <= p);
            lemma_fundamental_div_mod(p, t);
            lemma_mod_division_less_than_divisor(p, t);
            lemma_mul_is_commutative(q, t);
            assert(p - distributed <= p % t);
        }
        self.remaining = pool - distributed;
        Ok(payouts)
    }

    /// Dispatches one state-changing call. `info_sender` is the
    /// authenticated caller identity and `usdsim_attached` the usdsim
    /// attached to the call, both supplied by the host. A deposit report
    /// emits no payment instructions; a distribution round emits one per
    /// recorded depositor.
    pub fn execute(
        &mut self,
        info_sender: u64,
        usdsim_attached: Option<u128>,
        msg: ExecuteMsg,
    ) -> (r: Result<Vec<Payout>, ContractError>)
        requires
            old(self).wf(),
        ensures
            match msg {
                ExecuteMsg::Receive { sender, amount } => {
                    &&& deposit_outcome(
                        *old(self),
                        *final(self),
                        info_sender,
                        sender,
                        amount,
                        (match r {
                            Ok(_) => Ok(()),
                            Err(e) => Err(e),
                        }),
                    )
                    &&& (r matches Ok(payouts) ==> payouts@.len() == 0)
                },
                ExecuteMsg::ReceiveUsdsim {} => distribution_outcome(
                    *old(self),
                    *final(self),
                    usdsim_attached,
                    view_result(r),
                ),
            },
    {
        match msg {
            ExecuteMsg::Receive { sender, amount } => {
                match self.receive_wtoken(info_sender, sender, amount) {
                    Ok(()) => Ok(Vec::new()),
                    Err(e) => Err(e),
                }
            },
            ExecuteMsg::ReceiveUsdsim {} => self.receive_usdsim(usdsim_attached),
        }
    }

    /// Answers a read-only query; the state is never touched.
    pub fn query(&self, msg: QueryMsg) -> (r: Result<QueryAnswer, ContractError>)
        requires
            self.wf(),
        ensures
            match msg {
                QueryMsg::WtokenBalance { address } => match r {
                    Ok(a) => {
                        &&& self.spec_contains(address)
                        &&& a == QueryAnswer::WtokenBalance(
                            WtokenBalance(self.spec_balance_of(address)),
                        )
                    },
                    Err(e) => e == ContractError::NotFound && !self.spec_contains(address),
                },
                QueryMsg::WtokenTotalBalance {} => r == Ok::<QueryAnswer, ContractError>(
                    QueryAnswer::WtokenBalance(WtokenBalance(self.total_balance)),
                ),
                QueryMsg::RemainingUsdsim {} => r == Ok::<QueryAnswer, ContractError>(
                    QueryAnswer::UsdsimBalance(UsdsimBalance(self.remaining)),
                ),
            },
    {
        match msg {
            QueryMsg::WtokenBalance { address } => match self.wtoken_balance(address) {
                Ok(b) => Ok(QueryAnswer::WtokenBalance(b)),
                Err(e) => Err(e),
            },
            QueryMsg::WtokenTotalBalance {} => Ok(
                QueryAnswer::WtokenBalance(self.wtoken_total_balance()),
            ),
            QueryMsg::RemainingUsdsim {} => Ok(
                QueryAnswer::UsdsimBalance(self.remaining_usdsim()),
            ),
        }
    }
}

/// Determinism of the ledger: two well-formed states that agree on which
/// accounts are recorded and on every account's balance hold the same
/// ledger sequence, entry for entry. The order in which a distribution
/// round emits its payouts is therefore reproducible from the recorded
/// balances alone.
pub proof fn ledger_determined(s1: RewardState, s2: RewardState)
    requires
        s1.wf(),
        s2.wf(),
        forall|a: u64| s1.spec_contains(a) <==> s2.spec_contains(a),
        forall|a: u64| s1.spec_balance_of(a) == s2.spec_balance_of(a),
    ensures
        s1.balances@ == s2.balances@,
{
    assert forall|a: u64|
        crate::state::contains_account(s1.balances@, a) <==> crate::state::contains_account(
            s2.balances@,
            a,
        ) by {
        assert(s1.spec_contains(a) <==> s2.spec_contains(a));
    }
    assert forall|a: u64|
        crate::state::balance_of(s1.balances@, a) == crate::state::balance_of(
            s2.balances@,
            a,
        ) by {
        assert(s1.spec_balance_of(a) == s2.spec_balance_of(a));
    }
    crate::state::lemma_ledger_determined(s1.balances@, s2.balances@);
}

/// Ledger conservation: in every well-formed state — as established at
/// instantiation and preserved by every operation — the running total
/// equals the sum of all recorded balances.
pub proof fn ledger_conservation(state: RewardState)
    requires
        state.wf(),
    ensures
        state.total_balance as int == sum_balances(state.balances@),
{
}

/// Distribution conservation: the payouts of a successful round and its
/// new remainder together equal exactly the attached amount plus the prior
/// remainder.
pub proof fn distribution_conservation(
    pre: RewardState,
    post: RewardState,
    amount: u128,
    payouts: Seq<Payout>,
)
    requires
        distribution_outcome(pre, post, Some(amount), Ok(payouts)),
    ensures
        sum_payouts(payouts) + post.remaining == amount + pre.remaining,
{
    if amount == 0 {
        assert(sum_payouts(payouts) == 0);
    }
}

/// Remainder bound: after any successful round against a ledger with a
/// positive total, the remainder is nonnegative and strictly below that
/// total.
pub proof fn remainder_bound(
    pre: RewardState,
    post: RewardState,
    amount: u128,
    payouts: Seq<Payout>,
)
    requires
        distribution_outcome(pre, post, Some(amount), Ok(payouts)),
        pre.total_balance > 0,
    ensures
        0 <= post.remaining < post.total_balance,
        post.total_balance == pre.total_balance,
{
}

/// Zero-amount idempotence: a round whose attached amount is zero always
/// succeeds, changes nothing, and emits no payouts.
pub proof fn zero_amount_idempotence(
    pre: RewardState,
    post: RewardState,
    r: Result<Seq<Payout>, ContractError>,
)
    requires
        distribution_outcome(pre, post, Some(0), r),
    ensures
        post == pre,
        r matches Ok(payouts) && payouts.len() == 0,
{
}

/// Rejection of zero deposits: a deposit report of amount zero from the
/// trusted reporter fails with the zero-amount error and leaves the state
/// exactly as it was.
pub proof fn zero_deposit_rejected(
    pre: RewardState,
    post: RewardState,
    info_sender: u64,
    sender: u64,
    r: Result<(), ContractError>,
)
    requires
        deposit_outcome(pre, post, info_sender, sender, 0, r),
        info_sender == pre.wtoken_contract,
    ensures
        post == pre,
        r == Err::<(), ContractError>(ContractError::ZeroAmountReceived),
{
}

/// Rejection of untrusted reporters: a deposit report from any identity
/// other than the configured token contract fails with the untrusted
/// address error and leaves the state exactly as it was.
pub proof fn untrusted_reporter_rejected(
    pre: RewardState,
    post: RewardState,
    info_sender: u64,
    sender: u64,
    amount: u128,
    r: Result<(), ContractError>,
)
    requires
        deposit_outcome(pre, post, info_sender, sender, amount, r),
        info_sender != pre.wtoken_contract,
    ensures
        post == pre,
        r == Err::<(), ContractError>(
            ContractError::InvalidWtokenAddress { address: info_sender },
        ),
{
}

} // verus!
