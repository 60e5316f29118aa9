//! The contract state: the deposit ledger, its running total, and the
//! remainder carried between distribution rounds.

use vstd::prelude::*;

verus! {

/// A recorded balance of the deposited token.
#[derive(Debug, Clone, Copy, PartialEq, Eq, Structural)]
pub struct WtokenBalance(pub u128);

/// An amount of the distributable asset.
#[derive(Debug, Clone, Copy, PartialEq, Eq, Structural)]
pub struct UsdsimBalance(pub u128);

impl From<u128> for WtokenBalance {
    fn from(value: u128) -> (r: Self) {
        WtokenBalance(value)
    }
}

impl vstd::std_specs::convert::FromSpecImpl<u128> for WtokenBalance {
    open spec fn obeys_from_spec() -> bool {
        true
    }

    open spec fn from_spec(value: u128) -> Self {
        WtokenBalance(value)
    }
}

impl From<u128> for UsdsimBalance {
    fn from(value: u128) -> (r: Self) {
        UsdsimBalance(value)
    }
}

impl vstd::std_specs::convert::FromSpecImpl<u128> for UsdsimBalance {
    open spec fn obeys_from_spec() -> bool {
        true
    }

    open spec fn from_spec(value: u128) -> Self {
        UsdsimBalance(value)
    }
}

/// One ledger entry: an account identity and its deposited balance.
#[derive(Debug, Clone, Copy, PartialEq, Eq, Structural)]
pub struct LedgerEntry {
    pub account: u64,
    pub balance: u128,
}

/// One payment instruction emitted by a distribution round: pay `amount`
/// of the distributable asset to `to_address`.
#[derive(Debug, Clone, Copy, PartialEq, Eq, Structural)]
pub struct Payout {
    pub to_address: u64,
    pub amount: u128,
}

/// The entries stand in strictly ascending order of account identity, so
/// the ledger is sorted and no account appears twice.
pub open spec fn ascending_accounts(s: Seq<LedgerEntry>) -> bool {
    forall|i: int, j: int| 0 <= i < j < s.len() ==> s[i].account < s[j].account
}

/// Every recorded balance is positive: an account enters the ledger only
/// through a nonzero deposit, and balances never decrease.
pub open spec fn positive_balances(s: Seq<LedgerEntry>) -> bool {
    forall|i: int| 0 <= i < s.len() ==> #[trigger] s[i].balance > 0
}

/// The sum of the recorded balances.
pub open spec fn sum_balances(s: Seq<LedgerEntry>) -> int
    decreases s.len(),
{
    if s.len() == 0 {
        0
    } else {
        sum_balances(s.drop_last()) + s.last().balance
    }
}

/// The sum of the amounts of a sequence of payment instructions.
pub open spec fn sum_payouts(s: Seq<Payout>) -> int
    decreases s.len(),
{
    if s.len() == 0 {
        0
    } else {
        sum_payouts(s.drop_last()) + s.last().amount
    }
}

/// Whether some entry of the ledger records the given account.
pub open spec fn contains_account(s: Seq<LedgerEntry>, account: u64) -> bool {
    exists|i: int| 0 <= i < s.len() && s[i].account == account
}

/// The balance recorded for an account; zero when the account is absent.
pub open spec fn balance_of(s: Seq<LedgerEntry>, account: u64) -> u128 {
    if contains_account(s, account) {
        s[choose|i: int| 0 <= i < s.len() && s[i].account == account].balance
    } else {
        0
    }
}

/// The whole contract state.
pub struct RewardState {
    /// The only identity whose deposit reports are accepted, fixed at
    /// instantiation.
    pub wtoken_contract: u64,
    /// The deposit ledger, ascending by account identity.
    pub balances: Vec<LedgerEntry>,
    /// The running total of all recorded balances, kept incrementally.
    pub total_balance: u128,
    /// The amount of the distributable asset retained by the most recent
    /// round because it could not be evenly assigned; it funds the next
    /// round's pool.
    pub remaining: u128,
}

impl RewardState {
    /// Well-formedness of the state. It carries the ledger-conservation
    /// invariant (the total equals the sum of all balances) and the
    /// remainder bound (the remainder is always below the total, and zero
    /// while no deposit is recorded).
    pub open spec fn wf(self) -> bool {
        &&& ascending_accounts(self.balances@)
        &&& positive_balances(self.balances@)
        &&& self.total_balance as int == sum_balances(self.balances@)
        &&& self.total_balance == 0 ==> self.remaining == 0
        &&& self.total_balance > 0 ==> self.remaining < self.total_balance
    }

    /// Whether the ledger holds an entry for the account.
    pub open spec fn spec_contains(self, account: u64) -> bool {
        contains_account(self.balances@, account)
    }

    /// The balance the ledger records for the account, zero when absent.
    pub open spec fn spec_balance_of(self, account: u64) -> u128 {
        balance_of(self.balances@, account)
    }
}

/// The sum of a concatenation is the sum of the parts.
pub proof fn lemma_sum_concat(a: Seq<LedgerEntry>, b: Seq<LedgerEntry>)
    ensures
        sum_balances(a + b) == sum_balances(a) + sum_balances(b),
    decreases b.len(),
{
    if b.len() == 0 {
        assert(a + b =~= a);
    } else {
        assert((a + b).drop_last() =~= a + b.drop_last());
        assert((a + b).last() == b.last());
        lemma_sum_concat(a, b.drop_last());
    }
}

/// A sum of balances is never negative.
pub proof fn lemma_sum_nonneg(s: Seq<LedgerEntry>)
    ensures
        sum_balances(s) >= 0,
    decreases s.len(),
{
    if s.len() > 0 {
        lemma_sum_nonneg(s.drop_last());
    }
}

/// The sum of a single entry is its balance.
pub proof fn lemma_sum_singleton(e: LedgerEntry)
    ensures
        sum_balances(seq![e]) == e.balance,
{
    let s = seq![e];
    assert(s.drop_last() =~= Seq::<LedgerEntry>::empty());
    assert(sum_balances(Seq::<LedgerEntry>::empty()) == 0);
    assert(s.last() == e);
}

/// Extending a prefix sum by one entry adds that entry's balance.
pub proof fn lemma_sum_take_succ(s: Seq<LedgerEntry>, i: int)
    requires
        0 <= i < s.len(),
    ensures
        sum_balances(s.take(i + 1)) == sum_balances(s.take(i)) + s[i].balance,
{
    assert(s.take(i + 1).drop_last() =~= s.take(i));
    assert(s.take(i + 1).last() == s[i]);
}

/// A prefix sum never exceeds the sum of the whole sequence.
pub proof fn lemma_sum_take_le(s: Seq<LedgerEntry>, i: int)
    requires
        0 <= i <= s.len(),
    ensures
        sum_balances(s.take(i)) <= sum_balances(s),
{
    assert(s =~= s.take(i) + s.skip(i));
    lemma_sum_concat(s.take(i), s.skip(i));
    lemma_sum_nonneg(s.skip(i));
}

/// No single balance exceeds the sum of all balances.
pub proof fn lemma_element_le_sum(s: Seq<LedgerEntry>, i: int)
    requires
        0 <= i < s.len(),
    ensures
        s[i].balance <= sum_balances(s),
{
    assert(s =~= s.take(i) + seq![s[i]] + s.skip(i + 1));
    lemma_sum_concat(s.take(i) + seq![s[i]], s.skip(i + 1));
    lemma_sum_concat(s.take(i), seq![s[i]]);
    lemma_sum_singleton(s[i]);
    lemma_sum_nonneg(s.take(i));
    lemma_sum_nonneg(s.skip(i + 1));
}

/// Replacing the entry at a position changes the sum by the difference of
/// the balances.
pub proof fn lemma_sum_update(s: Seq<LedgerEntry>, i: int, e: LedgerEntry)
    requires
        0 <= i < s.len(),
    ensures
        sum_balances(s.update(i, e)) == sum_balances(s) - s[i].balance + e.balance,
{
    assert(s =~= s.take(i) + seq![s[i]] + s.skip(i + 1));
    assert(s.update(i, e) =~= s.take(i) + seq![e] + s.skip(i + 1));
    lemma_sum_concat(s.take(i) + seq![s[i]], s.skip(i + 1));
    lemma_sum_concat(s.take(i), seq![s[i]]);
    lemma_sum_concat(s.take(i) + seq![e], s.skip(i + 1));
    lemma_sum_concat(s.take(i), seq![e]);
    lemma_sum_singleton(s[i]);
    lemma_sum_singleton(e);
}

/// Inserting an entry adds its balance to the sum.
pub proof fn lemma_sum_insert(s: Seq<LedgerEntry>, i: int, e: LedgerEntry)
    requires
        0 <= i <= s.len(),
    ensures
        sum_balances(s.insert(i, e)) == sum_balances(s) + e.balance,
{
    assert(s =~= s.take(i) + s.skip(i));
    assert(s.insert(i, e) =~= s.take(i) + seq![e] + s.skip(i));
    lemma_sum_concat(s.take(i), s.skip(i));
    lemma_sum_concat(s.take(i) + seq![e], s.skip(i));
    lemma_sum_concat(s.take(i), seq![e]);
    lemma_sum_singleton(e);
}

/// Appending a payment instruction adds its amount to the payout sum.
pub proof fn lemma_sum_payouts_push(s: Seq<Payout>, p: Payout)
    ensures
        sum_payouts(s.push(p)) == sum_payouts(s) + p.amount,
{
    assert(s.push(p).drop_last() =~= s);
    assert(s.push(p).last() == p);
}

/// In a ledger with ascending accounts, the entry at a position is the one
/// `balance_of` reads for its account.
pub proof fn lemma_balance_at(s: Seq<LedgerEntry>, i: int)
    requires
        ascending_accounts(s),
        0 <= i < s.len(),
    ensures
        contains_account(s, s[i].account),
        balance_of(s, s[i].account) == s[i].balance,
{
    assert(contains_account(s, s[i].account));
    let j = choose|j: int| 0 <= j < s.len() && s[j].account == s[i].account;
    assert(j == i) by {
        if j < i {
            assert(s[j].account < s[i].account);
        } else if j > i {
            assert(s[i].account < s[j].account);
        }
    }
}

/// Replacing an entry with one for the same account changes that account's
/// recorded balance and nothing else.
pub proof fn lemma_balance_of_update(s: Seq<LedgerEntry>, i: int, e: LedgerEntry)
    requires
        ascending_accounts(s),
        0 <= i < s.len(),
        e.account == s[i].account,
    ensures
        ascending_accounts(s.update(i, e)),
        forall|a: u64| contains_account(s.update(i, e), a) <==> contains_account(s, a),
        contains_account(s.update(i, e), e.account),
        balance_of(s.update(i, e), e.account) == e.balance,
        forall|a: u64| a != e.account ==> balance_of(s.update(i, e), a) == balance_of(s, a),
        positive_balances(s) && e.balance > 0 ==> positive_balances(s.update(i, e)),
{
    let s2 = s.update(i, e);
    if positive_balances(s) && e.balance > 0 {
        assert forall|k: int| 0 <= k < s2.len() implies (#[trigger] s2[k]).balance > 0 by {
            if k != i {
                assert(s2[k] == s[k]);
            }
        }
    }
    assert(forall|k: int| 0 <= k < s.len() ==> (#[trigger] s2[k]).account == s[k].account);
    assert forall|a: u64| contains_account(s2, a) implies contains_account(s, a) by {
        let j = choose|j: int| 0 <= j < s2.len() && s2[j].account == a;
        assert(s[j].account == a);
    }
    assert forall|a: u64| contains_account(s, a) implies contains_account(s2, a) by {
        let j = choose|j: int| 0 <= j < s.len() && s[j].account == a;
        assert(s2[j].account == a);
    }
    lemma_balance_at(s2, i);
    assert forall|a: u64| a != e.account implies balance_of(s2, a) == balance_of(s, a) by {
        if contains_account(s, a) {
            let j = choose|j: int| 0 <= j < s.len() && s[j].account == a;
            assert(j != i);
            assert(s2[j] == s[j]);
            lemma_balance_at(s, j);
            lemma_balance_at(s2, j);
        }
    }
}

/// Inserting an entry for a new account at its sorted position records that
/// account's balance and changes nothing else.
pub proof fn lemma_balance_of_insert(s: Seq<LedgerEntry>, i: int, e: LedgerEntry)
    requires
        ascending_accounts(s),
        0 <= i <= s.len(),
        forall|j: int| 0 <= j < i ==> (#[trigger] s[j]).account < e.account,
        forall|j: int| i <= j < s.len() ==> (#[trigger] s[j]).account > e.account,
    ensures
        ascending_accounts(s.insert(i, e)),
        !contains_account(s, e.account),
        contains_account(s.insert(i, e), e.account),
        balance_of(s, e.account) == 0,
        balance_of(s.insert(i, e), e.account) == e.balance,
        forall|a: u64|
            a != e.account ==> (contains_account(s.insert(i, e), a) <==> contains_account(s, a)),
        forall|a: u64| a != e.account ==> balance_of(s.insert(i, e), a) == balance_of(s, a),
        positive_balances(s) && e.balance > 0 ==> positive_balances(s.insert(i, e)),
{
    let s2 = s.insert(i, e);
    s.insert_ensures(i, e);
    if positive_balances(s) && e.balance > 0 {
        assert forall|k: int| 0 <= k < s2.len() implies (#[trigger] s2[k]).balance > 0 by {
            if k < i {
                assert(s2[k] == s[k]);
            } else if k > i {
                assert(s2[k] == s[k - 1]);
            }
        }
    }
    assert forall|p: int, q: int| 0 <= p < q < s2.len() implies s2[p].account < s2[q].account by {
        if p < i && q < i {
            assert(s2[p] == s[p] && s2[q] == s[q]);
        } else if p < i && q == i {
            assert(s2[p] == s[p]);
        } else if p < i && q > i {
            assert(s2[p] == s[p] && s2[q] == s[q - 1]);
        } else if p == i {
            assert(s2[q] == s[q - 1]);
        } else {
            assert(s2[p] == s[p - 1] && s2[q] == s[q - 1]);
        }
    }
    lemma_balance_absent(s, e.account);
    lemma_balance_at(s2, i);
    assert forall|a: u64| a != e.account implies (contains_account(s2, a) <==> contains_account(
        s,
        a,
    )) by {
        if contains_account(s, a) {
            let j = choose|j: int| 0 <= j < s.len() && s[j].account == a;
            if j < i {
                assert(s2[j].account == a);
            } else {
                assert(s2[j + 1].account == a);
            }
        }
        if contains_account(s2, a) {
            let j = choose|j: int| 0 <= j < s2.len() && s2[j].account == a;
            assert(j != i);
            if j < i {
                assert(s[j].account == a);
            } else {
                assert(s[j - 1].account == a);
            }
        }
    }
    assert forall|a: u64| a != e.account implies balance_of(s2, a) == balance_of(s, a) by {
        if contains_account(s, a) {
            let j = choose|j: int| 0 <= j < s.len() && s[j].account == a;
            lemma_balance_at(s, j);
            if j < i {
                assert(s2[j] == s[j]);
                lemma_balance_at(s2, j);
            } else {
                assert(s2[j + 1] == s[j]);
                lemma_balance_at(s2, j + 1);
            }
        }
    }
}

/// An account recorded by no entry reads as absent with balance zero.
pub proof fn lemma_balance_absent(s: Seq<LedgerEntry>, account: u64)
    requires
        forall|i: int| 0 <= i < s.len() ==> (#[trigger] s[i]).account != account,
    ensures
        !contains_account(s, account),
        balance_of(s, account) == 0,
{
}

/// Dropping the first entry of an ascending ledger leaves every other
/// account's reading unchanged and removes the first account entirely.
proof fn lemma_tail_view(s: Seq<LedgerEntry>, a: u64)
    requires
        ascending_accounts(s),
        s.len() > 0,
    ensures
        a != s[0].account ==> (contains_account(s.drop_first(), a) <==> contains_account(s, a)),
        a != s[0].account ==> balance_of(s.drop_first(), a) == balance_of(s, a),
        !contains_account(s.drop_first(), s[0].account),
        ascending_accounts(s.drop_first()),
{
    let t = s.drop_first();
    assert(forall|k: int| 0 <= k < t.len() ==> #[trigger] t[k] == s[k + 1]);
    assert forall|k: int| 0 <= k < t.len() implies (#[trigger] t[k]).account != s[0].account by {
        assert(s[0].account < s[k + 1].account);
    }
    lemma_balance_absent(t, s[0].account);
    if a != s[0].account {
        if contains_account(t, a) {
            let k = choose|k: int| 0 <= k < t.len() && t[k].account == a;
            assert(s[k + 1].account == a);
            lemma_balance_at(t, k);
            lemma_balance_at(s, k + 1);
        } else if contains_account(s, a) {
            let k = choose|k: int| 0 <= k < s.len() && s[k].account == a;
            assert(k != 0);
            assert(t[k - 1].account == a);
        }
    }
}

/// An ascending ledger is fully determined by which accounts it records
/// and what balance each reads: two such ledgers that agree on both are
/// the same sequence, entry for entry. This is what makes the payout order
/// of a distribution round reproducible from the recorded balances alone.
pub proof fn lemma_ledger_determined(s1: Seq<LedgerEntry>, s2: Seq<LedgerEntry>)
    requires
        ascending_accounts(s1),
        ascending_accounts(s2),
        forall|a: u64| contains_account(s1, a) <==> contains_account(s2, a),
        forall|a: u64| balance_of(s1, a) == balance_of(s2, a),
    ensures
        s1 == s2,
    decreases s1.len(),
{
    if s1.len() == 0 {
        if s2.len() > 0 {
            assert(contains_account(s2, s2[0].account));
            assert(contains_account(s1, s2[0].account));
        }
        assert(s1 =~= s2);
    } else {
        assert(contains_account(s1, s1[0].account));
        assert(contains_account(s2, s1[0].account));
        let j = choose|j: int| 0 <= j < s2.len() && s2[j].account == s1[0].account;
        assert(contains_account(s2, s2[0].account));
        assert(contains_account(s1, s2[0].account));
        let i = choose|i: int| 0 <= i < s1.len() && s1[i].account == s2[0].account;
        if j > 0 {
            assert(s2[0].account < s2[j].account);
        }
        if i > 0 {
            assert(s1[0].account < s1[i].account);
        }
        assert(s1[0].account == s2[0].account);
        lemma_balance_at(s1, 0);
        lemma_balance_at(s2, 0);
        assert(s1[0] == s2[0]);
        let t1 = s1.drop_first();
        let t2 = s2.drop_first();
        assert forall|a: u64| contains_account(t1, a) <==> contains_account(t2, a) by {
            lemma_tail_view(s1, a);
            lemma_tail_view(s2, a);
        }
        assert forall|a: u64| balance_of(t1, a) == balance_of(t2, a) by {
            lemma_tail_view(s1, a);
            lemma_tail_view(s2, a);
            if a == s1[0].account {
                assert(!contains_account(t1, a));
                assert(!contains_account(t2, a));
            }
        }
        lemma_tail_view(s1, s1[0].account);
        lemma_tail_view(s2, s2[0].account);
        lemma_ledger_determined(t1, t2);
        assert forall|k: int| 0 <= k < s1.len() implies s1[k] == s2[k] by {
            if k > 0 {
                assert(s1[k] == t1[k - 1]);
                assert(s2[k] == t2[k - 1]);
            }
        }
        assert(s1 =~= s2);
    }
}

} // verus!
