//! Tests of the distribution engine's arithmetic, its conservation and
//! remainder guarantees, and every error the contract can raise.

use reward_contract::ContractError;
use reward_contract::InstantiateMsg;
use reward_contract::UsdsimBalance;
use reward_contract::WtokenBalance;
use reward_contract::LedgerEntry;
use reward_contract::Payout;
use reward_contract::RewardState;
use reward_contract::instantiate;

const WTOKEN_ADDRESS: u64 = 1000;

fn do_instantiation() -> RewardState {
    instantiate(InstantiateMsg {
        wtoken_contract: WTOKEN_ADDRESS,
    })
}

fn deposit(state: &mut RewardState, sender: u64, amount: u128) {
    state
        .receive_wtoken(WTOKEN_ADDRESS, sender, amount)
        .unwrap();
}

#[test]
fn end_to_end_scenario() {
    let mut state = do_instantiation();
    assert_eq!(state.wtoken_total_balance().0, 0);
    assert_eq!(state.remaining_usdsim().0, 0);

    deposit(&mut state, 1, 10);
    assert_eq!(state.wtoken_balance(1).unwrap().0, 10);
    assert_eq!(state.wtoken_total_balance().0, 10);

    deposit(&mut state, 2, 90);
    assert_eq!(state.wtoken_balance(2).unwrap().0, 90);
    assert_eq!(state.wtoken_total_balance().0, 100);

    let payouts = state.receive_usdsim(Some(1000)).unwrap();
    assert_eq!(
        payouts,
        vec![
            Payout {
                to_address: 1,
                amount: 100
            },
            Payout {
                to_address: 2,
                amount: 900
            },
        ]
    );
    assert_eq!(state.remaining_usdsim().0, 0);

    deposit(&mut state, 3, 100);
    assert_eq!(state.wtoken_total_balance().0, 200);

    let payouts = state.receive_usdsim(Some(1001)).unwrap();
    assert_eq!(
        payouts,
        vec![
            Payout {
                to_address: 1,
                amount: 50
            },
            Payout {
                to_address: 2,
                amount: 450
            },
            Payout {
                to_address: 3,
                amount: 500
            },
        ]
    );
    assert_eq!(state.remaining_usdsim().0, 1);
}

#[test]
fn ledger_totals_match_balances() {
    let mut state = do_instantiation();
    let deposits: [(u64, u128); 5] = [(5, 7), (2, 11), (9, 1), (2, 3), (5, 100)];
    for (sender, amount) in deposits {
        deposit(&mut state, sender, amount);
        let sum: u128 = state.balances.iter().map(|e| e.balance).sum();
        assert_eq!(state.wtoken_total_balance().0, sum);
    }
    assert_eq!(state.wtoken_balance(2).unwrap().0, 14);
    assert_eq!(state.wtoken_balance(5).unwrap().0, 107);
    assert_eq!(state.wtoken_balance(9).unwrap().0, 1);
    assert_eq!(state.wtoken_total_balance().0, 122);
}

#[test]
fn ledger_is_kept_in_ascending_account_order() {
    let mut state = do_instantiation();
    for (sender, amount) in [(8u64, 5u128), (3, 5), (11, 5), (1, 5), (8, 5)] {
        deposit(&mut state, sender, amount);
    }
    let accounts: Vec<u64> = state.balances.iter().map(|e| e.account).collect();
    assert_eq!(accounts, vec![1, 3, 8, 11]);
}

#[test]
fn distribution_conserves_the_pool() {
    let mut state = do_instantiation();
    deposit(&mut state, 1, 3);
    deposit(&mut state, 2, 7);
    deposit(&mut state, 3, 13);

    let mut carried: u128 = 0;
    for attached in [1u128, 999, 23, 5000] {
        let payouts = state.receive_usdsim(Some(attached)).unwrap();
        let paid: u128 = payouts.iter().map(|p| p.amount).sum();
        let remaining = state.remaining_usdsim().0;
        assert_eq!(paid + remaining, attached + carried);
        assert!(remaining < state.wtoken_total_balance().0);
        carried = remaining;
    }
}

#[test]
fn remainder_funds_the_next_round() {
    let mut state = do_instantiation();
    deposit(&mut state, 1, 1);
    deposit(&mut state, 2, 1);

    // 3 over a total of 2: each side gets 1, and 1 is carried.
    let payouts = state.receive_usdsim(Some(3)).unwrap();
    assert_eq!(payouts[0].amount, 1);
    assert_eq!(payouts[1].amount, 1);
    assert_eq!(state.remaining_usdsim().0, 1);

    // The next round splits 3 + 1 carried: each side gets 2, none carried.
    let payouts = state.receive_usdsim(Some(3)).unwrap();
    assert_eq!(payouts[0].amount, 2);
    assert_eq!(payouts[1].amount, 2);
    assert_eq!(state.remaining_usdsim().0, 0);
}

#[test]
fn zero_amount_distribution_is_a_noop() {
    let mut state = do_instantiation();
    deposit(&mut state, 1, 1);
    deposit(&mut state, 2, 1);
    state.receive_usdsim(Some(3)).unwrap();

    let before_balances = state.balances.clone();
    let before_total = state.wtoken_total_balance();
    let before_remaining = state.remaining_usdsim();

    let payouts = state.receive_usdsim(Some(0)).unwrap();
    assert_eq!(payouts, Vec::<Payout>::new());
    assert_eq!(state.balances, before_balances);
    assert_eq!(state.wtoken_total_balance(), before_total);
    assert_eq!(state.remaining_usdsim(), before_remaining);
}

#[test]
fn distribution_without_usdsim_fails() {
    let mut state = do_instantiation();
    deposit(&mut state, 1, 10);
    let err = state.receive_usdsim(None).unwrap_err();
    assert_eq!(err, ContractError::NoUsdsimTokensSent);
    assert_eq!(state.remaining_usdsim().0, 0);
}

#[test]
fn distribution_without_depositors_fails() {
    let mut state = do_instantiation();
    let err = state.receive_usdsim(Some(5)).unwrap_err();
    assert_eq!(err, ContractError::NoRecipients);
    assert_eq!(state.remaining_usdsim().0, 0);
    assert_eq!(state.wtoken_total_balance().0, 0);
}

#[test]
fn zero_payouts_are_still_emitted() {
    let mut state = do_instantiation();
    deposit(&mut state, 1, 1);
    deposit(&mut state, 2, 1000);

    // 500 over a total of 1001: the small account's share rounds to zero,
    // and a zero payout is emitted for it all the same.
    let payouts = state.receive_usdsim(Some(500)).unwrap();
    assert_eq!(
        payouts,
        vec![
            Payout {
                to_address: 1,
                amount: 0
            },
            Payout {
                to_address: 2,
                amount: 499
            },
        ]
    );
    assert_eq!(state.remaining_usdsim().0, 1);
}

#[test]
fn deposit_overflow_is_rejected_and_rolled_back() {
    let mut state = do_instantiation();
    deposit(&mut state, 1, u128::MAX - 5);
    deposit(&mut state, 2, 5);

    let err = state
        .receive_wtoken(WTOKEN_ADDRESS, 3, 1)
        .unwrap_err();
    assert_eq!(err, ContractError::Overflow);
    assert_eq!(state.wtoken_total_balance().0, u128::MAX);
    assert_eq!(state.wtoken_balance(1).unwrap().0, u128::MAX - 5);
    assert!(state.wtoken_balance(3).is_err());
}

#[test]
fn distribution_product_overflow_is_rejected() {
    let mut state = do_instantiation();
    deposit(&mut state, 1, u128::MAX);

    let err = state.receive_usdsim(Some(2)).unwrap_err();
    assert_eq!(err, ContractError::Overflow);
    assert_eq!(state.remaining_usdsim().0, 0);
    assert_eq!(state.wtoken_balance(1).unwrap().0, u128::MAX);
}

#[test]
fn distribution_pool_overflow_is_rejected() {
    let mut state = do_instantiation();
    deposit(&mut state, 1, 1);
    deposit(&mut state, 2, 1);
    state.receive_usdsim(Some(3)).unwrap();
    assert_eq!(state.remaining_usdsim().0, 1);

    // The attached amount plus the carried remainder exceeds the width.
    let err = state.receive_usdsim(Some(u128::MAX)).unwrap_err();
    assert_eq!(err, ContractError::Overflow);
    assert_eq!(state.remaining_usdsim().0, 1);
}

#[test]
fn untrusted_reporter_is_rejected_without_effect() {
    let mut state = do_instantiation();
    deposit(&mut state, 1, 10);

    let err = state.receive_wtoken(999, 1, 50).unwrap_err();
    assert_eq!(err, ContractError::InvalidWtokenAddress { address: 999 });
    assert_eq!(state.wtoken_balance(1).unwrap().0, 10);
    assert_eq!(state.wtoken_total_balance().0, 10);
    assert_eq!(state.remaining_usdsim().0, 0);
}

#[test]
fn zero_deposit_is_rejected_without_effect() {
    let mut state = do_instantiation();
    deposit(&mut state, 1, 10);

    let err = state.receive_wtoken(WTOKEN_ADDRESS, 1, 0).unwrap_err();
    assert_eq!(err, ContractError::ZeroAmountReceived);
    assert_eq!(state.wtoken_balance(1).unwrap().0, 10);
    assert_eq!(state.wtoken_total_balance().0, 10);
}

#[test]
fn balance_query_for_unknown_account_fails() {
    let mut state = do_instantiation();
    deposit(&mut state, 1, 10);
    let err = state.wtoken_balance(2).unwrap_err();
    assert_eq!(err, ContractError::NotFound);
}

#[test]
fn balances_convert_from_plain_integers() {
    assert_eq!(WtokenBalance::from(42u128), WtokenBalance(42));
    assert_eq!(UsdsimBalance::from(7u128), UsdsimBalance(7));
    let entry = LedgerEntry {
        account: 3,
        balance: 9,
    };
    assert_eq!(entry.account, 3);
    assert_eq!(entry.balance, 9);
}
