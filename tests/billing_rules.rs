use subscriptions::account::AccountId;
use subscriptions::billing::{
    CancelledSubscriptions, ContractEvent, Error, PaymentInterval, BLOCKS_PER_MONTH,
    BLOCKS_PER_WEEK,
};
use subscriptions::contract::Subscriptions;
use subscriptions::ledger::Ledger;

const ONE_TOKEN: u128 = 1_000_000_000_000;

fn account(n: u8) -> AccountId {
    AccountId([n; 32])
}

fn engine_account() -> AccountId {
    account(9)
}

fn owner() -> AccountId {
    account(1)
}

/// A registry at `price` per height unit, hosted by its own account and owned by
/// account 1.
fn setup(price: u128) -> (Subscriptions, Ledger) {
    let ledger = Ledger::new(engine_account(), owner());
    let subscriptions = Subscriptions::new(price, &ledger);
    (subscriptions, ledger)
}

fn register(
    subscriptions: &mut Subscriptions,
    ledger: &mut Ledger,
    who: AccountId,
    funds: u128,
    value: u128,
    interval: PaymentInterval,
    intervals: u32,
) -> Result<(), Error> {
    ledger.set_account_balance(who, funds);
    ledger.set_caller(who);
    assert!(ledger.transfer_in(value));
    subscriptions.add_subscription(ledger, interval, intervals, format!("chat_id:{}", who.0[0]))
}

#[test]
fn register_pays_owner_one_week_and_returns_excess() {
    let (mut subscriptions, mut ledger) = setup(1);
    let caller = account(3);
    register(&mut subscriptions, &mut ledger, caller, 2 * ONE_TOKEN, 2 * ONE_TOKEN, PaymentInterval::Week, 1)
        .unwrap();
    assert_eq!(ledger.get_account_balance(owner()), 604_800);
    assert_eq!(ledger.get_account_balance(caller), 2 * ONE_TOKEN - 604_800);
    assert_eq!(ledger.get_account_balance(engine_account()), 0);
}

#[test]
fn register_keeps_prepaid_intervals_with_engine() {
    let (mut subscriptions, mut ledger) = setup(2);
    let caller = account(3);
    let price = 2 * BLOCKS_PER_WEEK as u128;
    register(&mut subscriptions, &mut ledger, caller, ONE_TOKEN, ONE_TOKEN, PaymentInterval::Week, 4)
        .unwrap();
    assert_eq!(ledger.get_account_balance(owner()), price);
    assert_eq!(ledger.get_account_balance(caller), ONE_TOKEN - 4 * price);
    assert_eq!(ledger.get_account_balance(engine_account()), 3 * price);
    let s = subscriptions.subscription(&caller).unwrap();
    assert_eq!(s.paid_intervals, 1);
    assert_eq!(s.declared_payment_intervals, 4);
    assert_eq!(s.price_per_interval, price);
    assert_eq!(s.external_channel_handle, "chat_id:3");
}

#[test]
fn month_price_is_thirty_weeks() {
    let (mut subscriptions, mut ledger) = setup(1);
    let caller = account(3);
    register(&mut subscriptions, &mut ledger, caller, ONE_TOKEN, ONE_TOKEN, PaymentInterval::Month, 1)
        .unwrap();
    assert_eq!(
        subscriptions.subscription(&caller).unwrap().price_per_interval,
        18_144_000
    );
    assert_eq!(BLOCKS_PER_MONTH, 30 * BLOCKS_PER_WEEK);
}

#[test]
fn register_then_cancel_returns_all_but_one_interval() {
    let (mut subscriptions, mut ledger) = setup(1);
    let caller = account(3);
    register(&mut subscriptions, &mut ledger, caller, 3 * 604_800, 3 * 604_800, PaymentInterval::Week, 3)
        .unwrap();
    assert_eq!(ledger.get_account_balance(caller), 0);
    ledger.set_caller(caller);
    subscriptions.cancel_subscription(&mut ledger).unwrap();
    assert_eq!(ledger.get_account_balance(caller), 2 * 604_800);
    assert_eq!(ledger.get_account_balance(owner()), 604_800);
    assert!(subscriptions.subscription(&caller).is_none());
    assert!(!subscriptions.is_active(&caller));
    assert!(subscriptions.get_active_subscriptions().unwrap().is_empty());
}

#[test]
fn cancel_also_returns_attached_value() {
    let (mut subscriptions, mut ledger) = setup(1);
    let caller = account(3);
    register(&mut subscriptions, &mut ledger, caller, ONE_TOKEN, 604_800, PaymentInterval::Week, 1)
        .unwrap();
    ledger.set_caller(caller);
    assert!(ledger.transfer_in(500));
    subscriptions.cancel_subscription(&mut ledger).unwrap();
    assert_eq!(ledger.get_account_balance(caller), ONE_TOKEN - 604_800);
}

#[test]
fn register_twice_is_already_registered() {
    let (mut subscriptions, mut ledger) = setup(1);
    let caller = account(3);
    register(&mut subscriptions, &mut ledger, caller, ONE_TOKEN, ONE_TOKEN, PaymentInterval::Week, 1)
        .unwrap();
    let before = ledger.get_account_balance(caller);
    ledger.set_caller(caller);
    let r = subscriptions.add_subscription(&mut ledger, PaymentInterval::Week, 1, "x".to_string());
    assert_eq!(r, Err(Error::AlreadyRegistered(caller)));
    assert_eq!(ledger.get_account_balance(caller), before);
    assert_eq!(ledger.recorded_events().len(), 1);
}

#[test]
fn zero_intervals_is_invalid() {
    let (mut subscriptions, mut ledger) = setup(1);
    let r = register(&mut subscriptions, &mut ledger, account(3), ONE_TOKEN, ONE_TOKEN, PaymentInterval::Week, 0);
    assert_eq!(r, Err(Error::InvalidIntervalCount(0)));
    assert!(!subscriptions.is_active(&account(3)));
}

#[test]
fn underpaying_is_insufficient_funds_and_changes_nothing() {
    let (mut subscriptions, mut ledger) = setup(1);
    let caller = account(3);
    let r = register(&mut subscriptions, &mut ledger, caller, ONE_TOKEN, 2 * 604_800 - 1, PaymentInterval::Week, 2);
    assert_eq!(r, Err(Error::InsufficientFunds(2 * 604_800)));
    assert!(subscriptions.subscription(&caller).is_none());
    assert_eq!(ledger.get_account_balance(owner()), 0);
    assert!(ledger.recorded_events().is_empty());
}

#[test]
fn cancel_without_subscription_is_not_registered() {
    let (mut subscriptions, mut ledger) = setup(1);
    ledger.set_caller(account(4));
    assert_eq!(
        subscriptions.cancel_subscription(&mut ledger),
        Err(Error::NotRegistered(account(4)))
    );
}

#[test]
fn cancel_fails_whole_when_engine_cannot_pay() {
    let (mut subscriptions, mut ledger) = setup(1);
    let caller = account(3);
    register(&mut subscriptions, &mut ledger, caller, ONE_TOKEN, 3 * 604_800, PaymentInterval::Week, 3)
        .unwrap();
    ledger.set_account_balance(engine_account(), 10);
    ledger.set_caller(caller);
    assert_eq!(subscriptions.cancel_subscription(&mut ledger), Err(Error::TransferFailed));
    assert!(subscriptions.is_active(&caller));
    assert!(subscriptions.subscription(&caller).is_some());
    assert_eq!(ledger.get_account_balance(engine_account()), 10);
    assert_eq!(ledger.recorded_events().len(), 1);
}

#[test]
fn settlement_by_other_than_owner_is_not_authorized() {
    let (mut subscriptions, mut ledger) = setup(1);
    ledger.set_caller(account(3));
    assert_eq!(subscriptions.payment_settlement(&mut ledger), Err(Error::NotAuthorized));
}

#[test]
fn transfer_ownership_rules() {
    let (mut subscriptions, ledger) = setup(1);
    let mut other = Ledger::new(engine_account(), account(3));
    assert_eq!(subscriptions.transfer_ownership(&other, account(3)), Err(Error::NotAuthorized));
    assert_eq!(subscriptions.transfer_ownership(&ledger, owner()), Err(Error::NoOpRejected));
    assert_eq!(subscriptions.owner(), owner());
    assert!(subscriptions.transfer_ownership(&ledger, account(3)).is_ok());
    assert_eq!(subscriptions.owner(), account(3));
    other.set_caller(account(3));
    assert!(subscriptions.set_code(&mut other, [7u8; 32]).is_ok());
    assert_eq!(other.code_hash, [7u8; 32]);
    assert_eq!(subscriptions.set_code(&mut Ledger::new(engine_account(), owner()), [1u8; 32]), Err(Error::NotAuthorized));
}

fn advance(ledger: &mut Ledger, blocks: u32) {
    for _ in 0..blocks {
        ledger.advance_block();
    }
}

#[test]
fn settlement_retires_the_fully_paid_and_keeps_the_rest() {
    let (mut subscriptions, mut ledger) = setup(1);
    let (two, three) = (account(3), account(4));
    register(&mut subscriptions, &mut ledger, two, ONE_TOKEN, ONE_TOKEN, PaymentInterval::Week, 2).unwrap();
    register(&mut subscriptions, &mut ledger, three, ONE_TOKEN, ONE_TOKEN, PaymentInterval::Week, 3).unwrap();
    advance(&mut ledger, BLOCKS_PER_WEEK);
    ledger.set_caller(owner());
    subscriptions.payment_settlement(&mut ledger).unwrap();
    assert!(subscriptions.subscription(&two).is_none());
    assert!(!subscriptions.is_active(&two));
    assert_eq!(subscriptions.subscription(&three).unwrap().paid_intervals, 2);
    assert_eq!(subscriptions.subscription(&three).unwrap().last_payment_at, BLOCKS_PER_WEEK);
    assert_eq!(
        ledger.recorded_events()[2],
        ContractEvent::CancelledSubscriptions(CancelledSubscriptions { for_accounts: vec![two] })
    );
    // two registrations and two settled weeks
    assert_eq!(ledger.get_account_balance(owner()), 4 * 604_800);
}

#[test]
fn settling_twice_at_same_height_charges_nothing_more() {
    let (mut subscriptions, mut ledger) = setup(1);
    let who = account(3);
    register(&mut subscriptions, &mut ledger, who, ONE_TOKEN, ONE_TOKEN, PaymentInterval::Week, 5).unwrap();
    advance(&mut ledger, 2 * BLOCKS_PER_WEEK + 10);
    ledger.set_caller(owner());
    subscriptions.payment_settlement(&mut ledger).unwrap();
    let owner_after_first = ledger.get_account_balance(owner());
    assert_eq!(owner_after_first, 3 * 604_800);
    let events_after_first = ledger.recorded_events().len();
    subscriptions.payment_settlement(&mut ledger).unwrap();
    assert_eq!(ledger.get_account_balance(owner()), owner_after_first);
    assert_eq!(ledger.recorded_events().len(), events_after_first);
    assert_eq!(subscriptions.subscription(&who).unwrap().paid_intervals, 3);
}

#[test]
fn settlement_never_charges_beyond_declared() {
    let (mut subscriptions, mut ledger) = setup(1);
    let who = account(3);
    register(&mut subscriptions, &mut ledger, who, ONE_TOKEN, ONE_TOKEN, PaymentInterval::Week, 2).unwrap();
    advance(&mut ledger, 5 * BLOCKS_PER_WEEK);
    ledger.set_caller(owner());
    subscriptions.payment_settlement(&mut ledger).unwrap();
    assert_eq!(ledger.get_account_balance(owner()), 2 * 604_800);
    assert!(subscriptions.subscription(&who).is_none());
    assert!(subscriptions.get_active_subscriptions().unwrap().is_empty());
}

#[test]
fn settlement_with_nothing_retired_emits_nothing() {
    let (mut subscriptions, mut ledger) = setup(1);
    register(&mut subscriptions, &mut ledger, account(3), ONE_TOKEN, ONE_TOKEN, PaymentInterval::Month, 2).unwrap();
    advance(&mut ledger, BLOCKS_PER_WEEK);
    ledger.set_caller(owner());
    subscriptions.payment_settlement(&mut ledger).unwrap();
    assert_eq!(ledger.recorded_events().len(), 1);
    assert_eq!(subscriptions.subscription(&account(3)).unwrap().paid_intervals, 1);
}

#[test]
fn active_subscriptions_list_in_registration_order() {
    let (mut subscriptions, mut ledger) = setup(0);
    for n in [5u8, 3, 7] {
        register(&mut subscriptions, &mut ledger, account(n), 0, 0, PaymentInterval::Week, 1).unwrap();
    }
    let list = subscriptions.get_active_subscriptions().unwrap();
    let who: Vec<u8> = list.iter().map(|a| a.for_account.0[0]).collect();
    assert_eq!(who, vec![5, 3, 7]);
    assert_eq!(list[1].external_channel_handle, b"chat_id:3".to_vec());
}

#[test]
fn ledger_transfer_in_needs_funds() {
    let mut ledger = Ledger::new(engine_account(), account(3));
    ledger.set_account_balance(account(3), 5);
    assert!(!ledger.transfer_in(6));
    assert_eq!(ledger.transferred_value, 0);
    assert!(ledger.transfer_in(5));
    assert_eq!(ledger.get_account_balance(account(3)), 0);
    assert_eq!(ledger.get_account_balance(engine_account()), 5);
    assert_eq!(ledger.transferred_value, 5);
}
