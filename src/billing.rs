use vstd::prelude::*;

use crate::account::AccountId;

verus! {

/// Ledger heights in one week, at one height unit per second.
pub const BLOCKS_PER_WEEK: u32 = 604800;

/// Ledger heights in one month: thirty weeks' worth of heights.
pub const BLOCKS_PER_MONTH: u32 = 18144000;

/// The largest rate per height unit that the engine accepts, so that the price of the
/// longest subscription that can be declared (`u32::MAX` months) fits in a `u128`.
pub const MAX_PRICE_PER_BLOCK: u128 = 4366631532887515524225;

/// How often a subscription is charged.
#[derive(Clone, Copy, Debug, PartialEq, Eq, Structural)]
pub enum PaymentInterval {
    Week,
    Month,
}

/// Ledger heights in one payment interval.
pub open spec fn blocks_in(i: PaymentInterval) -> nat {
    match i {
        PaymentInterval::Week => BLOCKS_PER_WEEK as nat,
        PaymentInterval::Month => BLOCKS_PER_MONTH as nat,
    }
}

/// The authoritative record of one subscription.
#[derive(Debug)]
pub struct Subscription {
    /// Declared payment interval.
    pub payment_interval: PaymentInterval,
    /// Number of intervals the subscriber committed to pay for.
    pub declared_payment_intervals: u32,
    /// Number of intervals already paid to the owner.
    pub paid_intervals: u32,
    /// Price of one interval, fixed at registration from the then-current rate.
    pub price_per_interval: u128,
    /// Height at which the subscription was registered.
    pub registered_at: u32,
    /// Height of the last settlement that charged this subscription.
    pub last_payment_at: u32,
    /// Where this subscriber's notifications go, e.g. a chat id.
    pub external_channel_handle: String,
}

impl Subscription {
    /// A copy of the record.
    pub fn copy(&self) -> (r: Subscription)
        ensures
            r == *self,
    {
        Subscription {
            payment_interval: self.payment_interval,
            declared_payment_intervals: self.declared_payment_intervals,
            paid_intervals: self.paid_intervals,
            price_per_interval: self.price_per_interval,
            registered_at: self.registered_at,
            last_payment_at: self.last_payment_at,
            external_channel_handle: self.external_channel_handle.clone(),
        }
    }
}

/// An active subscription as exposed to readers of the engine.
#[derive(Debug, Clone, PartialEq, Eq)]
pub struct ActiveSubscriptionAttr {
    /// The subscriber; ledger activity of this account results in notifications.
    pub for_account: AccountId,
    /// The subscriber's channel handle, as UTF-8 bytes.
    pub external_channel_handle: Vec<u8>,
}

/// Errors that the engine returns; none of them leaves any change behind.
#[derive(Debug, Clone, PartialEq, Eq)]
pub enum Error {
    /// The caller may not perform this operation.
    NotAuthorized,
    /// The caller already has an active subscription.
    AlreadyRegistered(AccountId),
    /// The declared number of intervals is zero.
    InvalidIntervalCount(u32),
    /// The attached value does not cover the declared intervals; the amount required.
    InsufficientFunds(u128),
    /// The caller has no active subscription.
    NotRegistered(AccountId),
    /// The new owner is the current owner.
    NoOpRejected,
    /// An account is listed as active but has no record.
    InconsistentState(AccountId),
    /// The engine could not pay out what its books say it holds.
    TransferFailed,
}

/// Emitted when a subscription is registered.
#[derive(Debug, Clone, PartialEq, Eq)]
pub struct NewSubscription {
    pub for_account: AccountId,
    /// The channel handle, as UTF-8 bytes.
    pub external_channel_handle: Vec<u8>,
}

/// Emitted when a subscriber cancels.
#[derive(Debug, Clone, PartialEq, Eq)]
pub struct CancelledSubscription {
    pub for_account: AccountId,
}

/// Emitted by a settlement that retired at least one subscription.
#[derive(Debug, Clone, PartialEq, Eq)]
pub struct CancelledSubscriptions {
    pub for_accounts: Vec<AccountId>,
}

/// The lifecycle events that the engine emits.
#[derive(Debug, Clone, PartialEq, Eq)]
pub enum ContractEvent {
    NewSubscription(NewSubscription),
    CancelledSubscription(CancelledSubscription),
    CancelledSubscriptions(CancelledSubscriptions),
}

/// What an emitted event says.
pub enum EventView {
    Registered(AccountId, Seq<u8>),
    Cancelled(AccountId),
    CancelledBatch(Seq<AccountId>),
}

impl View for ContractEvent {
    type V = EventView;

    open spec fn view(&self) -> EventView {
        match self {
            ContractEvent::NewSubscription(e) => EventView::Registered(
                e.for_account,
                e.external_channel_handle@,
            ),
            ContractEvent::CancelledSubscription(e) => EventView::Cancelled(e.for_account),
            ContractEvent::CancelledSubscriptions(e) => EventView::CancelledBatch(e.for_accounts@),
        }
    }
}

/// The engine's state: who owns it, the rate, the records and the active set in the
/// order of registration.
pub struct EngineState {
    pub owner: AccountId,
    pub price_per_block: u128,
    pub records: Map<AccountId, Subscription>,
    pub active: Seq<AccountId>,
}

/// A record that the engine can hold: at least one and at most all declared intervals
/// paid, and the full declared price representable.
pub open spec fn record_ok(r: Subscription) -> bool {
    &&& 1 <= r.paid_intervals <= r.declared_payment_intervals
    &&& r.price_per_interval * r.declared_payment_intervals <= u128::MAX
}

/// The engine's invariant.
pub open spec fn state_inv(s: EngineState) -> bool {
    &&& s.price_per_block <= MAX_PRICE_PER_BLOCK
    &&& s.active.no_duplicates()
    &&& forall|a: AccountId| s.active.contains(a) <==> s.records.dom().contains(a)
    &&& forall|a: AccountId| #[trigger] s.records.dom().contains(a) ==> record_ok(s.records[a])
}

/// Amounts paid out of the engine's account, in order.
pub type Payouts = Seq<(AccountId, nat)>;

/// The result of an accepted operation: the new state, what is paid out and what is
/// emitted.
pub struct Step {
    pub state: EngineState,
    pub payouts: Payouts,
    pub event: Option<EventView>,
}

/// Price of one interval at rate `price_per_block`.
pub open spec fn interval_price(price_per_block: u128, i: PaymentInterval) -> nat {
    (price_per_block * blocks_in(i)) as nat
}

/// Register: one interval is paid to the owner, everything above the declared total
/// goes back to the caller.
pub open spec fn register_step(
    s: EngineState,
    caller: AccountId,
    now: u32,
    value: u128,
    interval: PaymentInterval,
    intervals: u32,
    handle: String,
) -> Result<Step, Error> {
    let price = interval_price(s.price_per_block, interval);
    let total = price * intervals;
    if s.records.dom().contains(caller) {
        Err(Error::AlreadyRegistered(caller))
    } else if intervals == 0 {
        Err(Error::InvalidIntervalCount(intervals))
    } else if value < total {
        Err(Error::InsufficientFunds(total as u128))
    } else {
        let record = Subscription {
            payment_interval: interval,
            declared_payment_intervals: intervals,
            paid_intervals: 1,
            price_per_interval: price as u128,
            registered_at: now,
            last_payment_at: now,
            external_channel_handle: handle,
        };
        Ok(
            Step {
                state: EngineState {
                    records: s.records.insert(caller, record),
                    active: s.active.push(caller),
                    ..s
                },
                payouts: seq![(s.owner, price), (caller, (value - total) as nat)],
                event: Some(EventView::Registered(caller, vstd::utf8::encode_utf8(handle@))),
            },
        )
    }
}

/// The sequence without any occurrence of `a`.
pub open spec fn without(s: Seq<AccountId>, a: AccountId) -> Seq<AccountId>
    decreases s.len(),
{
    if s.len() == 0 {
        s
    } else if s.last() == a {
        without(s.drop_last(), a)
    } else {
        without(s.drop_last(), a).push(s.last())
    }
}

/// What a cancellation returns: the unpaid declared intervals plus the attached value.
pub open spec fn refund(r: Subscription, value: u128) -> nat {
    (r.price_per_interval * (r.declared_payment_intervals - r.paid_intervals) + value) as nat
}

/// Cancel: the record goes, and the caller gets back what was not yet paid.
pub open spec fn cancel_step(s: EngineState, caller: AccountId, value: u128) -> Result<Step, Error> {
    if !s.records.dom().contains(caller) {
        Err(Error::NotRegistered(caller))
    } else {
        let back = refund(s.records[caller], value);
        Ok(
            Step {
                state: EngineState {
                    records: s.records.remove(caller),
                    active: without(s.active, caller),
                    ..s
                },
                payouts: if back > 0 {
                    seq![(caller, back)]
                } else {
                    Seq::empty()
                },
                event: Some(EventView::Cancelled(caller)),
            },
        )
    }
}

/// Whole intervals elapsed since the last payment; none if `now` lies before it.
pub open spec fn elapsed(r: Subscription, now: u32) -> nat {
    if now >= r.last_payment_at {
        ((now - r.last_payment_at) as nat) / blocks_in(r.payment_interval)
    } else {
        0
    }
}

/// Intervals charged now: the elapsed ones, but never more than were declared.
pub open spec fn charged(r: Subscription, now: u32) -> nat {
    let due = (r.declared_payment_intervals - r.paid_intervals) as nat;
    if elapsed(r, now) <= due {
        elapsed(r, now)
    } else {
        due
    }
}

/// The record after a settlement that charged it.
pub open spec fn settled(r: Subscription, now: u32) -> Subscription {
    Subscription {
        paid_intervals: (r.paid_intervals + charged(r, now)) as u32,
        last_payment_at: now,
        ..r
    }
}

/// A settlement at `now` charges the record and it has then paid all it declared.
pub open spec fn retires(r: Subscription, now: u32) -> bool {
    elapsed(r, now) > 0 && r.paid_intervals + charged(r, now) == r.declared_payment_intervals
}

/// The records after settling, in order, the accounts of `s` (records read from `m`).
pub open spec fn settle_records(m: Map<AccountId, Subscription>, s: Seq<AccountId>, now: u32) -> Map<
    AccountId,
    Subscription,
>
    decreases s.len(),
{
    if s.len() == 0 {
        m
    } else {
        let rest = settle_records(m, s.drop_last(), now);
        let a = s.last();
        if elapsed(m[a], now) == 0 {
            rest
        } else if retires(m[a], now) {
            rest.remove(a)
        } else {
            rest.insert(a, settled(m[a], now))
        }
    }
}

/// The accounts of `s` that a settlement at `now` keeps, in order.
pub open spec fn settle_kept(m: Map<AccountId, Subscription>, s: Seq<AccountId>, now: u32) -> Seq<
    AccountId,
>
    decreases s.len(),
{
    if s.len() == 0 {
        s
    } else if retires(m[s.last()], now) {
        settle_kept(m, s.drop_last(), now)
    } else {
        settle_kept(m, s.drop_last(), now).push(s.last())
    }
}

/// The accounts of `s` that a settlement at `now` retires, in order.
pub open spec fn settle_retired(m: Map<AccountId, Subscription>, s: Seq<AccountId>, now: u32) -> Seq<
    AccountId,
>
    decreases s.len(),
{
    if s.len() == 0 {
        s
    } else if retires(m[s.last()], now) {
        settle_retired(m, s.drop_last(), now).push(s.last())
    } else {
        settle_retired(m, s.drop_last(), now)
    }
}

/// What a settlement at `now` pays the owner, one payout per charged account, in order.
pub open spec fn settle_payouts(
    m: Map<AccountId, Subscription>,
    s: Seq<AccountId>,
    owner: AccountId,
    now: u32,
) -> Payouts
    decreases s.len(),
{
    if s.len() == 0 {
        Seq::empty()
    } else {
        let rest = settle_payouts(m, s.drop_last(), owner, now);
        let r = m[s.last()];
        if elapsed(r, now) == 0 {
            rest
        } else {
            rest.push((owner, (r.price_per_interval * charged(r, now)) as nat))
        }
    }
}

/// Settle: only the owner; charges every active subscription for the whole intervals
/// elapsed and retires those that have paid all they declared.
pub open spec fn settle_step(s: EngineState, caller: AccountId, now: u32) -> Result<Step, Error> {
    if caller != s.owner {
        Err(Error::NotAuthorized)
    } else {
        let retired = settle_retired(s.records, s.active, now);
        Ok(
            Step {
                state: EngineState {
                    records: settle_records(s.records, s.active, now),
                    active: settle_kept(s.records, s.active, now),
                    ..s
                },
                payouts: settle_payouts(s.records, s.active, s.owner, now),
                event: if retired.len() > 0 {
                    Some(EventView::CancelledBatch(retired))
                } else {
                    None
                },
            },
        )
    }
}

/// Transfer ownership: only the owner, and only to another account.
pub open spec fn transfer_ownership_step(s: EngineState, caller: AccountId, new_owner: AccountId) -> Result<
    Step,
    Error,
> {
    if caller != s.owner {
        Err(Error::NotAuthorized)
    } else if new_owner == s.owner {
        Err(Error::NoOpRejected)
    } else {
        Ok(Step { state: EngineState { owner: new_owner, ..s }, payouts: Seq::empty(), event: None })
    }
}

} // verus!

verus! {

/// Membership in the sequence without `a`; it keeps distinct elements distinct.
pub proof fn lemma_without(s: Seq<AccountId>, a: AccountId)
    ensures
        forall|x: AccountId| without(s, a).contains(x) <==> s.contains(x) && x != a,
        s.no_duplicates() ==> without(s, a).no_duplicates(),
        !s.contains(a) ==> without(s, a) == s,
    decreases s.len(),
{
    if s.len() > 0 {
        let t = s.drop_last();
        lemma_without(t, a);
        assert forall|x: AccountId| s.contains(x) <==> t.contains(x) || x == s.last() by {
            if s.contains(x) {
                let i = choose|i: int| 0 <= i < s.len() && s[i] == x;
                if i < s.len() - 1 {
                    assert(t[i] == x);
                }
            }
            if t.contains(x) {
                let i = choose|i: int| 0 <= i < t.len() && t[i] == x;
                assert(s[i] == x);
            }
            assert(s[s.len() - 1] == s.last());
        }
        if s.no_duplicates() {
            assert(t.no_duplicates());
            assert(!t.contains(s.last())) by {
                if t.contains(s.last()) {
                    let i = choose|i: int| 0 <= i < t.len() && t[i] == s.last();
                    assert(s[i] == s[s.len() - 1]);
                }
            }
        }
        if !s.contains(a) {
            assert(s.last() != a);
            assert(t.push(s.last()) =~= s);
        }
        let w = without(t, a);
        if s.last() != a {
            assert forall|x: AccountId| w.push(s.last()).contains(x) <==> w.contains(x) || x
                == s.last() by {
                if w.push(s.last()).contains(x) {
                    let i = choose|i: int|
                        0 <= i < w.push(s.last()).len() && w.push(s.last())[i] == x;
                    if i < w.len() {
                        assert(w[i] == x);
                    }
                }
                if w.contains(x) {
                    let i = choose|i: int| 0 <= i < w.len() && w[i] == x;
                    assert(w.push(s.last())[i] == x);
                }
                assert(w.push(s.last())[w.len() as int] == s.last());
            }
        }
    }
}

/// Where `s` lies inside the records, settling it removes exactly the retired accounts
/// of `s` and replaces each charged record by its settled form.
pub proof fn lemma_settle_records(
    m: Map<AccountId, Subscription>,
    s: Seq<AccountId>,
    now: u32,
    x: AccountId,
)
    requires
        forall|y: AccountId| s.contains(y) ==> m.dom().contains(y),
    ensures
        settle_records(m, s, now).dom().contains(x) <==> m.dom().contains(x) && !(s.contains(x)
            && retires(m[x], now)),
        settle_records(m, s, now).dom().contains(x) ==> settle_records(m, s, now)[x] == if s.contains(
            x,
        ) && elapsed(m[x], now) > 0 {
            settled(m[x], now)
        } else {
            m[x]
        },
    decreases s.len(),
{
    if s.len() > 0 {
        let t = s.drop_last();
        assert forall|y: AccountId| t.contains(y) implies m.dom().contains(y) by {
            let i = choose|i: int| 0 <= i < t.len() && t[i] == y;
            assert(s[i] == y);
            assert(s.contains(y));
        }
        lemma_settle_records(m, t, now, x);
        assert(s.contains(s.last())) by {
            assert(s[s.len() - 1] == s.last());
        }
        assert(s.contains(x) <==> t.contains(x) || x == s.last()) by {
            if s.contains(x) {
                let i = choose|i: int| 0 <= i < s.len() && s[i] == x;
                if i < s.len() - 1 {
                    assert(t[i] == x);
                }
            }
            if t.contains(x) {
                let i = choose|i: int| 0 <= i < t.len() && t[i] == x;
                assert(s[i] == x);
            }
            assert(s[s.len() - 1] == s.last());
        }
    }
}

/// A settlement keeps exactly the accounts of `s` that it does not retire, each once.
pub proof fn lemma_settle_kept(m: Map<AccountId, Subscription>, s: Seq<AccountId>, now: u32)
    ensures
        forall|x: AccountId| settle_kept(m, s, now).contains(x) <==> s.contains(x) && !retires(m[x], now),
        s.no_duplicates() ==> settle_kept(m, s, now).no_duplicates(),
    decreases s.len(),
{
    if s.len() > 0 {
        let t = s.drop_last();
        lemma_settle_kept(m, t, now);
        let k = settle_kept(m, t, now);
        assert forall|x: AccountId| s.contains(x) <==> t.contains(x) || x == s.last() by {
            if s.contains(x) {
                let i = choose|i: int| 0 <= i < s.len() && s[i] == x;
                if i < s.len() - 1 {
                    assert(t[i] == x);
                }
            }
            if t.contains(x) {
                let i = choose|i: int| 0 <= i < t.len() && t[i] == x;
                assert(s[i] == x);
            }
            assert(s[s.len() - 1] == s.last());
        }
        assert forall|x: AccountId| k.push(s.last()).contains(x) <==> k.contains(x) || x
            == s.last() by {
            if k.push(s.last()).contains(x) {
                let i = choose|i: int| 0 <= i < k.push(s.last()).len() && k.push(s.last())[i] == x;
                if i < k.len() {
                    assert(k[i] == x);
                }
            }
            if k.contains(x) {
                let i = choose|i: int| 0 <= i < k.len() && k[i] == x;
                assert(k.push(s.last())[i] == x);
            }
            assert(k.push(s.last())[k.len() as int] == s.last());
        }
        if s.no_duplicates() {
            assert(t.no_duplicates());
            assert(!t.contains(s.last())) by {
                if t.contains(s.last()) {
                    let i = choose|i: int| 0 <= i < t.len() && t[i] == s.last();
                    assert(s[i] == s[s.len() - 1]);
                }
            }
        }
        assert forall|x: AccountId|
            settle_kept(m, s, now).contains(x) <==> s.contains(x) && !retires(m[x], now) by {
            assert(k.contains(x) <==> t.contains(x) && !retires(m[x], now));
            assert(s.contains(x) <==> t.contains(x) || x == s.last());
            assert(k.push(s.last()).contains(x) <==> k.contains(x) || x == s.last());
            if retires(m[s.last()], now) {
                assert(settle_kept(m, s, now) == k);
            } else {
                assert(settle_kept(m, s, now) == k.push(s.last()));
            }
        }
    }
}

/// Settlement keeps the invariant.
pub proof fn lemma_settle_keeps_inv(s: EngineState, now: u32)
    requires
        state_inv(s),
    ensures
        state_inv(
            EngineState {
                records: settle_records(s.records, s.active, now),
                active: settle_kept(s.records, s.active, now),
                ..s
            },
        ),
{
    lemma_settle_kept(s.records, s.active, now);
    let m2 = settle_records(s.records, s.active, now);
    assert forall|y: AccountId| s.active.contains(y) implies s.records.dom().contains(y) by {}
    assert forall|x: AccountId| #[trigger] m2.dom().contains(x) implies record_ok(m2[x]) by {
        lemma_settle_records(s.records, s.active, now, x);
    }
    assert forall|x: AccountId|
        settle_kept(s.records, s.active, now).contains(x) <==> m2.dom().contains(x) by {
        lemma_settle_records(s.records, s.active, now, x);
        if s.active.contains(x) {
            assert(s.records.dom().contains(x));
        }
    }
}

} // verus!
