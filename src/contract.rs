use vstd::prelude::*;
use vstd::string::StrSliceExecFns;

use crate::account::AccountId;
use crate::account_map::AccountMap;
use crate::billing::{
    blocks_in, cancel_step, interval_price, lemma_settle_keeps_inv, lemma_without, record_ok,
    refund, register_step, settle_kept, settle_payouts, settle_records, settle_retired,
    settle_step, settled, state_inv, transfer_ownership_step, without, ActiveSubscriptionAttr,
    CancelledSubscription,
    CancelledSubscriptions, ContractEvent, EngineState, Error, EventView, NewSubscription,
    PaymentInterval, Step, Subscription, BLOCKS_PER_MONTH, BLOCKS_PER_WEEK, MAX_PRICE_PER_BLOCK,
};
use crate::ledger::{payout_view, payouts_spec, Ledger};

verus! {

/// The events that an accepted operation emits.
pub open spec fn event_seq(e: Option<EventView>) -> Seq<EventView> {
    match e {
        Some(v) => seq![v],
        None => Seq::empty(),
    }
}

/// The call ended as `step` says: a rejection changes nothing; an accepted step whose
/// payouts the engine's account cannot make fails with `TransferFailed` and changes
/// nothing; otherwise the engine takes the new state, the payouts are made and the
/// event is emitted.
pub open spec fn committed(
    step: Result<Step, Error>,
    s0: EngineState,
    s1: EngineState,
    l0: Ledger,
    l1: Ledger,
    r: Result<(), Error>,
) -> bool {
    match step {
        Err(e) => r == Err::<(), Error>(e) && s1 == s0 && l1 == l0,
        Ok(st) => match payouts_spec(l0.balances@, l0.contract, st.payouts) {
            None => r == Err::<(), Error>(Error::TransferFailed) && s1 == s0 && l1 == l0,
            Some(b) => {
                &&& r is Ok
                &&& s1 == st.state
                &&& l1.balances@ == b
                &&& l1.same_call(&l0)
                &&& l1.event_log() == l0.event_log() + event_seq(st.event)
            },
        },
    }
}

proof fn lemma_price_bound(ppb: int, blocks: int, n: int)
    requires
        0 <= ppb <= MAX_PRICE_PER_BLOCK,
        0 <= blocks <= BLOCKS_PER_MONTH,
        0 <= n <= u32::MAX,
    ensures
        0 <= ppb * blocks <= MAX_PRICE_PER_BLOCK * BLOCKS_PER_MONTH,
        0 <= ppb * blocks * n <= u128::MAX,
{
    assert(0 <= ppb * blocks <= MAX_PRICE_PER_BLOCK * BLOCKS_PER_MONTH) by (nonlinear_arith)
        requires
            0 <= ppb <= MAX_PRICE_PER_BLOCK,
            0 <= blocks <= BLOCKS_PER_MONTH,
    ;
    let p = ppb * blocks;
    assert(0 <= p * n <= (MAX_PRICE_PER_BLOCK * BLOCKS_PER_MONTH) * u32::MAX) by (nonlinear_arith)
        requires
            0 <= p <= MAX_PRICE_PER_BLOCK * BLOCKS_PER_MONTH,
            0 <= n <= u32::MAX,
    ;
}

proof fn lemma_mul_le(p: int, a: int, b: int)
    requires
        0 <= p,
        0 <= a <= b,
    ensures
        0 <= p * a <= p * b,
{
    assert(0 <= p * a <= p * b) by (nonlinear_arith)
        requires
            0 <= p,
            0 <= a <= b,
    ;
}

/// The records after the changes of `c`, in order: `Some` writes the account's record,
/// `None` removes it.
spec fn apply_changes(m: Map<AccountId, Subscription>, c: Seq<(AccountId, Option<Subscription>)>) -> Map<
    AccountId,
    Subscription,
>
    decreases c.len(),
{
    if c.len() == 0 {
        m
    } else {
        let rest = apply_changes(m, c.drop_last());
        match c.last().1 {
            Some(r) => rest.insert(c.last().0, r),
            None => rest.remove(c.last().0),
        }
    }
}

/// The sequence without `a`.
fn remove_account(v: &Vec<AccountId>, a: AccountId) -> (r: Vec<AccountId>)
    ensures
        r@ == without(v@, a),
{
    let mut r: Vec<AccountId> = Vec::new();
    let mut i: usize = 0;
    while i < v.len()
        invariant
            i <= v@.len(),
            r@ == without(v@.subrange(0, i as int), a),
        decreases v@.len() - i,
    {
        assert(v@.subrange(0, i + 1).drop_last() =~= v@.subrange(0, i as int));
        if v[i] != a {
            r.push(v[i]);
        }
        i = i + 1;
    }
    assert(v@.subrange(0, i as int) =~= v@);
    r
}

/// The subscription registry: owner, rate per height unit, the records and the active
/// set. Every operation runs against a `Ledger` that says who calls, at what height and
/// with what value, and that pays out and records the events.
pub struct Subscriptions {
    owner: AccountId,
    price_per_block: u128,
    subscriptions: AccountMap<Subscription>,
    active_subscriptions: Vec<AccountId>,
}

impl View for Subscriptions {
    type V = EngineState;

    closed spec fn view(&self) -> EngineState {
        EngineState {
            owner: self.owner,
            price_per_block: self.price_per_block,
            records: self.subscriptions@,
            active: self.active_subscriptions@,
        }
    }
}

impl Subscriptions {
    /// The records are a well-formed map and the state keeps the registry's invariant.
    pub closed spec fn wf(&self) -> bool {
        self.subscriptions.wf() && state_inv(self@)
    }

    /// A well-formed registry's state keeps the invariant.
    pub proof fn lemma_wf(&self)
        requires
            self.wf(),
        ensures
            state_inv(self@),
    {
    }

    /// A registry with no subscriptions, owned by the caller, charging `price_per_block`
    /// per height unit.
    pub fn new(price_per_block: u128, ledger: &Ledger) -> (r: Self)
        requires
            price_per_block <= MAX_PRICE_PER_BLOCK,
        ensures
            r.wf(),
            r@ == (EngineState {
                owner: ledger.caller,
                price_per_block,
                records: Map::empty(),
                active: Seq::empty(),
            }),
    {
        let r = Subscriptions {
            owner: ledger.caller,
            price_per_block,
            subscriptions: AccountMap::new(),
            active_subscriptions: Vec::new(),
        };
        assert(r@.records =~= Map::<AccountId, Subscription>::empty());
        r
    }

    pub fn owner(&self) -> (r: AccountId)
        ensures
            r == self@.owner,
    {
        self.owner
    }

    pub fn price_per_block(&self) -> (r: u128)
        ensures
            r == self@.price_per_block,
    {
        self.price_per_block
    }

    /// The record of `a`, if `a` has an active subscription.
    pub fn subscription(&self, a: &AccountId) -> (r: Option<&Subscription>)
        requires
            self.wf(),
        ensures
            r is None <==> !self@.records.dom().contains(*a),
            r matches Some(s) ==> *s == self@.records[*a],
    {
        self.subscriptions.get(a)
    }

    /// `a` is in the active set.
    pub fn is_active(&self, a: &AccountId) -> (r: bool)
        ensures
            r == self@.active.contains(*a),
    {
        let mut i: usize = 0;
        while i < self.active_subscriptions.len()
            invariant
                i <= self.active_subscriptions@.len(),
                forall|j: int| 0 <= j < i ==> self.active_subscriptions@[j] != *a,
            decreases self.active_subscriptions@.len() - i,
        {
            if self.active_subscriptions[i] == *a {
                return true;
            }
            i = i + 1;
        }
        false
    }

    fn authorized(&self, caller: &AccountId) -> (r: Result<(), Error>)
        ensures
            r is Ok <==> *caller == self@.owner,
            r is Err ==> r == Err::<(), Error>(Error::NotAuthorized),
    {
        if *caller != self.owner {
            return Err(Error::NotAuthorized);
        }
        Ok(())
    }

    /// Price of one interval at the current rate.
    fn price_per_interval(&self, payment_interval: &PaymentInterval) -> (r: u128)
        requires
            self.price_per_block <= MAX_PRICE_PER_BLOCK,
        ensures
            r == interval_price(self.price_per_block, *payment_interval),
            r <= MAX_PRICE_PER_BLOCK * BLOCKS_PER_MONTH,
    {
        let blocks: u32 = match payment_interval {
            PaymentInterval::Week => BLOCKS_PER_WEEK,
            PaymentInterval::Month => BLOCKS_PER_MONTH,
        };
        proof {
            lemma_price_bound(self.price_per_block as int, blocks as int, 0);
        }
        self.price_per_block * blocks as u128
    }

    /// Whole intervals between `last_payment_at` and `curr_block`.
    fn to_pay_intervals(payment_interval: PaymentInterval, curr_block: u32, last_payment_at: u32) -> (r: u32)
        ensures
            r == (if curr_block >= last_payment_at {
                ((curr_block - last_payment_at) as nat) / blocks_in(payment_interval)
            } else {
                0
            }),
    {
        if curr_block < last_payment_at {
            return 0;
        }
        let blocks: u32 = match payment_interval {
            PaymentInterval::Week => BLOCKS_PER_WEEK,
            PaymentInterval::Month => BLOCKS_PER_MONTH,
        };
        (curr_block - last_payment_at) / blocks
    }
}


impl Subscriptions {
    /// Registers a subscription for the caller: `intervals_to_pay` intervals of
    /// `payment_interval`, paid for by the value attached to the call. One interval goes
    /// to the owner at once, anything above the declared total back to the caller, and
    /// the rest stays with the engine. Emits `NewSubscription`.
    pub fn add_subscription(
        &mut self,
        ledger: &mut Ledger,
        payment_interval: PaymentInterval,
        intervals_to_pay: u32,
        external_channel_handle: String,
    ) -> (r: Result<(), Error>)
        requires
            old(self).wf(),
            old(ledger).wf(),
        ensures
            final(self).wf(),
            final(ledger).wf(),
            committed(
                register_step(
                    old(self)@,
                    old(ledger).caller,
                    old(ledger).block_number,
                    old(ledger).transferred_value,
                    payment_interval,
                    intervals_to_pay,
                    external_channel_handle,
                ),
                old(self)@,
                final(self)@,
                *old(ledger),
                *final(ledger),
                r,
            ),
    {
        let caller = ledger.caller;
        if self.subscriptions.contains_key(&caller) {
            return Err(Error::AlreadyRegistered(caller));
        }
        if intervals_to_pay == 0 {
            return Err(Error::InvalidIntervalCount(intervals_to_pay));
        }
        let curr_block = ledger.block_number;
        let price_per_interval = self.price_per_interval(&payment_interval);
        proof {
            lemma_price_bound(
                self.price_per_block as int,
                blocks_in(payment_interval) as int,
                intervals_to_pay as int,
            );
        }
        let total = price_per_interval * intervals_to_pay as u128;
        let transferred_value = ledger.transferred_value;
        if transferred_value < total {
            return Err(Error::InsufficientFunds(total));
        }
        let excess = transferred_value - total;
        let payouts = vec![(self.owner, price_per_interval), (caller, excess)];
        assert(payout_view(payouts@) =~= seq![
            (self.owner, interval_price(self.price_per_block, payment_interval)),
            (caller, excess as nat),
        ]);
        if !ledger.pay_out(&payouts) {
            return Err(Error::TransferFailed);
        }
        let handle_bytes = external_channel_handle.as_str().as_bytes_vec();
        let subscription = Subscription {
            payment_interval,
            declared_payment_intervals: intervals_to_pay,
            paid_intervals: 1,
            price_per_interval,
            registered_at: curr_block,
            last_payment_at: curr_block,
            external_channel_handle,
        };
        proof {
            assert(!self@.active.contains(caller));
        }
        self.subscriptions.insert(caller, subscription);
        self.active_subscriptions.push(caller);
        proof {
            let s = self@;
            assert forall|a: AccountId| s.active.contains(a) <==> s.records.dom().contains(a) by {
                if s.active.contains(a) && a != caller {
                    let i = choose|i: int| 0 <= i < s.active.len() && s.active[i] == a;
                    assert(old(self)@.active[i] == a);
                }
                if old(self)@.active.contains(a) {
                    let i = choose|i: int|
                        0 <= i < old(self)@.active.len() && old(self)@.active[i] == a;
                    assert(s.active[i] == a);
                }
                assert(s.active[s.active.len() - 1] == caller);
            }
        }
        ledger.emit_event(
            ContractEvent::NewSubscription(
                NewSubscription { for_account: caller, external_channel_handle: handle_bytes },
            ),
        );
        proof {
            let ev = EventView::Registered(caller, vstd::utf8::encode_utf8(external_channel_handle@));
            assert(event_seq(Some(ev)) =~= seq![ev]);
            let st = register_step(
                old(self)@,
                old(ledger).caller,
                old(ledger).block_number,
                old(ledger).transferred_value,
                payment_interval,
                intervals_to_pay,
                external_channel_handle,
            );
            assert(self@ == st->Ok_0.state);
            assert(payouts_spec(old(ledger).balances@, old(ledger).contract, st->Ok_0.payouts) is Some);
            assert(ledger.event_log() == old(ledger).event_log() + event_seq(st->Ok_0.event));
        }
        Ok(())
    }

    /// Cancels the caller's subscription: the unpaid declared intervals and any value
    /// attached to the call go back to the caller, the record leaves the registry and
    /// `CancelledSubscription` is emitted.
    pub fn cancel_subscription(&mut self, ledger: &mut Ledger) -> (r: Result<(), Error>)
        requires
            old(self).wf(),
            old(ledger).wf(),
        ensures
            final(self).wf(),
            final(ledger).wf(),
            committed(
                cancel_step(old(self)@, old(ledger).caller, old(ledger).transferred_value),
                old(self)@,
                final(self)@,
                *old(ledger),
                *final(ledger),
                r,
            ),
    {
        let caller = ledger.caller;
        let subscription = match self.subscriptions.get(&caller) {
            Some(s) => s,
            None => {
                return Err(Error::NotRegistered(caller));
            },
        };
        assert(record_ok(self@.records[caller]));
        let unpaid = subscription.declared_payment_intervals - subscription.paid_intervals;
        proof {
            lemma_mul_le(
                subscription.price_per_interval as int,
                unpaid as int,
                subscription.declared_payment_intervals as int,
            );
        }
        let owed = subscription.price_per_interval * unpaid as u128;
        let transferred_value = ledger.transferred_value;
        if owed > u128::MAX - transferred_value {
            proof {
                let back = refund(self@.records[caller], transferred_value);
                let p = seq![(caller, back)];
                assert(p.drop_last() =~= Seq::<(AccountId, nat)>::empty());
                assert(payouts_spec(ledger.balances@, ledger.contract, p) is None);
            }
            return Err(Error::TransferFailed);
        }
        let to_return = owed + transferred_value;
        let mut payouts: Vec<(AccountId, u128)> = Vec::new();
        if to_return > 0 {
            payouts.push((caller, to_return));
        }
        assert(payout_view(payouts@) =~= (if refund(self@.records[caller], transferred_value) > 0 {
            seq![(caller, refund(self@.records[caller], transferred_value))]
        } else {
            Seq::empty()
        }));
        if !ledger.pay_out(&payouts) {
            return Err(Error::TransferFailed);
        }
        self.subscriptions.remove(&caller);
        self.active_subscriptions = remove_account(&self.active_subscriptions, caller);
        proof {
            lemma_without(old(self)@.active, caller);
            let s0 = old(self)@;
            let s1 = self@;
            assert forall|a: AccountId| s1.active.contains(a) <==> s1.records.dom().contains(a) by {
                assert(s0.active.contains(a) <==> s0.records.dom().contains(a));
            }
            assert(state_inv(s1));
        }
        ledger.emit_event(
            ContractEvent::CancelledSubscription(CancelledSubscription { for_account: caller }),
        );
        proof {
            assert(event_seq(Some(EventView::Cancelled(caller))) =~= seq![EventView::Cancelled(caller)]);
            let st = cancel_step(old(self)@, old(ledger).caller, old(ledger).transferred_value);
            assert(self@.records == st->Ok_0.state.records);
            assert(self@.active == st->Ok_0.state.active);
            assert(self@ == st->Ok_0.state);
            assert(payouts_spec(old(ledger).balances@, old(ledger).contract, st->Ok_0.payouts) is Some);
            assert(ledger.event_log() == old(ledger).event_log() + event_seq(st->Ok_0.event));
        }
        Ok(())
    }
}


impl Subscriptions {
    /// Settles every active subscription at the current height; only the owner may
    /// call. Each subscription is charged for the whole intervals elapsed since its last
    /// payment, never beyond what it declared; those that have then paid all they
    /// declared are retired together, and one `CancelledSubscriptions` event lists them.
    pub fn payment_settlement(&mut self, ledger: &mut Ledger) -> (r: Result<(), Error>)
        requires
            old(self).wf(),
            old(ledger).wf(),
        ensures
            final(self).wf(),
            final(ledger).wf(),
            committed(
                settle_step(old(self)@, old(ledger).caller, old(ledger).block_number),
                old(self)@,
                final(self)@,
                *old(ledger),
                *final(ledger),
                r,
            ),
    {
        let caller = ledger.caller;
        if let Err(e) = self.authorized(&caller) {
            return Err(e);
        }
        let curr_block = ledger.block_number;
        let ghost m0 = self@.records;
        let ghost act = self@.active;
        let mut payouts: Vec<(AccountId, u128)> = Vec::new();
        let mut changes: Vec<(AccountId, Option<Subscription>)> = Vec::new();
        let mut kept: Vec<AccountId> = Vec::new();
        let mut retired: Vec<AccountId> = Vec::new();
        let mut i: usize = 0;
        while i < self.active_subscriptions.len()
            invariant
                self.wf(),
                m0 == self@.records,
                act == self@.active,
                i <= act.len(),
                payout_view(payouts@) == settle_payouts(
                    m0,
                    act.subrange(0, i as int),
                    self@.owner,
                    curr_block,
                ),
                apply_changes(m0, changes@) == settle_records(m0, act.subrange(0, i as int), curr_block),
                kept@ == settle_kept(m0, act.subrange(0, i as int), curr_block),
                retired@ == settle_retired(m0, act.subrange(0, i as int), curr_block),
            decreases act.len() - i,
        {
            let acct_id = self.active_subscriptions[i];
            let ghost c0 = changes@;
            proof {
                assert(act.contains(acct_id)) by {
                    assert(act[i as int] == acct_id);
                }
                assert(record_ok(m0[acct_id]));
                assert(act.subrange(0, i + 1).drop_last() =~= act.subrange(0, i as int));
                assert(act.subrange(0, i + 1).last() == acct_id);
            }
            let s = match self.subscriptions.get(&acct_id) {
                Some(s) => s,
                None => {
                    return Err(Error::InconsistentState(acct_id));
                },
            };
            let to_pay_intervals = Self::to_pay_intervals(
                s.payment_interval,
                curr_block,
                s.last_payment_at,
            );
            if to_pay_intervals == 0 {
                kept.push(acct_id);
            } else {
                let due = s.declared_payment_intervals - s.paid_intervals;
                let charge = if to_pay_intervals <= due {
                    to_pay_intervals
                } else {
                    due
                };
                proof {
                    lemma_mul_le(
                        s.price_per_interval as int,
                        charge as int,
                        s.declared_payment_intervals as int,
                    );
                }
                let to_pay = s.price_per_interval * charge as u128;
                payouts.push((self.owner, to_pay));
                let paid_intervals = s.paid_intervals + charge;
                if paid_intervals == s.declared_payment_intervals {
                    retired.push(acct_id);
                    changes.push((acct_id, None));
                } else {
                    kept.push(acct_id);
                    let updated = Subscription {
                        payment_interval: s.payment_interval,
                        declared_payment_intervals: s.declared_payment_intervals,
                        paid_intervals,
                        price_per_interval: s.price_per_interval,
                        registered_at: s.registered_at,
                        last_payment_at: curr_block,
                        external_channel_handle: s.external_channel_handle.clone(),
                    };
                    assert(updated == settled(m0[acct_id], curr_block));
                    changes.push((acct_id, Some(updated)));
                }
                assert(payout_view(payouts@) =~= settle_payouts(
                    m0,
                    act.subrange(0, i + 1),
                    self@.owner,
                    curr_block,
                ));
            }
            proof {
                if changes@.len() > c0.len() {
                    assert(changes@.drop_last() =~= c0);
                }
            }
            i = i + 1;
        }
        proof {
            assert(act.subrange(0, i as int) =~= act);
        }
        if !ledger.pay_out(&payouts) {
            return Err(Error::TransferFailed);
        }
        let mut j: usize = 0;
        while j < changes.len()
            invariant
                self.subscriptions.wf(),
                j <= changes@.len(),
                self.subscriptions@ == apply_changes(m0, changes@.subrange(0, j as int)),
                self.owner == old(self).owner,
                self.price_per_block == old(self).price_per_block,
                self.active_subscriptions == old(self).active_subscriptions,
            decreases changes@.len() - j,
        {
            assert(changes@.subrange(0, j + 1).drop_last() =~= changes@.subrange(0, j as int));
            let (acct_id, change) = &changes[j];
            match change {
                Some(s) => {
                    self.subscriptions.insert(*acct_id, s.copy());
                },
                None => {
                    self.subscriptions.remove(acct_id);
                },
            }
            j = j + 1;
        }
        proof {
            assert(changes@.subrange(0, j as int) =~= changes@);
        }
        self.active_subscriptions = kept;
        proof {
            lemma_settle_keeps_inv(old(self)@, curr_block);
        }
        let ghost retired_view = retired@;
        if retired.len() > 0 {
            ledger.emit_event(
                ContractEvent::CancelledSubscriptions(
                    CancelledSubscriptions { for_accounts: retired },
                ),
            );
            assert(event_seq(Some(EventView::CancelledBatch(retired_view))) =~= seq![
                EventView::CancelledBatch(retired_view),
            ]);
        } else {
            assert(ledger.event_log() =~= old(ledger).event_log() + event_seq(None));
        }
        proof {
            let st = settle_step(old(self)@, old(ledger).caller, old(ledger).block_number);
            assert(self@ == st->Ok_0.state);
            assert(payouts_spec(old(ledger).balances@, old(ledger).contract, st->Ok_0.payouts) is Some);
            assert(ledger.event_log() == old(ledger).event_log() + event_seq(st->Ok_0.event));
        }
        Ok(())
    }
}


impl Subscriptions {
    /// The active subscriptions, in the order of the active set, each with its channel
    /// handle as UTF-8 bytes.
    pub fn get_active_subscriptions(&self) -> (r: Result<Vec<ActiveSubscriptionAttr>, Error>)
        requires
            self.wf(),
        ensures
            r is Ok,
            r matches Ok(v) ==> {
                &&& v@.len() == self@.active.len()
                &&& forall|i: int|
                    0 <= i < v@.len() ==> {
                        &&& (#[trigger] v@[i]).for_account == self@.active[i]
                        &&& v@[i].external_channel_handle@ == vstd::utf8::encode_utf8(
                            self@.records[self@.active[i]].external_channel_handle@,
                        )
                    }
            },
    {
        let mut subs: Vec<ActiveSubscriptionAttr> = Vec::new();
        let mut i: usize = 0;
        while i < self.active_subscriptions.len()
            invariant
                self.wf(),
                i <= self@.active.len(),
                subs@.len() == i,
                forall|k: int|
                    0 <= k < i ==> {
                        &&& (#[trigger] subs@[k]).for_account == self@.active[k]
                        &&& subs@[k].external_channel_handle@ == vstd::utf8::encode_utf8(
                            self@.records[self@.active[k]].external_channel_handle@,
                        )
                    },
            decreases self@.active.len() - i,
        {
            let acct_id = self.active_subscriptions[i];
            proof {
                assert(self@.active.contains(acct_id)) by {
                    assert(self@.active[i as int] == acct_id);
                }
            }
            let sub = match self.subscriptions.get(&acct_id) {
                Some(s) => s,
                None => {
                    return Err(Error::InconsistentState(acct_id));
                },
            };
            subs.push(
                ActiveSubscriptionAttr {
                    for_account: acct_id,
                    external_channel_handle: sub.external_channel_handle.as_str().as_bytes_vec(),
                },
            );
            i = i + 1;
        }
        Ok(subs)
    }

    /// Hands the registry to `new_owner`; only the owner may call, and only with
    /// another account.
    pub fn transfer_ownership(&mut self, ledger: &Ledger, new_owner: AccountId) -> (r: Result<
        (),
        Error,
    >)
        requires
            old(self).wf(),
        ensures
            final(self).wf(),
            match transfer_ownership_step(old(self)@, ledger.caller, new_owner) {
                Err(e) => r == Err::<(), Error>(e) && final(self)@ == old(self)@,
                Ok(st) => r is Ok && final(self)@ == st.state,
            },
    {
        let caller = ledger.caller;
        if let Err(e) = self.authorized(&caller) {
            return Err(e);
        }
        if new_owner == self.owner {
            return Err(Error::NoOpRejected);
        }
        self.owner = new_owner;
        Ok(())
    }

    /// Replaces the code that the engine's account runs; only the owner may call.
    pub fn set_code(&mut self, ledger: &mut Ledger, code_hash: [u8; 32]) -> (r: Result<(), Error>)
        ensures
            r is Ok <==> old(ledger).caller == old(self)@.owner,
            r is Err ==> r == Err::<(), Error>(Error::NotAuthorized) && *final(ledger) == *old(
                ledger,
            ),
            r is Ok ==> *final(ledger) == (Ledger { code_hash, ..*old(ledger) }),
            *final(self) == *old(self),
    {
        let caller = ledger.caller;
        if let Err(e) = self.authorized(&caller) {
            return Err(e);
        }
        ledger.set_code_hash(code_hash);
        Ok(())
    }
}

} // verus!
