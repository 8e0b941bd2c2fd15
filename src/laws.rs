use vstd::prelude::*;

use crate::account::AccountId;
use crate::billing::{
    cancel_step, elapsed, interval_price, lemma_settle_kept, lemma_settle_records, lemma_without,
    refund, register_step, settle_kept, settle_payouts, settle_records, settle_retired, settle_step,
    state_inv, without, EngineState, PaymentInterval, Step, Subscription,
};
use crate::contract::Subscriptions;
use crate::ledger::{balance_in, payouts_spec};

verus! {

/// Every record of a well-formed registry has paid at least one and at most all of its
/// declared intervals, and an account is in the active set exactly when it has a record.
pub proof fn subscription_invariant(s: &Subscriptions)
    requires
        s.wf(),
    ensures
        forall|a: AccountId| #[trigger]
            s@.records.dom().contains(a) ==> 1 <= s@.records[a].paid_intervals
                <= s@.records[a].declared_payment_intervals,
        forall|a: AccountId| s@.active.contains(a) <==> s@.records.dom().contains(a),
        s@.active.no_duplicates(),
{
    s.lemma_wf();
}

proof fn lemma_settle_nothing_due(m: Map<AccountId, Subscription>, s: Seq<AccountId>, owner: AccountId, now: u32)
    requires
        forall|i: int| 0 <= i < s.len() ==> elapsed(m[#[trigger] s[i]], now) == 0,
    ensures
        settle_records(m, s, now) == m,
        settle_kept(m, s, now) == s,
        settle_retired(m, s, now) == Seq::<AccountId>::empty(),
        settle_payouts(m, s, owner, now) == Seq::<(AccountId, nat)>::empty(),
    decreases s.len(),
{
    if s.len() > 0 {
        let t = s.drop_last();
        assert forall|i: int| 0 <= i < t.len() implies elapsed(m[#[trigger] t[i]], now) == 0 by {
            assert(t[i] == s[i]);
        }
        lemma_settle_nothing_due(m, t, owner, now);
        assert(elapsed(m[s[s.len() - 1]], now) == 0);
        assert(t.push(s.last()) =~= s);
    }
}

/// Settling twice at the same height: the second settlement charges nothing, retires
/// nobody, emits nothing and leaves the registry as the first one left it.
pub proof fn settle_is_idempotent(s: EngineState, caller: AccountId, now: u32)
    requires
        state_inv(s),
        settle_step(s, caller, now) is Ok,
    ensures
        ({
            let first = settle_step(s, caller, now)->Ok_0;
            settle_step(first.state, caller, now) == Ok::<Step, crate::billing::Error>(
                Step { state: first.state, payouts: Seq::empty(), event: None },
            )
        }),
{
    let first = settle_step(s, caller, now)->Ok_0;
    let s1 = first.state;
    lemma_settle_kept(s.records, s.active, now);
    assert forall|y: AccountId| s.active.contains(y) implies s.records.dom().contains(y) by {}
    assert forall|i: int| 0 <= i < s1.active.len() implies elapsed(
        s1.records[#[trigger] s1.active[i]],
        now,
    ) == 0 by {
        let a = s1.active[i];
        assert(s1.active.contains(a));
        assert(s.active.contains(a));
        assert(s.records.dom().contains(a));
        lemma_settle_records(s.records, s.active, now, a);
        let r = s.records[a];
        if elapsed(r, now) > 0 {
            assert(s1.records[a] == crate::billing::settled(r, now));
            assert(s1.records[a].last_payment_at == now);
        }
    }
    lemma_settle_nothing_due(s1.records, s1.active, s1.owner, now);
    assert(s1 == EngineState { records: s1.records, active: s1.active, ..s1 });
}

/// Registering with value `value` attached pays the owner exactly one interval and
/// returns to the caller exactly what exceeds the declared total; the engine's account
/// pays both.
pub proof fn register_conserves_value(
    s: EngineState,
    caller: AccountId,
    now: u32,
    value: u128,
    interval: PaymentInterval,
    intervals: u32,
    handle: String,
    balances: Map<AccountId, u128>,
    contract: AccountId,
)
    requires
        state_inv(s),
        register_step(s, caller, now, value, interval, intervals, handle) is Ok,
        s.owner != caller,
        s.owner != contract,
        caller != contract,
        payouts_spec(
            balances,
            contract,
            register_step(s, caller, now, value, interval, intervals, handle)->Ok_0.payouts,
        ) is Some,
    ensures
        ({
            let price = interval_price(s.price_per_block, interval);
            let after = payouts_spec(
                balances,
                contract,
                register_step(s, caller, now, value, interval, intervals, handle)->Ok_0.payouts,
            )->Some_0;
            &&& balance_in(after, s.owner) == balance_in(balances, s.owner) + price
            &&& balance_in(after, caller) == balance_in(balances, caller) + value - price
                * intervals
            &&& balance_in(after, contract) == balance_in(balances, contract) - price - (value
                - price * intervals)
        }),
{
    let p = register_step(s, caller, now, value, interval, intervals, handle)->Ok_0.payouts;
    assert(p.drop_last().drop_last() =~= Seq::<(AccountId, nat)>::empty());
    assert(p.drop_last() =~= seq![p[0]]);
    reveal_with_fuel(payouts_spec, 3);
    let b1 = payouts_spec(balances, contract, p.drop_last());
    assert(b1 is Some);
}

/// Registering and then cancelling at once, with nothing attached to the cancellation,
/// returns exactly the declared intervals but the first to the caller and leaves the
/// registry as it was.
pub proof fn register_then_cancel_round_trip(
    s: EngineState,
    caller: AccountId,
    now: u32,
    value: u128,
    interval: PaymentInterval,
    intervals: u32,
    handle: String,
)
    requires
        state_inv(s),
        register_step(s, caller, now, value, interval, intervals, handle) is Ok,
    ensures
        ({
            let s1 = register_step(s, caller, now, value, interval, intervals, handle)->Ok_0.state;
            let back = interval_price(s.price_per_block, interval) * (intervals - 1);
            &&& cancel_step(s1, caller, 0) is Ok
            &&& cancel_step(s1, caller, 0)->Ok_0.state == s
            &&& refund(s1.records[caller], 0) == back
            &&& cancel_step(s1, caller, 0)->Ok_0.payouts == if back > 0 {
                seq![(caller, back as nat)]
            } else {
                Seq::<(AccountId, nat)>::empty()
            }
        }),
{
    let s1 = register_step(s, caller, now, value, interval, intervals, handle)->Ok_0.state;
    let price = interval_price(s.price_per_block, interval);
    assert(s1.records[caller].price_per_interval == price) by {
        assert(price * intervals <= value);
        assert(price <= price * intervals) by (nonlinear_arith)
            requires
                intervals >= 1,
                price >= 0,
        ;
    }
    assert(price * (intervals - 1) >= 0) by (nonlinear_arith)
        requires
            intervals >= 1,
            price >= 0,
    ;
    assert(s.active.push(caller).drop_last() =~= s.active);
    assert(without(s.active.push(caller), caller) == without(s.active, caller));
    lemma_without(s.active, caller);
    assert(s1.records.remove(caller) =~= s.records);
    let c = cancel_step(s1, caller, 0)->Ok_0;
    assert(c.state == EngineState { records: s.records, active: s.active, ..s });
}

} // verus!
