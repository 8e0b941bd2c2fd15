use vstd::prelude::*;

use crate::account::AccountId;
use crate::account_map::AccountMap;
use crate::billing::{ContractEvent, EventView, Payouts};

verus! {

/// The balance of `a`; an account without an entry holds nothing.
pub open spec fn balance_in(b: Map<AccountId, u128>, a: AccountId) -> nat {
    if b.dom().contains(a) {
        b[a] as nat
    } else {
        0
    }
}

/// Balances after moving `amount` from `from` to `to`, or `None` where `from` holds
/// less or `to` would exceed the largest balance.
pub open spec fn transfer_spec(
    b: Map<AccountId, u128>,
    from: AccountId,
    to: AccountId,
    amount: nat,
) -> Option<Map<AccountId, u128>> {
    if amount > balance_in(b, from) {
        None
    } else if from == to {
        Some(b)
    } else if balance_in(b, to) + amount > u128::MAX {
        None
    } else {
        Some(
            b.insert(from, (balance_in(b, from) - amount) as u128).insert(
                to,
                (balance_in(b, to) + amount) as u128,
            ),
        )
    }
}

/// Balances after paying out `p` from `from` in order, or `None` where one payout fails.
pub open spec fn payouts_spec(b: Map<AccountId, u128>, from: AccountId, p: Payouts) -> Option<
    Map<AccountId, u128>,
>
    decreases p.len(),
{
    if p.len() == 0 {
        Some(b)
    } else {
        match payouts_spec(b, from, p.drop_last()) {
            None => None,
            Some(b1) => transfer_spec(b1, from, p.last().0, p.last().1),
        }
    }
}

/// A list of payouts as amounts.
pub open spec fn payout_view(v: Seq<(AccountId, u128)>) -> Payouts {
    Seq::new(v.len(), |i: int| (v[i].0, v[i].1 as nat))
}

proof fn lemma_payouts_fail_prefix(b: Map<AccountId, u128>, from: AccountId, p: Payouts, i: int)
    requires
        0 <= i <= p.len(),
        payouts_spec(b, from, p.subrange(0, i)) is None,
    ensures
        payouts_spec(b, from, p) is None,
    decreases p.len(),
{
    if i < p.len() {
        assert(p.drop_last().subrange(0, i) =~= p.subrange(0, i));
        lemma_payouts_fail_prefix(b, from, p.drop_last(), i);
    } else {
        assert(p.subrange(0, i) =~= p);
    }
}

/// Moves `amount` between two accounts of `b`; on failure `b` is left as it was.
fn move_value(b: &mut AccountMap<u128>, from: AccountId, to: AccountId, amount: u128) -> (r: bool)
    requires
        old(b).wf(),
    ensures
        final(b).wf(),
        r == transfer_spec(old(b)@, from, to, amount as nat) is Some,
        r ==> final(b)@ == transfer_spec(old(b)@, from, to, amount as nat)->Some_0,
        !r ==> *final(b) == *old(b),
{
    let from_balance: u128 = match b.get(&from) {
        Some(v) => *v,
        None => 0,
    };
    if amount > from_balance {
        return false;
    }
    if from == to {
        return true;
    }
    let to_balance: u128 = match b.get(&to) {
        Some(v) => *v,
        None => 0,
    };
    if to_balance > u128::MAX - amount {
        return false;
    }
    b.insert(from, from_balance - amount);
    b.insert(to, to_balance + amount);
    true
}

/// The ledger that hosts the engine: account balances, the current call (caller, value
/// attached, height) and the events emitted so far.
pub struct Ledger {
    /// The engine's own account, from which it pays out.
    pub contract: AccountId,
    /// The account that makes the current call.
    pub caller: AccountId,
    /// The current height.
    pub block_number: u32,
    /// The value attached to the current call, already credited to `contract`.
    pub transferred_value: u128,
    /// The hash of the code that the engine's account runs.
    pub code_hash: [u8; 32],
    pub balances: AccountMap<u128>,
    pub events: Vec<ContractEvent>,
}

impl Ledger {
    pub open spec fn wf(&self) -> bool {
        self.balances.wf()
    }

    /// The events emitted so far, in order.
    pub open spec fn event_log(&self) -> Seq<EventView> {
        Seq::new(self.events@.len(), |i: int| self.events@[i]@)
    }

    /// All but the balances and the events are as in `other`.
    pub open spec fn same_call(&self, other: &Ledger) -> bool {
        &&& self.contract == other.contract
        &&& self.caller == other.caller
        &&& self.block_number == other.block_number
        &&& self.transferred_value == other.transferred_value
        &&& self.code_hash == other.code_hash
    }

    /// A ledger at height zero where `contract` hosts the engine and `caller` calls it;
    /// no account holds anything yet.
    pub fn new(contract: AccountId, caller: AccountId) -> (r: Ledger)
        ensures
            r.wf(),
            r.contract == contract,
            r.caller == caller,
            r.block_number == 0,
            r.transferred_value == 0,
            r.balances@ == Map::<AccountId, u128>::empty(),
            r.event_log() == Seq::<EventView>::empty(),
    {
        let r = Ledger {
            contract,
            caller,
            block_number: 0,
            transferred_value: 0,
            code_hash: [0u8; 32],
            balances: AccountMap::new(),
            events: Vec::new(),
        };
        assert(r.event_log() =~= Seq::<EventView>::empty());
        r
    }

    /// Makes `caller` the account of the next call, with no value attached.
    pub fn set_caller(&mut self, caller: AccountId)
        ensures
            *final(self) == (Ledger { caller, transferred_value: 0, ..*old(self) }),
    {
        self.caller = caller;
        self.transferred_value = 0;
    }

    pub fn set_account_balance(&mut self, a: AccountId, amount: u128)
        requires
            old(self).wf(),
        ensures
            final(self).wf(),
            final(self).same_call(old(self)),
            final(self).balances@ == old(self).balances@.insert(a, amount),
            final(self).events == old(self).events,
    {
        self.balances.insert(a, amount);
    }

    pub fn get_account_balance(&self, a: AccountId) -> (r: u128)
        requires
            self.wf(),
        ensures
            r == balance_in(self.balances@, a),
    {
        match self.balances.get(&a) {
            Some(v) => *v,
            None => 0,
        }
    }

    /// Moves to the next height.
    pub fn advance_block(&mut self)
        requires
            old(self).block_number < u32::MAX,
        ensures
            *final(self) == (Ledger { block_number: (old(self).block_number + 1) as u32, ..*old(self) }),
    {
        self.block_number = self.block_number + 1;
    }

    /// Attaches `value` to the current call: it moves from the caller to the engine's
    /// account. Fails, changing nothing, where the caller cannot pay it.
    pub fn transfer_in(&mut self, value: u128) -> (r: bool)
        requires
            old(self).wf(),
        ensures
            final(self).wf(),
            r == transfer_spec(old(self).balances@, old(self).caller, old(self).contract, value as nat) is Some,
            r ==> final(self).balances@ == transfer_spec(
                old(self).balances@,
                old(self).caller,
                old(self).contract,
                value as nat,
            )->Some_0,
            r ==> final(self).transferred_value == value,
            !r ==> *final(self) == *old(self),
            final(self).contract == old(self).contract,
            final(self).caller == old(self).caller,
            final(self).block_number == old(self).block_number,
            final(self).code_hash == old(self).code_hash,
            final(self).events == old(self).events,
    {
        let ok = move_value(&mut self.balances, self.caller, self.contract, value);
        if ok {
            self.transferred_value = value;
        }
        ok
    }

    /// Pays `payouts` out of the engine's account, in order: all of them, or, where one
    /// fails, none.
    pub fn pay_out(&mut self, payouts: &Vec<(AccountId, u128)>) -> (r: bool)
        requires
            old(self).wf(),
        ensures
            final(self).wf(),
            r == payouts_spec(old(self).balances@, old(self).contract, payout_view(payouts@)) is Some,
            r ==> final(self).balances@ == payouts_spec(
                old(self).balances@,
                old(self).contract,
                payout_view(payouts@),
            )->Some_0,
            r ==> final(self).same_call(old(self)) && final(self).events == old(self).events,
            !r ==> *final(self) == *old(self),
    {
        let ghost p = payout_view(payouts@);
        let mut scratch = self.balances.duplicate();
        let mut i: usize = 0;
        while i < payouts.len()
            invariant
                self.wf(),
                scratch.wf(),
                i <= payouts@.len(),
                p == payout_view(payouts@),
                payouts_spec(self.balances@, self.contract, p.subrange(0, i as int)) == Some(
                    scratch@,
                ),
            decreases payouts@.len() - i,
        {
            let (to, amount) = payouts[i];
            assert(p.subrange(0, i + 1).drop_last() =~= p.subrange(0, i as int));
            if !move_value(&mut scratch, self.contract, to, amount) {
                proof {
                    lemma_payouts_fail_prefix(self.balances@, self.contract, p, i + 1);
                }
                return false;
            }
            i = i + 1;
        }
        assert(p.subrange(0, i as int) =~= p);
        self.balances = scratch;
        true
    }

    /// Records an emitted event.
    pub fn emit_event(&mut self, e: ContractEvent)
        ensures
            final(self).same_call(old(self)),
            final(self).balances == old(self).balances,
            final(self).events@ == old(self).events@.push(e),
            final(self).event_log() == old(self).event_log().push(e@),
    {
        self.events.push(e);
        assert(self.event_log() =~= old(self).event_log().push(e@));
    }

    /// Replaces the code that the engine's account runs.
    pub fn set_code_hash(&mut self, code_hash: [u8; 32])
        ensures
            *final(self) == (Ledger { code_hash, ..*old(self) }),
    {
        self.code_hash = code_hash;
    }

    /// The events emitted so far.
    pub fn recorded_events(&self) -> (r: &Vec<ContractEvent>)
        ensures
            r == &self.events,
    {
        &self.events
    }
}

} // verus!
