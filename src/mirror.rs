use vstd::prelude::*;
use vstd::string::StrSliceExecFns;

use crate::account::AccountId;
use crate::account_map::AccountMap;

verus! {

/// A subscriber as the notification side knows it.
#[derive(Debug, Clone, PartialEq, Eq)]
pub struct Subscription {
    /// The subscriber; ledger activity of this account results in notifications.
    pub for_account: AccountId,
    /// Where the subscriber's notifications go, e.g. `chat_id:42`.
    pub channel_handle: String,
}

/// Why an entry of the registry's list of active subscriptions could not be read.
#[derive(Debug, Clone, Copy, PartialEq, Eq, Structural)]
pub enum DecodeError {
    /// The entry is not an `ActiveSubscriptionAttr`.
    NotAnAttr,
    /// The entry's `for_account` is missing or not an account.
    MissingAccount,
    /// The entry's `external_channel_handle` is missing or not a string.
    MissingHandle,
}

impl Subscription {
    /// The subscription that an entry of the registry's list describes, from the entry's
    /// type name and its decoded fields.
    pub fn from_attr(
        ident: Option<&str>,
        for_account: Option<AccountId>,
        channel_handle: Option<String>,
    ) -> (r: Result<Subscription, DecodeError>)
        ensures
            !(ident matches Some(n) && n@ == "ActiveSubscriptionAttr"@) ==> r == Err::<
                Subscription,
                DecodeError,
            >(DecodeError::NotAnAttr),
            (ident matches Some(n) && n@ == "ActiveSubscriptionAttr"@) ==> r == match (
                for_account,
                channel_handle,
            ) {
                (None, _) => Err(DecodeError::MissingAccount),
                (Some(_), None) => Err(DecodeError::MissingHandle),
                (Some(a), Some(h)) => Ok(Subscription { for_account: a, channel_handle: h }),
            },
    {
        let is_attr = match ident {
            Some(n) => same_text(n, "ActiveSubscriptionAttr"),
            None => false,
        };
        if !is_attr {
            return Err(DecodeError::NotAnAttr);
        }
        match (for_account, channel_handle) {
            (None, _) => Err(DecodeError::MissingAccount),
            (Some(_), None) => Err(DecodeError::MissingHandle),
            (Some(a), Some(h)) => Ok(Subscription { for_account: a, channel_handle: h }),
        }
    }
}

/// A lifecycle event of the registry as decoded from a finalized block; a field that
/// could not be decoded is `None`.
#[derive(Debug)]
pub enum LifecycleEvent {
    Registered { for_account: Option<AccountId>, channel_handle: Option<String> },
    Cancelled { for_account: Option<AccountId> },
    CancelledBatch { for_accounts: Option<Vec<AccountId>> },
    /// An event of another name.
    Unknown,
    /// An event without a name.
    Unnamed,
    /// An event that could not be decoded at all.
    Undecodable,
}

/// What applying one event did, for the operator's log.
#[derive(Debug, Clone, Copy, PartialEq, Eq)]
pub enum EventOutcome {
    Subscribed(AccountId),
    Unsubscribed(AccountId),
    UnsubscribedMany(usize),
    /// A lifecycle event with a field that did not decode; nothing changed.
    MissingField,
    /// An event of another or of no name; nothing changed.
    Ignored,
    /// An event that could not be decoded; nothing changed.
    Undecodable,
}

/// How an ingestion loop ends.
#[derive(Debug, Clone, Copy, PartialEq, Eq, Structural)]
pub enum LoopEnd {
    /// The termination flag was set.
    Terminated,
    /// The stream of finalized blocks ended.
    NoMoreBlocks,
}

/// What a loop that tails finalized blocks does with the next item of its stream.
#[derive(Debug, Clone, Copy, PartialEq, Eq, Structural)]
pub enum BlockAction {
    Stop(LoopEnd),
    /// Skip this block: its events could not be read; the next block may be.
    Skip,
    Process,
}

/// The next item of a stream of finalized blocks.
#[derive(Debug)]
pub enum BlockItem {
    /// The stream ended or broke.
    Closed,
    /// A block whose events could not be fetched.
    EventsUnavailable,
    /// A block and its decoded lifecycle events, in order.
    Events(Vec<LifecycleEvent>),
}

/// The decision at the top of each iteration: stop where the stream ended or where
/// termination was asked for, skip a block whose events are unavailable, else process.
pub fn block_action(closed: bool, terminate: bool, events_available: bool) -> (r: BlockAction)
    ensures
        r == if closed {
            BlockAction::Stop(LoopEnd::NoMoreBlocks)
        } else if terminate {
            BlockAction::Stop(LoopEnd::Terminated)
        } else if !events_available {
            BlockAction::Skip
        } else {
            BlockAction::Process
        },
{
    if closed {
        BlockAction::Stop(LoopEnd::NoMoreBlocks)
    } else if terminate {
        BlockAction::Stop(LoopEnd::Terminated)
    } else if !events_available {
        BlockAction::Skip
    } else {
        BlockAction::Process
    }
}

/// `a` and `b` hold the same characters.
pub fn same_text(a: &str, b: &str) -> (r: bool)
    ensures
        r == (a@ == b@),
{
    let n = a.unicode_len();
    if n != b.unicode_len() {
        return false;
    }
    let mut i: usize = 0;
    while i < n
        invariant
            n == a@.len() == b@.len(),
            i <= n,
            forall|j: int| 0 <= j < i ==> a@[j] == b@[j],
        decreases n - i,
    {
        if a.get_char(i) != b.get_char(i) {
            return false;
        }
        i = i + 1;
    }
    assert(a@ =~= b@);
    true
}

/// The event that an event name and its decoded fields make.
pub open spec fn classify_spec(
    name: Option<Seq<char>>,
    for_account: Option<AccountId>,
    channel_handle: Option<String>,
    for_accounts: Option<Vec<AccountId>>,
) -> LifecycleEvent {
    match name {
        None => LifecycleEvent::Unnamed,
        Some(n) => if n == "NewSubscription"@ {
            LifecycleEvent::Registered { for_account, channel_handle }
        } else if n == "CancelledSubscription"@ {
            LifecycleEvent::Cancelled { for_account }
        } else if n == "CancelledSubscriptions"@ {
            LifecycleEvent::CancelledBatch { for_accounts }
        } else {
            LifecycleEvent::Unknown
        },
    }
}

impl LifecycleEvent {
    /// Tells the lifecycle events apart by name: `NewSubscription`,
    /// `CancelledSubscription` and `CancelledSubscriptions`; every other name is
    /// `Unknown`. Only the fields of the recognized event are kept.
    pub fn classify(
        name: Option<&str>,
        for_account: Option<AccountId>,
        channel_handle: Option<String>,
        for_accounts: Option<Vec<AccountId>>,
    ) -> (r: LifecycleEvent)
        ensures
            r == classify_spec(
                match name {
                    Some(n) => Some(n@),
                    None => None,
                },
                for_account,
                channel_handle,
                for_accounts,
            ),
    {
        match name {
            None => LifecycleEvent::Unnamed,
            Some(n) => {
                if same_text(n, "NewSubscription") {
                    LifecycleEvent::Registered { for_account, channel_handle }
                } else if same_text(n, "CancelledSubscription") {
                    LifecycleEvent::Cancelled { for_account }
                } else if same_text(n, "CancelledSubscriptions") {
                    LifecycleEvent::CancelledBatch { for_accounts }
                } else {
                    LifecycleEvent::Unknown
                }
            },
        }
    }
}

/// The map without the accounts of `v`.
pub open spec fn remove_all(m: Map<AccountId, Seq<char>>, v: Seq<AccountId>) -> Map<
    AccountId,
    Seq<char>,
>
    decreases v.len(),
{
    if v.len() == 0 {
        m
    } else {
        remove_all(m, v.drop_last()).remove(v.last())
    }
}

/// The mirror after one event: a registration with both fields decoded sets the
/// account's handle, a cancellation removes the account, a batch removes each account;
/// anything else, and any event with a field that did not decode, changes nothing.
pub open spec fn apply_event_spec(m: Map<AccountId, Seq<char>>, e: LifecycleEvent) -> Map<
    AccountId,
    Seq<char>,
> {
    match e {
        LifecycleEvent::Registered { for_account: Some(a), channel_handle: Some(h) } => m.insert(
            a,
            h@,
        ),
        LifecycleEvent::Cancelled { for_account: Some(a) } => m.remove(a),
        LifecycleEvent::CancelledBatch { for_accounts: Some(v) } => remove_all(m, v@),
        _ => m,
    }
}

/// The mirror after the events of `es`, in order.
pub open spec fn apply_events_spec(m: Map<AccountId, Seq<char>>, es: Seq<LifecycleEvent>) -> Map<
    AccountId,
    Seq<char>,
>
    decreases es.len(),
{
    if es.len() == 0 {
        m
    } else {
        apply_event_spec(apply_events_spec(m, es.drop_last()), es.last())
    }
}

/// What applying `e` reports.
pub open spec fn outcome_spec(e: LifecycleEvent) -> EventOutcome {
    match e {
        LifecycleEvent::Registered { for_account: Some(a), channel_handle: Some(_) } =>
            EventOutcome::Subscribed(a),
        LifecycleEvent::Cancelled { for_account: Some(a) } => EventOutcome::Unsubscribed(a),
        LifecycleEvent::CancelledBatch { for_accounts: Some(v) } => EventOutcome::UnsubscribedMany(
            v@.len() as usize,
        ),
        LifecycleEvent::Registered { .. } => EventOutcome::MissingField,
        LifecycleEvent::Cancelled { .. } => EventOutcome::MissingField,
        LifecycleEvent::CancelledBatch { .. } => EventOutcome::MissingField,
        LifecycleEvent::Undecodable => EventOutcome::Undecodable,
        _ => EventOutcome::Ignored,
    }
}

/// The off-ledger copy of the active subscriptions: for each subscribed account, where
/// to notify it.
pub struct ActiveSubscriptions {
    subscriptions: AccountMap<Subscription>,
}

impl View for ActiveSubscriptions {
    type V = Map<AccountId, Seq<char>>;

    closed spec fn view(&self) -> Map<AccountId, Seq<char>> {
        Map::new(
            |a: AccountId| self.subscriptions@.dom().contains(a),
            |a: AccountId| self.subscriptions@[a].channel_handle@,
        )
    }
}

impl ActiveSubscriptions {
    pub closed spec fn wf(&self) -> bool {
        &&& self.subscriptions.wf()
        &&& forall|a: AccountId| #[trigger]
            self.subscriptions@.dom().contains(a) ==> self.subscriptions@[a].for_account == a
    }

    pub fn new() -> (r: Self)
        ensures
            r.wf(),
            r@ == Map::<AccountId, Seq<char>>::empty(),
    {
        let r = ActiveSubscriptions { subscriptions: AccountMap::new() };
        assert(r@ =~= Map::<AccountId, Seq<char>>::empty());
        r
    }

    /// Adds `s`, replacing any earlier subscription of the same account.
    pub fn insert(&mut self, s: Subscription)
        requires
            old(self).wf(),
        ensures
            final(self).wf(),
            final(self)@ == old(self)@.insert(s.for_account, s.channel_handle@),
    {
        let ghost key = s.for_account;
        let ghost h = s.channel_handle@;
        self.subscriptions.insert(s.for_account, s);
        assert(self@ =~= old(self)@.insert(key, h));
    }

    pub fn remove(&mut self, a: &AccountId)
        requires
            old(self).wf(),
        ensures
            final(self).wf(),
            final(self)@ == old(self)@.remove(*a),
    {
        self.subscriptions.remove(a);
        assert(self@ =~= old(self)@.remove(*a));
    }

    pub fn contains_key(&self, a: &AccountId) -> (r: bool)
        requires
            self.wf(),
        ensures
            r == self@.dom().contains(*a),
    {
        self.subscriptions.contains_key(a)
    }

    /// Where to notify `a`, if `a` is subscribed.
    pub fn channel_handle(&self, a: &AccountId) -> (r: Option<String>)
        requires
            self.wf(),
        ensures
            r is None <==> !self@.dom().contains(*a),
            r matches Some(h) ==> h@ == self@[*a],
    {
        match self.subscriptions.get(a) {
            Some(s) => Some(s.channel_handle.clone()),
            None => None,
        }
    }

    pub fn len(&self) -> (r: usize)
        requires
            self.wf(),
        ensures
            r == self@.len(),
    {
        let n = self.subscriptions.len();
        assert(self@.dom() =~= self.subscriptions@.dom());
        n
    }

    fn remove_each(&mut self, accounts: &Vec<AccountId>)
        requires
            old(self).wf(),
        ensures
            final(self).wf(),
            final(self)@ == remove_all(old(self)@, accounts@),
    {
        let mut i: usize = 0;
        while i < accounts.len()
            invariant
                self.wf(),
                i <= accounts@.len(),
                self@ == remove_all(old(self)@, accounts@.subrange(0, i as int)),
            decreases accounts@.len() - i,
        {
            assert(accounts@.subrange(0, i + 1).drop_last() =~= accounts@.subrange(0, i as int));
            self.remove(&accounts[i]);
            i = i + 1;
        }
        assert(accounts@.subrange(0, i as int) =~= accounts@);
    }

    /// Applies one lifecycle event. A field that did not decode skips this event only.
    pub fn apply_event(&mut self, e: &LifecycleEvent) -> (r: EventOutcome)
        requires
            old(self).wf(),
        ensures
            final(self).wf(),
            final(self)@ == apply_event_spec(old(self)@, *e),
            r == outcome_spec(*e),
    {
        match e {
            LifecycleEvent::Registered { for_account: Some(a), channel_handle: Some(h) } => {
                self.insert(Subscription { for_account: *a, channel_handle: h.clone() });
                EventOutcome::Subscribed(*a)
            },
            LifecycleEvent::Cancelled { for_account: Some(a) } => {
                self.remove(a);
                EventOutcome::Unsubscribed(*a)
            },
            LifecycleEvent::CancelledBatch { for_accounts: Some(v) } => {
                self.remove_each(v);
                EventOutcome::UnsubscribedMany(v.len())
            },
            LifecycleEvent::Registered { .. } => EventOutcome::MissingField,
            LifecycleEvent::Cancelled { .. } => EventOutcome::MissingField,
            LifecycleEvent::CancelledBatch { .. } => EventOutcome::MissingField,
            LifecycleEvent::Undecodable => EventOutcome::Undecodable,
            _ => EventOutcome::Ignored,
        }
    }

    /// Applies the events of one block in order; one event that fails to decode does
    /// not keep the later ones from being applied.
    pub fn apply_events(&mut self, events: &Vec<LifecycleEvent>) -> (r: Vec<EventOutcome>)
        requires
            old(self).wf(),
        ensures
            final(self).wf(),
            final(self)@ == apply_events_spec(old(self)@, events@),
            r@.len() == events@.len(),
            forall|i: int| 0 <= i < events@.len() ==> r@[i] == outcome_spec(#[trigger] events@[i]),
    {
        let mut outcomes: Vec<EventOutcome> = Vec::new();
        let mut i: usize = 0;
        while i < events.len()
            invariant
                self.wf(),
                i <= events@.len(),
                self@ == apply_events_spec(old(self)@, events@.subrange(0, i as int)),
                outcomes@.len() == i,
                forall|j: int| 0 <= j < i ==> outcomes@[j] == outcome_spec(#[trigger] events@[j]),
            decreases events@.len() - i,
        {
            assert(events@.subrange(0, i + 1).drop_last() =~= events@.subrange(0, i as int));
            let o = self.apply_event(&events[i]);
            outcomes.push(o);
            i = i + 1;
        }
        assert(events@.subrange(0, i as int) =~= events@);
        outcomes
    }

    /// One iteration of the ingestion loop: stops where the stream ended or where
    /// termination was asked for, skips a block whose events are unavailable, and
    /// otherwise applies the block's events.
    pub fn ingest(&mut self, item: &BlockItem, terminate: bool) -> (r: Result<
        Vec<EventOutcome>,
        LoopEnd,
    >)
        requires
            old(self).wf(),
        ensures
            final(self).wf(),
            *item is Closed ==> r == Err::<Vec<EventOutcome>, LoopEnd>(LoopEnd::NoMoreBlocks)
                && final(self)@ == old(self)@,
            !(*item is Closed) && terminate ==> r == Err::<Vec<EventOutcome>, LoopEnd>(
                LoopEnd::Terminated,
            ) && final(self)@ == old(self)@,
            !terminate ==> match *item {
                BlockItem::Closed => true,
                BlockItem::EventsUnavailable => {
                    &&& r is Ok
                    &&& r->Ok_0@.len() == 0
                    &&& final(self)@ == old(self)@
                },
                BlockItem::Events(es) => {
                    &&& r is Ok
                    &&& final(self)@ == apply_events_spec(old(self)@, es@)
                    &&& r->Ok_0@.len() == es@.len()
                    &&& forall|i: int|
                        0 <= i < es@.len() ==> r->Ok_0@[i] == outcome_spec(#[trigger] es@[i])
                },
            },
    {
        let closed = match item {
            BlockItem::Closed => true,
            _ => false,
        };
        let events_available = match item {
            BlockItem::EventsUnavailable => false,
            _ => true,
        };
        let action = block_action(closed, terminate, events_available);
        match action {
            BlockAction::Stop(end) => Err(end),
            BlockAction::Skip => Ok(Vec::new()),
            BlockAction::Process => match item {
                BlockItem::Events(es) => Ok(self.apply_events(es)),
                _ => Ok(Vec::new()),
            },
        }
    }
}

} // verus!
