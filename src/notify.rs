use vstd::prelude::*;
use vstd::string::{StrSliceExecFns, StringExecFns};

use crate::account::AccountId;
use crate::mirror::ActiveSubscriptions;

verus! {

/// The smallest units in one whole token.
pub const UNITS_PER_TOKEN: u128 = 1000000000000;

/// The character of digit `d` (below sixteen), lower case.
pub open spec fn digit_char(d: nat) -> char {
    seq!['0', '1', '2', '3', '4', '5', '6', '7', '8', '9', 'a', 'b', 'c', 'd', 'e', 'f'][d as int]
}

/// `n` in decimal, without leading zeros.
pub open spec fn decimal(n: nat) -> Seq<char>
    decreases n,
{
    if n < 10 {
        seq![digit_char(n)]
    } else {
        decimal(n / 10).push(digit_char(n % 10))
    }
}

/// The last four decimal digits of `n`, with leading zeros.
pub open spec fn four_digits(n: nat) -> Seq<char> {
    seq![
        digit_char((n / 1000) % 10),
        digit_char((n / 100) % 10),
        digit_char((n / 10) % 10),
        digit_char(n % 10),
    ]
}

/// `a / b` with four decimals, rounded down: whole units, a point, and the first four
/// decimals of the remainder.
pub open spec fn with_4_digits(a: nat, b: nat) -> Seq<char> {
    decimal(a / b) + seq!['.'] + four_digits(((a % b) * 10000) / b)
}

/// Bytes in lower-case hexadecimal, two digits each.
pub open spec fn hex_of(bytes: Seq<u8>) -> Seq<char>
    decreases bytes.len(),
{
    if bytes.len() == 0 {
        Seq::empty()
    } else {
        hex_of(bytes.drop_last()) + seq![
            digit_char(bytes.last() as nat / 16),
            digit_char(bytes.last() as nat % 16),
        ]
    }
}

/// An account as it appears in messages: `0x` and its key in hexadecimal.
pub open spec fn account_text(a: AccountId) -> Seq<char> {
    seq!['0', 'x'] + hex_of(a.0@)
}

/// An amount of smallest units as it appears in messages: tokens with four decimals.
pub open spec fn amount_text(amount: u128) -> Seq<char> {
    with_4_digits(amount as nat, UNITS_PER_TOKEN as nat)
}

fn digit_text(d: u8) -> (r: &'static str)
    requires
        d < 16,
    ensures
        r@ == seq![digit_char(d as nat)],
{
    proof {
        reveal_strlit("0");
        reveal_strlit("1");
        reveal_strlit("2");
        reveal_strlit("3");
        reveal_strlit("4");
        reveal_strlit("5");
        reveal_strlit("6");
        reveal_strlit("7");
        reveal_strlit("8");
        reveal_strlit("9");
        reveal_strlit("a");
        reveal_strlit("b");
        reveal_strlit("c");
        reveal_strlit("d");
        reveal_strlit("e");
        reveal_strlit("f");
    }
    let r = match d {
        0 => "0",
        1 => "1",
        2 => "2",
        3 => "3",
        4 => "4",
        5 => "5",
        6 => "6",
        7 => "7",
        8 => "8",
        9 => "9",
        10 => "a",
        11 => "b",
        12 => "c",
        13 => "d",
        14 => "e",
        _ => "f",
    };
    assert(r@ =~= seq![digit_char(d as nat)]);
    r
}

fn push_decimal(s: &mut String, n: u128)
    ensures
        final(s)@ == old(s)@ + decimal(n as nat),
    decreases n,
{
    if n >= 10 {
        push_decimal(s, n / 10);
    }
    s.append(digit_text((n % 10) as u8));
    assert(final(s)@ =~= old(s)@ + decimal(n as nat));
}

proof fn lemma_fraction_fits(a: nat, b: nat)
    requires
        0 < b <= u128::MAX / 10000,
    ensures
        (a % b) * 10000 <= u128::MAX,
{
    assert((a % b) < b) by (nonlinear_arith)
        requires
            0 < b,
    ;
    let r = a % b;
    assert(r * 10000 <= u128::MAX) by (nonlinear_arith)
        requires
            r < b,
            b <= u128::MAX / 10000,
    ;
}

/// `a / b` written with four decimals, rounded down, computed on integers only.
pub fn print_with_4_digits(a: u128, b: u128) -> (r: String)
    requires
        0 < b <= u128::MAX / 10000,
    ensures
        r@ == with_4_digits(a as nat, b as nat),
{
    proof {
        lemma_fraction_fits(a as nat, b as nat);
    }
    let rest = a / b;
    let frac = (a % b) * 10000 / b;
    let mut s = String::new();
    push_decimal(&mut s, rest);
    proof {
        reveal_strlit(".");
    }
    s.append(".");
    s.append(digit_text(((frac / 1000) % 10) as u8));
    s.append(digit_text(((frac / 100) % 10) as u8));
    s.append(digit_text(((frac / 10) % 10) as u8));
    s.append(digit_text((frac % 10) as u8));
    assert(s@ =~= with_4_digits(a as nat, b as nat));
    s
}

fn push_account(s: &mut String, a: &AccountId)
    ensures
        final(s)@ == old(s)@ + account_text(*a),
{
    proof {
        reveal_strlit("0x");
    }
    s.append("0x");
    let mut i: usize = 0;
    while i < 32
        invariant
            i <= 32,
            a.0@.len() == 32,
            s@ == old(s)@ + seq!['0', 'x'] + hex_of(a.0@.subrange(0, i as int)),
        decreases 32 - i,
    {
        let byte = a.0[i];
        assert(a.0@.subrange(0, i + 1).drop_last() =~= a.0@.subrange(0, i as int));
        assert(a.0@.subrange(0, i + 1).last() == byte);
        s.append(digit_text(byte / 16));
        s.append(digit_text(byte % 16));
        assert(s@ =~= old(s)@ + seq!['0', 'x'] + hex_of(a.0@.subrange(0, i + 1)));
        i = i + 1;
    }
    assert(a.0@.subrange(0, 32) =~= a.0@);
    assert(s@ =~= old(s)@ + account_text(*a));
}

/// A notification that knows its message text.
pub trait FormatToString {
    spec fn message(&self) -> Seq<char>;

    fn format(&self) -> (r: String)
        ensures
            r@ == self.message(),
    ;
}

/// A transfer to a subscribed account.
#[derive(Debug, Clone, PartialEq, Eq)]
pub struct TransferNotification {
    /// The account from which the transfer was made.
    pub from_account: AccountId,
    /// The account to which the transfer was directed.
    pub to_account: AccountId,
    /// Amount in smallest units.
    pub amount: u128,
}

/// A staking reward paid to a subscribed account.
#[derive(Debug, Clone, PartialEq, Eq)]
pub struct RewardedNotification {
    /// The account used by the nominator for stashing.
    pub stash_account: AccountId,
    /// Amount of the reward in smallest units.
    pub amount: u128,
}

impl FormatToString for TransferNotification {
    open spec fn message(&self) -> Seq<char> {
        "New transfer from account "@ + account_text(self.from_account) + ", amount "@
            + amount_text(self.amount)
    }

    fn format(&self) -> (r: String) {
        let mut s = String::from_str("New transfer from account ");
        push_account(&mut s, &self.from_account);
        s.append(", amount ");
        let amount = print_with_4_digits(self.amount, UNITS_PER_TOKEN);
        s.append(amount.as_str());
        assert(s@ =~= self.message());
        s
    }
}

impl FormatToString for RewardedNotification {
    open spec fn message(&self) -> Seq<char> {
        "New reward for nominating from account "@ + account_text(self.stash_account)
            + ", amount "@ + amount_text(self.amount)
    }

    fn format(&self) -> (r: String) {
        let mut s = String::from_str("New reward for nominating from account ");
        push_account(&mut s, &self.stash_account);
        s.append(", amount ");
        let amount = print_with_4_digits(self.amount, UNITS_PER_TOKEN);
        s.append(amount.as_str());
        assert(s@ =~= self.message());
        s
    }
}


/// The value of a sequence of decimal digits.
pub open spec fn digits_value(ds: Seq<char>) -> int
    decreases ds.len(),
{
    if ds.len() == 0 {
        0
    } else {
        digits_value(ds.drop_last()) * 10 + (ds.last() as int - '0' as int)
    }
}

/// What `i64` parsing accepts: an optional `+` or `-` followed by one or more ASCII
/// digits whose value fits in an `i64`.
pub open spec fn decimal_i64(s: Seq<char>) -> Option<i64> {
    let negative = s.len() > 0 && s[0] == '-';
    let ds = if s.len() > 0 && (s[0] == '-' || s[0] == '+') {
        s.skip(1)
    } else {
        s
    };
    let v = if negative {
        -digits_value(ds)
    } else {
        digits_value(ds)
    };
    if ds.len() > 0 && (forall|i: int| 0 <= i < ds.len() ==> '0' <= #[trigger] ds[i] <= '9')
        && i64::MIN <= v <= i64::MAX {
        Some(v as i64)
    } else {
        None
    }
}

/// Relies on `str::parse::<i64>` (std's `i64::from_str`): an optional `+` or `-` sign
/// followed by decimal digits only, with no other character; an empty number, any other
/// character, or a value outside `i64` is an error.
#[verifier::external_body]
fn parse_i64(s: &str) -> (r: Option<i64>)
    ensures
        r == decimal_i64(s@),
{
    s.parse::<i64>().ok()
}

/// `s` begins with `p`.
pub open spec fn has_prefix(s: Seq<char>, p: Seq<char>) -> bool {
    p.len() <= s.len() && s.take(p.len() as int) == p
}

/// The rest of `s` after `p`, where `s` begins with `p`.
fn strip_prefix<'a>(s: &'a str, p: &str) -> (r: Option<&'a str>)
    ensures
        r is Some <==> has_prefix(s@, p@),
        r matches Some(t) ==> t@ == s@.skip(p@.len() as int),
{
    let n = s.unicode_len();
    let m = p.unicode_len();
    if m > n {
        return None;
    }
    let mut i: usize = 0;
    while i < m
        invariant
            n == s@.len(),
            m == p@.len(),
            m <= n,
            i <= m,
            forall|j: int| 0 <= j < i ==> s@[j] == p@[j],
        decreases m - i,
    {
        if s.get_char(i) != p.get_char(i) {
            assert(s@.take(m as int)[i as int] != p@[i as int]);
            return None;
        }
        i = i + 1;
    }
    assert(s@.take(m as int) =~= p@);
    Some(s.substring_char(m, n))
}

/// Where a message goes: a channel by name or a chat by id.
#[derive(Debug, Clone, PartialEq, Eq)]
pub enum Target {
    ChannelUsername(String),
    Id(i64),
}

/// What a channel handle designates.
pub enum TargetView {
    Channel(Seq<char>),
    Chat(i64),
    /// `chat_id:` followed by no valid `i64`.
    BadChatId,
    /// Neither `channel:` nor `chat_id:`.
    Unrecognized,
}

/// The target that a channel handle designates: `channel:<name>` or
/// `chat_id:<signed integer>`.
pub open spec fn handle_target(h: Seq<char>) -> TargetView {
    if has_prefix(h, "channel:"@) {
        TargetView::Channel(h.skip("channel:"@.len() as int))
    } else if has_prefix(h, "chat_id:"@) {
        match decimal_i64(h.skip("chat_id:"@.len() as int)) {
            Some(v) => TargetView::Chat(v),
            None => TargetView::BadChatId,
        }
    } else {
        TargetView::Unrecognized
    }
}

pub open spec fn target_view(t: Target) -> TargetView {
    match t {
        Target::ChannelUsername(n) => TargetView::Channel(n@),
        Target::Id(v) => TargetView::Chat(v),
    }
}

/// Why a notification cannot be addressed.
#[derive(Debug, Clone, PartialEq, Eq)]
pub enum DispatchError {
    /// The handle begins with neither `channel:` nor `chat_id:`; the handle.
    UnrecognizedHandle(String),
    /// The handle's chat id is not an `i64`; the text after `chat_id:`.
    InvalidChatId(String),
    /// Neither a chat id nor a channel name was given.
    MissingRecipient,
}

/// The channel handle of a subscription, e.g. `chat_id:-100123` or `channel:news`.
#[derive(Debug, Clone, PartialEq, Eq)]
pub struct ChannelHandle(pub String);

/// A Telegram bot, known by its token, that delivers notifications.
#[derive(Clone, PartialEq, Eq)]
pub struct TelegramBot {
    bot_token: String,
}

impl TelegramBot {
    pub closed spec fn token(&self) -> Seq<char> {
        self.bot_token@
    }

    pub fn new(token: String) -> (r: Self)
        ensures
            r.token() == token@,
    {
        TelegramBot { bot_token: token }
    }

    pub fn bot_token(&self) -> (r: &String)
        ensures
            r@ == self.token(),
    {
        &self.bot_token
    }

    /// The target that `channel_handle` designates.
    pub fn parse_channel_handle(&self, channel_handle: ChannelHandle) -> (r: Result<
        Target,
        DispatchError,
    >)
        ensures
            match handle_target(channel_handle.0@) {
                TargetView::Channel(n) => (r matches Ok(Target::ChannelUsername(t)) && t@ == n),
                TargetView::Chat(v) => r == Ok::<Target, DispatchError>(Target::Id(v)),
                TargetView::BadChatId => (r matches Err(DispatchError::InvalidChatId(t)) && t@
                    == channel_handle.0@.skip(8)),
                TargetView::Unrecognized => (r matches Err(DispatchError::UnrecognizedHandle(t))
                    && t@ == channel_handle.0@),
            },
    {
        proof {
            reveal_strlit("channel:");
            reveal_strlit("chat_id:");
        }
        let h = channel_handle.0.as_str();
        if let Some(name) = strip_prefix(h, "channel:") {
            return Ok(Target::ChannelUsername(name.to_owned()));
        }
        match strip_prefix(h, "chat_id:") {
            Some(id) => match parse_i64(id) {
                Some(v) => Ok(Target::Id(v)),
                None => Err(DispatchError::InvalidChatId(id.to_owned())),
            },
            None => Err(DispatchError::UnrecognizedHandle(channel_handle.0)),
        }
    }
}

/// Addresses a notification: the target of `channel_handle` and the message text.
/// An unusable handle is an error, and nothing is to be sent.
pub fn prepare_delivery<M: FormatToString>(
    bot: &TelegramBot,
    msg: &M,
    channel_handle: ChannelHandle,
) -> (r: Result<(Target, String), DispatchError>)
    ensures
        r is Ok <==> (handle_target(channel_handle.0@) is Channel || handle_target(
            channel_handle.0@,
        ) is Chat),
        r matches Ok((t, text)) ==> target_view(t) == handle_target(channel_handle.0@)
            && text@ == msg.message(),
        handle_target(channel_handle.0@) is Unrecognized ==> (r matches Err(
            DispatchError::UnrecognizedHandle(t),
        ) && t@ == channel_handle.0@),
{
    let ghost h = channel_handle.0@;
    match bot.parse_channel_handle(channel_handle) {
        Ok(target) => Ok((target, msg.format())),
        Err(e) => Err(e),
    }
}

/// The notification for a transfer of `amount` from `from_account` to `to_account`,
/// and where it goes: only where the recipient is subscribed.
pub fn transfer_notification(
    subscriptions: &ActiveSubscriptions,
    from_account: AccountId,
    to_account: AccountId,
    amount: u128,
) -> (r: Option<(TransferNotification, ChannelHandle)>)
    requires
        subscriptions.wf(),
    ensures
        r is Some <==> subscriptions@.dom().contains(to_account),
        r matches Some((n, h)) ==> n == (TransferNotification { from_account, to_account, amount })
            && h.0@ == subscriptions@[to_account],
{
    match subscriptions.channel_handle(&to_account) {
        Some(h) => Some((TransferNotification { from_account, to_account, amount }, ChannelHandle(h))),
        None => None,
    }
}

/// The notification for a reward of `amount` paid to `stash_account`, and where it
/// goes: only where that account is subscribed.
pub fn rewarded_notification(
    subscriptions: &ActiveSubscriptions,
    stash_account: AccountId,
    amount: u128,
) -> (r: Option<(RewardedNotification, ChannelHandle)>)
    requires
        subscriptions.wf(),
    ensures
        r is Some <==> subscriptions@.dom().contains(stash_account),
        r matches Some((n, h)) ==> n == (RewardedNotification { stash_account, amount })
            && h.0@ == subscriptions@[stash_account],
{
    match subscriptions.channel_handle(&stash_account) {
        Some(h) => Some((RewardedNotification { stash_account, amount }, ChannelHandle(h))),
        None => None,
    }
}

} // verus!
