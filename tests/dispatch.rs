use subscriptions::account::AccountId;
use subscriptions::cli::{Targets, TelegramUser};
use subscriptions::mirror::{
    block_action, ActiveSubscriptions, BlockAction, BlockItem, DecodeError, EventOutcome, LifecycleEvent,
    LoopEnd, Subscription,
};
use subscriptions::notify::{
    prepare_delivery, print_with_4_digits, rewarded_notification, transfer_notification,
    ChannelHandle, DispatchError, FormatToString, RewardedNotification, Target, TelegramBot,
    TransferNotification,
};

const UNIT: u128 = 1_000_000_000_000;

fn account(n: u8) -> AccountId {
    AccountId([n; 32])
}

fn registered(n: u8, handle: Option<&str>) -> LifecycleEvent {
    LifecycleEvent::Registered {
        for_account: Some(account(n)),
        channel_handle: handle.map(|h| h.to_string()),
    }
}

#[test]
fn amounts_show_four_decimals() {
    assert_eq!(print_with_4_digits(1_500_000_000_000, UNIT), "1.5000");
    assert_eq!(print_with_4_digits(123_456_789_012_345, UNIT), "123.4567");
    assert_eq!(print_with_4_digits(1_200_000_000, UNIT), "0.0012");
    assert_eq!(print_with_4_digits(99_999_999, UNIT), "0.0000");
    assert_eq!(print_with_4_digits(0, UNIT), "0.0000");
    assert_eq!(print_with_4_digits(7, 2), "3.5000");
    assert_eq!(print_with_4_digits(u128::MAX, UNIT), "340282366920938463463374607.4317");
}

#[test]
fn transfer_message_names_sender_and_amount() {
    let n = TransferNotification { from_account: account(0xab), to_account: account(1), amount: 2_500_000_000_000 };
    let expected = format!("New transfer from account 0x{}, amount 2.5000", "ab".repeat(32));
    assert_eq!(n.format(), expected);
}

#[test]
fn reward_message_names_stash_and_amount() {
    let n = RewardedNotification { stash_account: account(0x0f), amount: 10_000_000_000 };
    let expected = format!("New reward for nominating from account 0x{}, amount 0.0100", "0f".repeat(32));
    assert_eq!(n.format(), expected);
}

#[test]
fn chat_id_handle_goes_to_direct_chat() {
    let bot = TelegramBot::new("SECRET-REDACTED".to_string());
    assert_eq!(
        bot.parse_channel_handle(ChannelHandle("chat_id:-100123".to_string())),
        Ok(Target::Id(-100123))
    );
    assert_eq!(
        bot.parse_channel_handle(ChannelHandle("chat_id:+42".to_string())),
        Ok(Target::Id(42))
    );
}

#[test]
fn channel_handle_goes_to_channel() {
    let bot = TelegramBot::new("t".to_string());
    assert_eq!(
        bot.parse_channel_handle(ChannelHandle("channel:news".to_string())),
        Ok(Target::ChannelUsername("news".to_string()))
    );
}

#[test]
fn unrecognized_handle_is_rejected_before_sending() {
    let bot = TelegramBot::new("t".to_string());
    assert_eq!(
        bot.parse_channel_handle(ChannelHandle("bogus:x".to_string())),
        Err(DispatchError::UnrecognizedHandle("bogus:x".to_string()))
    );
    let msg = RewardedNotification { stash_account: account(1), amount: 1 };
    assert_eq!(
        prepare_delivery(&bot, &msg, ChannelHandle("bogus:x".to_string())),
        Err(DispatchError::UnrecognizedHandle("bogus:x".to_string()))
    );
}

#[test]
fn bad_chat_id_is_rejected() {
    let bot = TelegramBot::new("t".to_string());
    for bad in ["chat_id:", "chat_id:12a", "chat_id:-", "chat_id: 1", "chat_id:9223372036854775808"] {
        let rest = bad.strip_prefix("chat_id:").unwrap().to_string();
        assert_eq!(
            bot.parse_channel_handle(ChannelHandle(bad.to_string())),
            Err(DispatchError::InvalidChatId(rest))
        );
    }
    assert_eq!(
        bot.parse_channel_handle(ChannelHandle("chat_id:-9223372036854775808".to_string())),
        Ok(Target::Id(i64::MIN))
    );
}

#[test]
fn delivery_carries_target_and_text() {
    let bot = TelegramBot::new("t".to_string());
    assert_eq!(bot.bot_token(), "t");
    let msg = TransferNotification { from_account: account(2), to_account: account(3), amount: UNIT };
    let (target, text) = prepare_delivery(&bot, &msg, ChannelHandle("chat_id:7".to_string())).unwrap();
    assert_eq!(target, Target::Id(7));
    assert_eq!(text, msg.format());
    assert!(text.ends_with("amount 1.0000"));
}

#[test]
fn telegram_user_prefers_chat_id() {
    let both = TelegramUser { chat_id: Some(5), channel_username: Some("c".to_string()) };
    assert_eq!(both.try_into_target(), Ok(Target::Id(5)));
    let name = TelegramUser { chat_id: None, channel_username: Some("c".to_string()) };
    assert_eq!(name.try_into_target(), Ok(Target::ChannelUsername("c".to_string())));
    let none = TelegramUser { chat_id: None, channel_username: None };
    assert_eq!(none.try_into_target(), Err(DispatchError::MissingRecipient));
    let Targets::Telegram { token, user } = Targets::Telegram {
        token: "t".to_string(),
        user: TelegramUser { chat_id: Some(1), channel_username: None },
    };
    assert_eq!(token, "t");
    assert_eq!(user.chat_id, Some(1));
}

#[test]
fn undecodable_handle_skips_only_that_event() {
    let mut mirror = ActiveSubscriptions::new();
    let events = vec![
        registered(1, None),
        registered(2, Some("chat_id:2")),
        LifecycleEvent::Cancelled { for_account: None },
        registered(3, Some("channel:three")),
    ];
    let outcomes = mirror.apply_events(&events);
    assert_eq!(
        outcomes,
        vec![
            EventOutcome::MissingField,
            EventOutcome::Subscribed(account(2)),
            EventOutcome::MissingField,
            EventOutcome::Subscribed(account(3)),
        ]
    );
    assert!(!mirror.contains_key(&account(1)));
    assert_eq!(mirror.channel_handle(&account(2)), Some("chat_id:2".to_string()));
    assert_eq!(mirror.len(), 2);
}

#[test]
fn cancellations_remove_from_mirror() {
    let mut mirror = ActiveSubscriptions::new();
    for n in 1..=4u8 {
        mirror.insert(Subscription { for_account: account(n), channel_handle: format!("chat_id:{}", n) });
    }
    let events = vec![
        LifecycleEvent::Cancelled { for_account: Some(account(1)) },
        LifecycleEvent::CancelledBatch { for_accounts: Some(vec![account(2), account(3), account(9)]) },
        LifecycleEvent::Cancelled { for_account: Some(account(9)) },
        LifecycleEvent::Unknown,
        LifecycleEvent::Unnamed,
        LifecycleEvent::Undecodable,
    ];
    let outcomes = mirror.apply_events(&events);
    assert_eq!(outcomes[1], EventOutcome::UnsubscribedMany(3));
    assert_eq!(outcomes[3], EventOutcome::Ignored);
    assert_eq!(outcomes[5], EventOutcome::Undecodable);
    assert_eq!(mirror.len(), 1);
    assert!(mirror.contains_key(&account(4)));
}

#[test]
fn registration_overwrites_handle() {
    let mut mirror = ActiveSubscriptions::new();
    mirror.apply_event(&registered(1, Some("chat_id:1")));
    mirror.apply_event(&registered(1, Some("channel:one")));
    assert_eq!(mirror.channel_handle(&account(1)), Some("channel:one".to_string()));
    assert_eq!(mirror.len(), 1);
}

#[test]
fn events_are_told_apart_by_name() {
    let e = LifecycleEvent::classify(Some("NewSubscription"), Some(account(1)), Some("chat_id:1".to_string()), None);
    assert!(matches!(e, LifecycleEvent::Registered { for_account: Some(_), channel_handle: Some(_) }));
    let e = LifecycleEvent::classify(Some("CancelledSubscription"), Some(account(1)), None, None);
    assert!(matches!(e, LifecycleEvent::Cancelled { for_account: Some(_) }));
    let e = LifecycleEvent::classify(Some("CancelledSubscriptions"), None, None, Some(vec![account(1)]));
    assert!(matches!(e, LifecycleEvent::CancelledBatch { for_accounts: Some(_) }));
    let e = LifecycleEvent::classify(Some("Transfer"), Some(account(1)), None, None);
    assert!(matches!(e, LifecycleEvent::Unknown));
    let e = LifecycleEvent::classify(None, Some(account(1)), None, None);
    assert!(matches!(e, LifecycleEvent::Unnamed));
}

#[test]
fn ingestion_loop_stops_and_skips() {
    let mut mirror = ActiveSubscriptions::new();
    assert_eq!(mirror.ingest(&BlockItem::Closed, false), Err(LoopEnd::NoMoreBlocks));
    let block = BlockItem::Events(vec![registered(1, Some("chat_id:1"))]);
    assert_eq!(mirror.ingest(&block, true), Err(LoopEnd::Terminated));
    assert_eq!(mirror.len(), 0);
    assert_eq!(mirror.ingest(&BlockItem::EventsUnavailable, false), Ok(vec![]));
    assert_eq!(mirror.ingest(&block, false), Ok(vec![EventOutcome::Subscribed(account(1))]));
    assert_eq!(mirror.len(), 1);
    assert_eq!(block_action(false, false, true), BlockAction::Process);
    assert_eq!(block_action(false, false, false), BlockAction::Skip);
    assert_eq!(block_action(true, true, true), BlockAction::Stop(LoopEnd::NoMoreBlocks));
}

#[test]
fn activity_notifies_only_subscribers() {
    let mut mirror = ActiveSubscriptions::new();
    mirror.insert(Subscription { for_account: account(2), channel_handle: "chat_id:2".to_string() });
    let (n, h) = transfer_notification(&mirror, account(1), account(2), 5).unwrap();
    assert_eq!(n, TransferNotification { from_account: account(1), to_account: account(2), amount: 5 });
    assert_eq!(h, ChannelHandle("chat_id:2".to_string()));
    assert!(transfer_notification(&mirror, account(2), account(1), 5).is_none());
    let (r, h) = rewarded_notification(&mirror, account(2), 9).unwrap();
    assert_eq!(r, RewardedNotification { stash_account: account(2), amount: 9 });
    assert_eq!(h.0, "chat_id:2");
    assert!(rewarded_notification(&mirror, account(3), 9).is_none());
    mirror.remove(&account(2));
    assert!(transfer_notification(&mirror, account(1), account(2), 5).is_none());
}

#[test]
fn registry_entries_need_type_and_both_fields() {
    assert_eq!(
        Subscription::from_attr(Some("ActiveSubscriptionAttr"), Some(account(1)), Some("chat_id:1".to_string())),
        Ok(Subscription { for_account: account(1), channel_handle: "chat_id:1".to_string() })
    );
    assert_eq!(
        Subscription::from_attr(Some("Other"), Some(account(1)), Some("x".to_string())),
        Err(DecodeError::NotAnAttr)
    );
    assert_eq!(Subscription::from_attr(None, None, None), Err(DecodeError::NotAnAttr));
    assert_eq!(
        Subscription::from_attr(Some("ActiveSubscriptionAttr"), None, Some("x".to_string())),
        Err(DecodeError::MissingAccount)
    );
    assert_eq!(
        Subscription::from_attr(Some("ActiveSubscriptionAttr"), Some(account(1)), None),
        Err(DecodeError::MissingHandle)
    );
}
