use vstd::prelude::*;

use crate::notify::{DispatchError, Target};

verus! {

/// The Telegram recipient of notifications: a chat by id or a channel by name.
#[derive(Debug, Clone, PartialEq, Eq)]
pub struct TelegramUser {
    pub chat_id: Option<i64>,
    pub channel_username: Option<String>,
}

impl TelegramUser {
    /// The target: the chat id where one is given, else the channel name.
    pub fn try_into_target(self) -> (r: Result<Target, DispatchError>)
        ensures
            match self.chat_id {
                Some(id) => r == Ok::<Target, DispatchError>(Target::Id(id)),
                None => match self.channel_username {
                    Some(name) => r == Ok::<Target, DispatchError>(Target::ChannelUsername(name)),
                    None => r == Err::<Target, DispatchError>(DispatchError::MissingRecipient),
                },
            },
    {
        match self.chat_id {
            Some(chat_id) => Ok(Target::Id(chat_id)),
            None => match self.channel_username {
                Some(name) => Ok(Target::ChannelUsername(name)),
                None => Err(DispatchError::MissingRecipient),
            },
        }
    }
}

/// Where notifications are sent.
#[derive(Debug, Clone, PartialEq, Eq)]
pub enum Targets {
    /// Through a Telegram bot, to one recipient.
    Telegram { token: String, user: TelegramUser },
}

} // verus!
