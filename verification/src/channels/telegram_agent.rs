//! The agent that sends Telegram messages.
use vstd::prelude::*;

use crate::chars;
use crate::numbers;
use crate::text;

verus! {

pub struct TelegramAgent {
    pub token: String,
}

/// Chat and text of a command `<chat_id>:<message>`.
pub open spec fn address_of(command: Seq<char>) -> Result<(int, Seq<char>), Seq<char>> {
    match chars::around(command, ":"@) {
        None => Err("telegram agent: expected <chat_id>:<message>"@),
        Some((chat, message)) => match numbers::signed_value(chars::trim(chat)) {
            Some(id) => Ok((id, chars::trim(message))),
            None => Err("telegram agent: invalid chat_id"@),
        },
    }
}

impl TelegramAgent {
    pub fn new(token: String) -> (r: Self)
        ensures
            r.token == token,
    {
        TelegramAgent { token }
    }

    pub fn name(&self) -> (r: &'static str)
        ensures
            r@ == "telegram"@,
    {
        "telegram"
    }

    /// The chat and the text that a command asks to send.
    pub fn request(&self, command: &str) -> (r: Result<(i64, String), String>)
        ensures
            match r {
                Ok((id, t)) => address_of(command@) == Ok::<(int, Seq<char>), Seq<char>>(
                    (id as int, t@),
                ),
                Err(e) => address_of(command@) == Err::<(int, Seq<char>), Seq<char>>(e@),
            },
    {
        match text::around(command, ":") {
            None => Err("telegram agent: expected <chat_id>:<message>".to_owned()),
            Some((chat, message)) => match numbers::parse_i64(text::trim(chat)) {
                Some(id) => Ok((id, text::trim(message).to_owned())),
                None => Err("telegram agent: invalid chat_id".to_owned()),
            },
        }
    }

    /// The outcome of a command once its message was sent or could not be.
    pub fn execute(&self, sent: Result<(), String>) -> (r: Result<String, String>)
        ensures
            match sent {
                Ok(_) => r matches Ok(t) && t@ == "sent"@,
                Err(e) => r matches Err(m) && m@ == e@,
            },
    {
        match sent {
            Ok(_) => Ok("sent".to_owned()),
            Err(e) => Err(e),
        }
    }
}

}
