//! Channels: agents that commands are dispatched to, and the Telegram bot.
use vstd::prelude::*;

use crate::http::text_result;

pub mod exec_agent;
pub mod telegram;
pub mod telegram_agent;

verus! {

/// An agent that carries out commands under a name. What it does is described by
/// relations that each implementation defines; by default they hold of
/// anything.
pub trait AgentHandler: Sized {
    /// The agent goes by the name.
    open spec fn goes_by(agent: Self, name: Seq<char>) -> bool {
        true
    }

    /// The agent carried out a command with an outcome.
    open spec fn carried_out(
        agent: Self,
        command: Seq<char>,
        outcome: Result<Seq<char>, Seq<char>>,
    ) -> bool {
        true
    }

    fn name(&self) -> (r: &str)
        ensures
            Self::goes_by(*self, r@),
    ;

    fn execute(&self, command: &str) -> (r: Result<String, String>)
        ensures
            Self::carried_out(*self, command@, text_result(r)),
    ;
}

}
