//! Process configuration as plain values.

use vstd::prelude::*;

verus! {

/// Prefix of the environment variables that configure the bot.
pub const ENV_PREFIX: &'static str = "KARTEL_";

/// What the bot needs to know before it starts.
#[derive(Debug, Clone)]
pub struct Config {
    /// Token of the bot account; empty when none was configured.
    pub bot_token: String,
}

/// The token a configuration holds when `bot_token` was found, or not found, in the environment.
pub open spec fn token_or_default(bot_token: Option<String>) -> Seq<char> {
    match bot_token {
        Some(t) => t@,
        None => Seq::<char>::empty(),
    }
}

/// Builds the configuration from the token variable as it was read from the environment.
/// A missing variable leaves the token empty.
pub fn config(bot_token: Option<String>) -> (cfg: Config)
    ensures
        cfg.bot_token@ == token_or_default(bot_token),
{
    match bot_token {
        Some(t) => Config { bot_token: t },
        None => Config { bot_token: String::new() },
    }
}

} // verus!
