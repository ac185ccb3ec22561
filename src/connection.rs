//! Deciding how to bring the bot into the caller's voice channel.

use vstd::prelude::*;

verus! {

/// How the bot came to share the caller's voice channel.
#[derive(PartialEq, Eq, Structural, Debug, Clone, Copy)]
pub enum ConnectionSuccessCode {
    AlreadyConnected,
    NewConnection,
}

/// The next step of a connection request.
#[derive(PartialEq, Eq, Structural, Debug, Clone, Copy)]
pub enum ConnectionStep {
    /// Nothing to do: the bot is there already.
    Connected(ConnectionSuccessCode),
    /// The caller is in no voice channel.
    JoinVoiceChannelFirst,
    /// The bot is busy in another voice channel of the guild.
    AlreadyInUse,
    /// Join this voice channel; success means a new connection.
    Join(u64),
}

/// Decides the step for a caller in voice channel `user_channel` (if any)
/// while the bot is in `bot_channel` (if any) of the same guild.
pub fn plan_connection(user_channel: Option<u64>, bot_channel: Option<u64>) -> (r: ConnectionStep)
    ensures
        user_channel is None ==> r == ConnectionStep::JoinVoiceChannelFirst,
        user_channel is Some && bot_channel is None ==> r == ConnectionStep::Join(
            user_channel->Some_0,
        ),
        user_channel is Some && bot_channel == user_channel ==> r == ConnectionStep::Connected(
            ConnectionSuccessCode::AlreadyConnected,
        ),
        user_channel is Some && bot_channel is Some && bot_channel != user_channel ==> r
            == ConnectionStep::AlreadyInUse,
{
    match user_channel {
        None => ConnectionStep::JoinVoiceChannelFirst,
        Some(user) => match bot_channel {
            None => ConnectionStep::Join(user),
            Some(bot) => {
                if bot == user {
                    ConnectionStep::Connected(ConnectionSuccessCode::AlreadyConnected)
                } else {
                    ConnectionStep::AlreadyInUse
                }
            },
        },
    }
}

} // verus!
