//! Letting both parties of a channel act off-chain until nothing more happens.

use vstd::prelude::*;

verus! {

/// How many rounds of messages there may be.
pub const MAX_ROUNDS: u32 = 100;

/// What to do next.
#[derive(Clone, Copy, Debug, PartialEq, Eq, Structural)]
pub enum Settle {
    /// Ask the user for messages.
    PollUser,
    /// Ask the hub for messages.
    PollHub,
    /// Relay the messages of the party that was asked last, and start a round.
    Relay,
    /// Both are idle.
    Done,
    /// The parties do not come to rest.
    GiveUp,
}

/// What to do in a round, given what is known of the parties: the user is asked
/// first, the hub where the user is idle, and there is a last round.
pub open spec fn settle_spec(round: u32, user_idle: Option<bool>, hub_idle: Option<bool>) -> Settle {
    if round >= MAX_ROUNDS {
        Settle::GiveUp
    } else {
        match (user_idle, hub_idle) {
            (None, _) => Settle::PollUser,
            (Some(false), _) => Settle::Relay,
            (Some(true), None) => Settle::PollHub,
            (Some(true), Some(false)) => Settle::Relay,
            (Some(true), Some(true)) => Settle::Done,
        }
    }
}

/// What to do in a round, given whether the parties that were asked in it are idle.
pub fn settle_step(round: u32, user_idle: Option<bool>, hub_idle: Option<bool>) -> (next: Settle)
    ensures
        next == settle_spec(round, user_idle, hub_idle),
{
    if round >= MAX_ROUNDS {
        return Settle::GiveUp;
    }
    match user_idle {
        None => Settle::PollUser,
        Some(false) => Settle::Relay,
        Some(true) => match hub_idle {
            None => Settle::PollHub,
            Some(false) => Settle::Relay,
            Some(true) => Settle::Done,
        },
    }
}

// ----- laws -----

/// Rest is declared exactly when both parties were asked in the round and are idle,
/// and messages are relayed exactly when the party that was asked last is not. The
/// hub is asked only where the user is idle. There are at most a hundred rounds.
pub proof fn law_settling(round: u32, user_idle: Option<bool>, hub_idle: Option<bool>)
    ensures
        settle_spec(round, user_idle, hub_idle) == Settle::GiveUp <==> round >= 100,
        settle_spec(round, user_idle, hub_idle) == Settle::Done <==> round < 100 && user_idle
            == Some(true) && hub_idle == Some(true),
        settle_spec(round, user_idle, hub_idle) == Settle::Relay <==> round < 100 && (user_idle
            == Some(false) || user_idle == Some(true) && hub_idle == Some(false)),
        settle_spec(round, user_idle, hub_idle) == Settle::PollUser <==> round < 100
            && user_idle is None,
        settle_spec(round, user_idle, hub_idle) == Settle::PollHub <==> round < 100 && user_idle
            == Some(true) && hub_idle is None,
{
}

} // verus!
