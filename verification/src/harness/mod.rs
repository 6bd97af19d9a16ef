//! The worlds of the scenarios: what each party decides from what it sees, and
//! what the world records. A world's state is plain data; the node, the channel
//! parties and the venues are driven from outside.

pub mod chess;
pub mod chess_laws;
pub mod chess_play_laws;
pub mod factchain;
pub mod fee;
pub mod fee_laws;
pub mod game;
pub mod game_laws;
pub mod ledger;
pub mod ledger_laws;
pub mod names;
pub mod names_laws;
pub mod play_laws;
pub mod pos;
pub mod pos_game;
pub mod pos_labels;
pub mod pos_laws;
pub mod registry_laws;
pub mod settle;
pub mod text;
pub mod text_laws;

use vstd::prelude::*;

verus! {

/// The value of a channel's funding output, in satoshis.
pub const FUNDING: u64 = 200_000;

/// Each side's share of a fresh channel.
pub const HALF: u64 = 100_000;

/// What each side brings to the funding transaction.
pub const CONTRIB: u64 = 100_500;

/// A side of a channel.
#[derive(Clone, Copy, Debug, PartialEq, Eq, Structural)]
pub enum Role {
    User,
    Hub,
}

impl Role {
    /// The other side.
    pub open spec fn opponent(self) -> Role {
        match self {
            Role::User => Role::Hub,
            Role::Hub => Role::User,
        }
    }

    /// The side's place in a pair.
    pub open spec fn place(self) -> nat {
        match self {
            Role::User => 0,
            Role::Hub => 1,
        }
    }

    /// The side's name.
    pub open spec fn title(self) -> Seq<char> {
        match self {
            Role::User => "user"@,
            Role::Hub => "hub"@,
        }
    }

    /// The other side.
    pub fn other(self) -> (r: Role)
        ensures
            r == self.opponent(),
    {
        match self {
            Role::User => Role::Hub,
            Role::Hub => Role::User,
        }
    }

    /// The side's place in a pair.
    pub fn idx(self) -> (i: usize)
        ensures
            i == self.place(),
    {
        match self {
            Role::User => 0,
            Role::Hub => 1,
        }
    }

    /// The side's name.
    pub fn name(self) -> (s: &'static str)
        ensures
            s@ == self.title(),
    {
        match self {
            Role::User => "user",
            Role::Hub => "hub",
        }
    }
}

/// Who moves at a depth of a game: the user at odd depths, the hub at even ones.
pub open spec fn mover(d: int) -> Role {
    if d % 2 == 1 {
        Role::User
    } else {
        Role::Hub
    }
}

/// Who moves at depth `d`.
pub fn mover_at(d: u32) -> (r: Role)
    ensures
        r == mover(d as int),
{
    if d % 2 == 1 {
        Role::User
    } else {
        Role::Hub
    }
}

/// Moves alternate.
pub proof fn law_movers_alternate(d: int)
    ensures
        mover(d + 1) == mover(d).opponent(),
        mover(d).opponent().opponent() == mover(d),
{
}

/// The user makes the odd moves, the hub the even ones.
pub proof fn law_who_moves(k: int)
    ensures
        mover(2 * k + 1) == Role::User,
        mover(2 * k) == Role::Hub,
{
}

/// The two sides have different places in a pair, the user's the first, and different
/// names.
pub proof fn law_sides_differ(r: Role)
    ensures
        r.opponent() != r,
        Role::User.place() == 0,
        r.place() + r.opponent().place() == 1,
        Role::User.title() == "user"@,
        Role::Hub.title() == "hub"@,
{
}

} // verus!
