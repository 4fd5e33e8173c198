//! A player of the server's tab list, as plain values.

use vstd::prelude::*;

verus! {

/// One entry of the server's tab list.
#[derive(Clone, Debug, PartialEq, Eq)]
pub struct Player {
    /// The name shown in the list, where it differs from the account's.
    pub display_name: Option<String>,
    /// The number of the player's game mode.
    pub gamemode: u8,
    /// The player's latency in milliseconds.
    pub latency: i32,
    /// The name of the player's account.
    pub name: String,
    /// The player's unique identifier, in its hyphenated form.
    pub uuid: String,
}

} // verus!
