//! The status summary the panel polls.

use vstd::prelude::*;

verus! {

/// What the panel shows about the engine: whether it is attached to the
/// game, whether a quest runs, the monster on display and the quest clock.
pub struct PanelStatus {
    pub connected: bool,
    pub in_quest: bool,
    pub has_monster: bool,
    pub monster_name: Option<String>,
    pub quest_elapsed_ms: Option<u64>,
    pub quest_name: Option<String>,
    /// Name of the connection state (see `LinkState::name`).
    pub connection_state: String,
    pub pid: Option<u32>,
    pub module_base: Option<u64>,
}

} // verus!
