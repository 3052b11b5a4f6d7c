//! The local record of finished matches.
use vstd::prelude::*;

verus! {

/// One finished match: the game, the opponent when there was one, the
/// result and when it was played, as text.
#[derive(Clone, Debug)]
pub struct MatchRecord {
    pub game_type: String,
    pub opponent: Option<String>,
    pub result: String,
    pub played_at: String,
}

} // verus!
