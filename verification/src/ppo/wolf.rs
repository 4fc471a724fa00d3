//! Win-or-learn-fast branch selection.
use vstd::prelude::*;

verus! {

/// Which WoLF branch was taken for the active learning rate.
#[derive(Debug, Clone, Copy, PartialEq, Eq, Structural)]
pub enum WolfMode {
    /// Current payoff exceeds the estimate: cautious alpha-win.
    Win,
    /// Current payoff at or below the estimate: fast alpha-lose.
    Lose,
}

} // verus!
