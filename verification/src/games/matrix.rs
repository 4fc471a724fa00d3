//! Named matrix games from Ratcliffe et al. (IEEE CoG 2019).
use vstd::prelude::*;

verus! {

/// Named matrix games used in the WoLF-PPO paper.
#[derive(Debug, Clone, Copy, PartialEq, Eq, Hash, Structural)]
pub enum MatrixGameKind {
    MatchingPenniesStandard,
    MatchingPenniesWeighted,
    RockPaperScissorsStandard,
    RockPaperScissorsWeighted,
}

impl MatrixGameKind {
    /// Every game, in declaration order.
    pub fn all() -> (r: [MatrixGameKind; 4])
        ensures
            r@ == seq![
                MatrixGameKind::MatchingPenniesStandard,
                MatrixGameKind::MatchingPenniesWeighted,
                MatrixGameKind::RockPaperScissorsStandard,
                MatrixGameKind::RockPaperScissorsWeighted,
            ],
    {
        let r = [
            MatrixGameKind::MatchingPenniesStandard,
            MatrixGameKind::MatchingPenniesWeighted,
            MatrixGameKind::RockPaperScissorsStandard,
            MatrixGameKind::RockPaperScissorsWeighted,
        ];
        assert(r@ =~= seq![
            MatrixGameKind::MatchingPenniesStandard,
            MatrixGameKind::MatchingPenniesWeighted,
            MatrixGameKind::RockPaperScissorsStandard,
            MatrixGameKind::RockPaperScissorsWeighted,
        ]);
        r
    }
}

} // verus!
