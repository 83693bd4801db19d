use vstd::prelude::*;

verus! {

/// Whether a die that shows its highest face is rolled again.
#[derive(Debug, Clone, Copy, PartialEq, Eq, Structural)]
pub enum Exploding {
    /// No die is rolled again.
    Never,
    /// One extra die when the highest face shows.
    Once,
    /// Extra dice for as long as the highest face keeps showing.
    Indefinite,
}

/// Which of the rolled dice count towards the total; at most one policy per roll.
#[derive(Debug, Clone, Copy, PartialEq, Eq, Structural)]
pub enum KeepDrop {
    KeepHighest(usize),
    KeepLowest(usize),
    DropHighest(usize),
    DropLowest(usize),
    /// Every die counts.
    KeepAll,
}

/// One group of identical dice to be rolled together.
#[derive(Debug, Clone, Copy, PartialEq, Eq, Structural)]
pub struct DiceRoll {
    pub num_dice: usize,
    pub die_size: usize,
    pub exploding: Exploding,
    pub keep_drop: KeepDrop,
}

impl DiceRoll {
    /// A die has at least one face.
    pub open spec fn wf(&self) -> bool {
        self.die_size > 0
    }

    pub fn new(num_dice: usize, die_size: usize, exploding: Exploding, keep_drop: KeepDrop) -> (r:
        Self)
        requires
            die_size > 0,
        ensures
            r.num_dice == num_dice,
            r.die_size == die_size,
            r.exploding == exploding,
            r.keep_drop == keep_drop,
            r.wf(),
    {
        DiceRoll { num_dice, die_size, exploding, keep_drop }
    }
}

} // verus!
