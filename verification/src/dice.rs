//! Plain dice: every die is rolled once, a 1 is a glitch, and any other face
//! is the value of the roll. The dice have four to twelve sides.

use crate::engine::{
    all_wf, can_roll, outcome, parsed, reply_of, rolls_of, GameDie,
};
use crate::report::{die_label, write_die};
use vstd::prelude::*;

verus! {

/// The number of sides of the biggest die of this game.
pub const LARGEST_SIDES: u64 = 12;

/// A die of this game.
#[derive(Debug, Clone, Copy, PartialEq, Eq, PartialOrd, Ord, Structural)]
pub enum Die {
    D4,
    D6,
    D8,
    D10,
    D12,
}

/// What rolling one die came to.
pub type Roll = crate::engine::Roll<Die>;

/// How a pool of rolls is read.
pub type CortexResult = crate::engine::FinalResult<Die>;

/// The rolls of a request.
pub type RollResult = crate::engine::RollResult<Die>;

/// The dice of a request.
pub type DiceRollRequest = crate::engine::DiceRollRequest<Die>;

impl Die {
    /// The number of faces.
    pub open spec fn spec_sides(self) -> u64 {
        match self {
            Die::D4 => 4,
            Die::D6 => 6,
            Die::D8 => 8,
            Die::D10 => 10,
            Die::D12 => 12,
        }
    }

    /// The next bigger die; the biggest die stays what it is.
    pub open spec fn spec_bump_up(self) -> Die {
        match self {
            Die::D4 => Die::D6,
            Die::D6 => Die::D8,
            Die::D8 => Die::D10,
            Die::D10 => Die::D12,
            Die::D12 => Die::D12,
        }
    }

    /// The die with that many sides, where there is one.
    pub open spec fn of_sides(sides: int) -> Option<Die> {
        if sides == 4 {
            Some(Die::D4)
        } else if sides == 6 {
            Some(Die::D6)
        } else if sides == 8 {
            Some(Die::D8)
        } else if sides == 10 {
            Some(Die::D10)
        } else if sides == 12 {
            Some(Die::D12)
        } else {
            None
        }
    }

    /// How the die is written: a `d` and the number of its faces.
    pub open spec fn label(self) -> Seq<char> {
        die_label(self.sides() as nat)
    }

    /// The number of faces.
    #[verifier::when_used_as_spec(spec_sides)]
    pub fn sides(self) -> (n: u64)
        ensures
            n == self.spec_sides(),
    {
        match self {
            Die::D4 => 4,
            Die::D6 => 6,
            Die::D8 => 8,
            Die::D10 => 10,
            Die::D12 => 12,
        }
    }

    /// The next bigger die; the biggest die stays what it is.
    #[verifier::when_used_as_spec(spec_bump_up)]
    pub fn bump_up(self) -> (next: Die)
        ensures
            next == self.spec_bump_up(),
    {
        match self {
            Die::D4 => Die::D6,
            Die::D6 => Die::D8,
            Die::D8 => Die::D10,
            Die::D10 => Die::D12,
            Die::D12 => Die::D12,
        }
    }

    /// The die as it is written, `d6` for one.
    pub fn to_string(&self) -> (text: String)
        ensures
            text@ == self.label(),
    {
        write_die(self.sides())
    }

    /// Rolls the die. Every face is a fresh throw. What comes back
    /// is the outcome of some faces that the dice can show.
    pub fn roll(self) -> (roll: Roll)
        ensures
            can_roll(self, roll),
            roll.wf(),
            roll.die() == self,
    {
        crate::engine::roll(self)
    }

    /// Rolls the die with chance taken out: the dice show `faces`, in turn,
    /// the first on this die. `None` where a face is missing or is not a
    /// face of the die that is to show it.
    pub fn roll_with(self, faces: &Vec<u64>) -> (roll: Option<Roll>)
        ensures
            roll == outcome(self, faces@),
    {
        crate::engine::roll_with(self, faces)
    }
}

impl GameDie for Die {
    open spec fn faces(self) -> u64 {
        self.spec_sides()
    }

    open spec fn above(self) -> Die {
        self.spec_bump_up()
    }

    open spec fn of_faces(sides: int) -> Option<Die> {
        Die::of_sides(sides)
    }

    open spec fn most_faces() -> u64 {
        LARGEST_SIDES
    }

    open spec fn smallest() -> Die {
        Die::D4
    }

    open spec fn shimmering() -> bool {
        false
    }

    proof fn lemma_die(die: Die) {
    }

    proof fn lemma_sides(sides: int) {
    }

    fn count_faces(self) -> (n: u64) {
        self.sides()
    }

    fn step_up(self) -> (next: Die) {
        self.bump_up()
    }

    fn with_faces(sides: u64) -> (die: Option<Die>) {
        if sides == 4 {
            Some(Die::D4)
        } else if sides == 6 {
            Some(Die::D6)
        } else if sides == 8 {
            Some(Die::D8)
        } else if sides == 10 {
            Some(Die::D10)
        } else if sides == 12 {
            Some(Die::D12)
        } else {
            None
        }
    }

    fn most() -> (sides: u64) {
        LARGEST_SIDES
    }

    fn least() -> (die: Die) {
        Die::D4
    }

    fn shimmers() -> (b: bool) {
        false
    }
}

/// The reply to an expression whose dice came to `rolls`: the expression
/// and the rolls in full, or the expression and the short summary where the
/// former would be too long.
pub fn reply(expression: &str, rolls: &RollResult) -> (text: String)
    requires
        rolls.wf(),
    ensures
        text@ == reply_of(expression@, rolls@),
{
    crate::engine::reply(expression, rolls)
}

/// Answers a request to roll dice of this game. An expression that cannot be
/// read is answered with the complaint about it, and no die is rolled.
/// Otherwise the dice are rolled, and the answer is the reply to what they
/// came to.
pub fn get_response(dice: &String) -> (response: String)
    ensures
        match parsed::<Die>(dice@) {
            Err(complaint) => response@ == complaint,
            Ok(asked) => exists|rolls: Seq<Roll>|
                rolls_of(asked, rolls) && all_wf(rolls) && response@ == reply_of(dice@, rolls),
        },
{
    crate::engine::get_response::<Die>(dice)
}

} // verus!
