use vstd::prelude::*;

verus! {

/// The four difficulty settings the remote puzzle service offers.
#[derive(Copy, Clone, Debug, PartialEq, Eq, Structural)]
pub enum Difficulty {
    Easy,
    Medium,
    Hard,
    Evil,
}

/// The numeric level that stands for each difficulty in the service's
/// request URL: 1 for the easiest through 4 for the hardest.
pub open spec fn spec_level(d: Difficulty) -> u8 {
    match d {
        Difficulty::Easy => 1,
        Difficulty::Medium => 2,
        Difficulty::Hard => 3,
        Difficulty::Evil => 4,
    }
}

/// The display name of each difficulty.
pub open spec fn spec_name(d: Difficulty) -> Seq<char> {
    match d {
        Difficulty::Easy => "Easy"@,
        Difficulty::Medium => "Medium"@,
        Difficulty::Hard => "Hard"@,
        Difficulty::Evil => "Evil"@,
    }
}

impl Difficulty {
    /// The numeric level the request URL carries for this difficulty.
    pub fn level(self) -> (r: u8)
        ensures
            r == spec_level(self),
    {
        match self {
            Difficulty::Easy => 1,
            Difficulty::Medium => 2,
            Difficulty::Hard => 3,
            Difficulty::Evil => 4,
        }
    }

    /// The display name of this difficulty, used by callers that label output
    /// after the puzzle.
    pub fn name(self) -> (r: &'static str)
        ensures
            r@ == spec_name(self),
    {
        match self {
            Difficulty::Easy => "Easy",
            Difficulty::Medium => "Medium",
            Difficulty::Hard => "Hard",
            Difficulty::Evil => "Evil",
        }
    }
}

impl Default for Difficulty {
    /// The difficulty assumed when the caller names none.
    fn default() -> (r: Self)
        ensures
            r == Difficulty::Evil,
    {
        Difficulty::Evil
    }
}

} // verus!
