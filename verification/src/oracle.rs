use vstd::prelude::*;

verus! {

/// What the oracle can answer when shown a pair.
#[derive(Clone, Copy, Debug, PartialEq, Eq, Structural)]
pub enum Answer {
    Left,
    Equal,
    Right,
}

/// The outcome model the rating update understands.  It has no draw, so
/// an `Equal` answer is folded into a win for the right-hand item.
#[derive(Clone, Copy, Debug, PartialEq, Eq, Structural)]
pub enum Outcome {
    LeftWins,
    RightWins,
}

/// Translates an oracle answer into the win/loss outcome model: only an
/// answer of `Left` counts as a win for the left item; `Equal` and
/// `Right` are treated identically.
pub fn outcome_of_answer(a: Answer) -> (r: Outcome)
    ensures
        r == (match a {
            Answer::Left => Outcome::LeftWins,
            _ => Outcome::RightWins,
        }),
{
    match a {
        Answer::Left => Outcome::LeftWins,
        Answer::Equal => Outcome::RightWins,
        Answer::Right => Outcome::RightWins,
    }
}

} // verus!
