//! The fifteen object balls: their numbers and whether they are striped.
use vstd::prelude::*;

use crate::ball::is_stripe_number;

verus! {

/// Identity of one object ball. The presentation layer maps the
/// number to a display color.
#[derive(Clone, Copy, Debug, PartialEq, Eq, Structural)]
pub struct BallDefinition {
    pub number: u8,
    pub is_striped: bool,
}

/// The standard set: balls 1-15, of which 9-15 are striped.
pub fn get_ball_definitions() -> (r: Vec<BallDefinition>)
    ensures
        r@.len() == 15,
        forall|i: int|
            0 <= i < 15 ==> r@[i] == (BallDefinition {
                number: (i + 1) as u8,
                is_striped: is_stripe_number((i + 1) as u8),
            }),
{
    let mut defs: Vec<BallDefinition> = Vec::new();
    let mut n: u8 = 1;
    while n <= 15
        invariant
            1 <= n <= 16,
            defs@.len() == n - 1,
            forall|i: int|
                0 <= i < n - 1 ==> defs@[i] == (BallDefinition {
                    number: (i + 1) as u8,
                    is_striped: is_stripe_number((i + 1) as u8),
                }),
        decreases 16 - n,
    {
        defs.push(BallDefinition { number: n, is_striped: n >= 9 });
        n = n + 1;
    }
    defs
}

} // verus!
