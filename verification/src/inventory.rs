//! A shirt give-away: a preference wins, and otherwise the most stocked
//! colour.

use vstd::prelude::*;

verus! {

/// The two colours the inventory stocks.
#[derive(Debug, PartialEq, Eq, Clone, Copy, Structural)]
pub enum ShirtColor {
    Red,
    Blue,
}

/// How many shirts in `s` are red.
pub open spec fn red_count(s: Seq<ShirtColor>) -> nat
    decreases s.len(),
{
    if s.len() == 0 {
        0
    } else {
        red_count(s.drop_last()) + (if s.last() == ShirtColor::Red {
            1nat
        } else {
            0nat
        })
    }
}

/// How many shirts in `s` are blue.
pub open spec fn blue_count(s: Seq<ShirtColor>) -> nat
    decreases s.len(),
{
    if s.len() == 0 {
        0
    } else {
        blue_count(s.drop_last()) + (if s.last() == ShirtColor::Blue {
            1nat
        } else {
            0nat
        })
    }
}

/// The colour occurring most often: red only when red shirts strictly
/// outnumber blue ones, so a tie — and an empty stock — goes to blue.
pub open spec fn most_stocked_spec(s: Seq<ShirtColor>) -> ShirtColor {
    if red_count(s) > blue_count(s) {
        ShirtColor::Red
    } else {
        ShirtColor::Blue
    }
}

/// A stock of shirts.
pub struct Inventory {
    /// The shirts on hand, in stocking order.
    pub shirts: Vec<ShirtColor>,
}

impl Inventory {
    /// The colour handed out: the user's preference when one is given, and
    /// otherwise the most stocked colour.
    pub fn giveaway(&self, user_preference: Option<ShirtColor>) -> (c: ShirtColor)
        ensures
            c == match user_preference {
                Option::Some(p) => p,
                Option::None => most_stocked_spec(self.shirts@),
            },
    {
        match user_preference {
            Option::Some(p) => p,
            Option::None => self.most_stocked(),
        }
    }

    /// Count the shirts of each colour and name the one with more, ties
    /// going to blue.
    pub fn most_stocked(&self) -> (c: ShirtColor)
        ensures
            c == most_stocked_spec(self.shirts@),
    {
        let n = self.shirts.len();
        let mut num_red: usize = 0;
        let mut num_blue: usize = 0;
        let mut i: usize = 0;
        proof {
            assert(self.shirts@.subrange(0, 0) =~= Seq::<ShirtColor>::empty());
        }
        while i < n
            invariant
                i <= n,
                n == self.shirts@.len(),
                num_red <= i,
                num_blue <= i,
                red_count(self.shirts@.subrange(0, i as int)) == num_red,
                blue_count(self.shirts@.subrange(0, i as int)) == num_blue,
            decreases n - i,
        {
            let ghost prefix: Seq<ShirtColor> = self.shirts@.subrange(0, i as int);
            let ghost prefix2: Seq<ShirtColor> = self.shirts@.subrange(0, i as int + 1);
            proof {
                assert(prefix2.drop_last() =~= prefix);
            }
            match self.shirts[i] {
                ShirtColor::Red => {
                    num_red = num_red + 1;
                },
                ShirtColor::Blue => {
                    num_blue = num_blue + 1;
                },
            }
            i = i + 1;
        }
        proof {
            assert(self.shirts@.subrange(0, n as int) =~= self.shirts@);
        }
        if num_red > num_blue {
            ShirtColor::Red
        } else {
            ShirtColor::Blue
        }
    }
}

} // verus!
