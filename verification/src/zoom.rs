//! The editor's zoom: fit to the window, or a percentage.

use vstd::prelude::*;

verus! {

/// How the picture is shown in the editor.
#[derive(Clone, Copy, PartialEq, Eq, Debug, Structural)]
pub enum Zoom {
    Fit,
    Percent(u32),
}

/// The preset ladder, in percent, lowest first.
pub open spec fn ladder() -> Seq<u32> {
    seq![25u32, 33, 50, 75, 100, 150, 200, 300, 400, 800]
}

/// The first rung of `s` above `base`.
pub open spec fn first_above(s: Seq<u32>, base: u32) -> Option<u32>
    decreases s.len(),
{
    if s.len() == 0 {
        None
    } else if s[0] > base {
        Some(s[0])
    } else {
        first_above(s.drop_first(), base)
    }
}

/// The last rung of `s` below `base`.
pub open spec fn last_below(s: Seq<u32>, base: u32) -> Option<u32>
    decreases s.len(),
{
    if s.len() == 0 {
        None
    } else if s.last() < base {
        Some(s.last())
    } else {
        last_below(s.drop_last(), base)
    }
}

pub open spec fn clamp_spec(v: u32, lo: u32, hi: u32) -> u32 {
    if v < lo {
        lo
    } else if v > hi {
        hi
    } else {
        v
    }
}

impl Zoom {
    /// Zoom steps, in percent. Geometric rather than linear so one notch of the
    /// wheel feels the same at 25% as it does at 400%.
    pub const STEPS: [u32; 10] = [25, 33, 50, 75, 100, 150, 200, 300, 400, 800];

    pub const MIN: u32 = 10;

    pub const MAX: u32 = 1600;

    /// The percentage a step starts from: the one asked for, or for `Fit`
    /// whatever fitting currently works out to.
    pub open spec fn base_spec(self, current_pct: u32) -> u32 {
        match self {
            Zoom::Fit => current_pct,
            Zoom::Percent(p) => p,
        }
    }

    pub fn base(self, current_pct: u32) -> (r: u32)
        ensures
            r == self.base_spec(current_pct),
    {
        match self {
            Zoom::Fit => current_pct,
            Zoom::Percent(p) => p,
        }
    }

    /// A percentage held between [`Zoom::MIN`] and [`Zoom::MAX`], so free
    /// scaling can neither reach zero nor run away.
    pub fn clamped(pct: u32) -> (r: Zoom)
        ensures
            r == Zoom::Percent(clamp_spec(pct, 10, 1600)),
    {
        if pct < Self::MIN {
            Zoom::Percent(Self::MIN)
        } else if pct > Self::MAX {
            Zoom::Percent(Self::MAX)
        } else {
            Zoom::Percent(pct)
        }
    }

    /// The next step up or down the preset ladder; past either end it stays
    /// where it is.
    pub fn stepped(self, current_pct: u32, up: bool) -> (r: Zoom)
        ensures
            ({
                let base = self.base_spec(current_pct);
                let next = if up {
                    first_above(ladder(), base)
                } else {
                    last_below(ladder(), base)
                };
                r == Zoom::Percent(
                    clamp_spec(
                        match next {
                            Some(s) => s,
                            None => base,
                        },
                        10,
                        1600,
                    ),
                )
            }),
    {
        let base = self.base(current_pct);
        let steps = Self::STEPS;
        proof {
            assert(steps@ =~= ladder());
        }
        let mut next: Option<u32> = None;
        if up {
            let mut i: usize = 0;
            assert(ladder().skip(0) =~= ladder());
            while i < 10 && next.is_none()
                invariant
                    i <= 10,
                    steps@ == ladder(),
                    next is None ==> first_above(ladder(), base) == first_above(
                        ladder().skip(i as int),
                        base,
                    ),
                    next is Some ==> next == first_above(ladder(), base),
                decreases 10 - i,
            {
                proof {
                    assert(ladder().skip(i as int).drop_first() =~= ladder().skip(i as int + 1));
                }
                if steps[i] > base {
                    next = Some(steps[i]);
                }
                i = i + 1;
            }
            proof {
                if next is None {
                    assert(ladder().skip(10) =~= Seq::<u32>::empty());
                }
            }
        } else {
            let mut i: usize = 10;
            assert(ladder().take(10) =~= ladder());
            while i > 0 && next.is_none()
                invariant
                    i <= 10,
                    steps@ == ladder(),
                    next is None ==> last_below(ladder(), base) == last_below(
                        ladder().take(i as int),
                        base,
                    ),
                    next is Some ==> next == last_below(ladder(), base),
                decreases i,
            {
                proof {
                    assert(ladder().take(i as int).drop_last() =~= ladder().take(i as int - 1));
                }
                if steps[i - 1] < base {
                    next = Some(steps[i - 1]);
                }
                i = i - 1;
            }
            proof {
                if next is None {
                    assert(ladder().take(0) =~= Seq::<u32>::empty());
                }
            }
        }
        let target = match next {
            Some(s) => s,
            None => base,
        };
        Self::clamped(target)
    }
}

/// Stepping up and then down the ladder from a rung comes back to it.
pub proof fn law_steps_are_reversible(i: int)
    requires
        0 <= i < 9,
    ensures
        ({
            let a = ladder()[i];
            let b = ladder()[i + 1];
            &&& first_above(ladder(), a) == Some(b)
            &&& last_below(ladder(), b) == Some(a)
        }),
{
    reveal_with_fuel(first_above, 11);
    reveal_with_fuel(last_below, 11);
}

} // verus!
