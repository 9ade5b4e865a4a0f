//! How long a damage-over-time instance or an attribute modifier stays
//! attached. A tick is one processed combat event.

use vstd::prelude::*;

verus! {

#[derive(Clone, Copy, Debug, Eq, PartialEq, Structural)]
pub enum Lifetime {
    Active { duration: u32 },
    Constant,
}

/// One tick of a lifetime: an `Active` duration above zero is decremented,
/// everything else is left alone. Reaching zero does not detach the effect;
/// an expired entry keeps applying on every later tick.
pub open spec fn lifetime_ticked(lifetime: Lifetime) -> Lifetime {
    match lifetime {
        Lifetime::Active { duration } => {
            if duration > 0 {
                Lifetime::Active { duration: (duration - 1) as u32 }
            } else {
                Lifetime::Active { duration }
            }
        },
        Lifetime::Constant => Lifetime::Constant,
    }
}

impl Lifetime {
    pub fn tick(&mut self)
        ensures
            *final(self) == lifetime_ticked(*old(self)),
    {
        match self {
            Lifetime::Active { duration } => {
                if *duration > 0 {
                    *duration = *duration - 1;
                }
            },
            Lifetime::Constant => (),
        }
    }
}

} // verus!
