//! An attribute modifier attached to one combatant's per-attribute list.

use vstd::prelude::*;

use crate::lifetime::Lifetime;

verus! {

/// `Add` shifts the attribute by a signed amount; `Multiply` scales it by a
/// whole factor. The precise evaluation order is fixed in
/// [`crate::combatant::effective_attribute`].
#[derive(Clone, Copy, Debug, Eq, PartialEq, Structural)]
pub enum ModifierExpression {
    Add(i64),
    Multiply(u64),
}

#[derive(Clone, Copy, Debug, Eq, PartialEq, Structural)]
pub struct Modifier {
    pub expression: ModifierExpression,
    pub lifetime: Lifetime,
}

} // verus!
