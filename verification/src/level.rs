//! Bytecode optimization levels.
//!
//! A small closed set of levels with exact conversions from and to the
//! integer flag value they stand for.

use vstd::prelude::*;

verus! {

/// An optimization level for Python bytecode.
#[derive(Clone, Copy, Debug, PartialEq, Eq, Structural)]
pub enum BytecodeOptimizationLevel {
    Zero,
    One,
    Two,
}

impl BytecodeOptimizationLevel {
    /// Parse a level from its integer flag value; only 0, 1 and 2 are levels.
    pub fn try_from(i: i32) -> (r: Result<BytecodeOptimizationLevel, &'static str>)
        ensures
            i == 0 ==> r == Ok::<BytecodeOptimizationLevel, &'static str>(
                BytecodeOptimizationLevel::Zero,
            ),
            i == 1 ==> r == Ok::<BytecodeOptimizationLevel, &'static str>(
                BytecodeOptimizationLevel::One,
            ),
            i == 2 ==> r == Ok::<BytecodeOptimizationLevel, &'static str>(
                BytecodeOptimizationLevel::Two,
            ),
            !(0 <= i <= 2) ==> (r matches Err(m)
                && m@ == "unsupported bytecode optimization level"@),
    {
        match i {
            0 => Ok(BytecodeOptimizationLevel::Zero),
            1 => Ok(BytecodeOptimizationLevel::One),
            2 => Ok(BytecodeOptimizationLevel::Two),
            _ => Err("unsupported bytecode optimization level"),
        }
    }

    /// The integer flag value of this level.
    pub fn to_i32(&self) -> (r: i32)
        ensures
            *self == BytecodeOptimizationLevel::Zero ==> r == 0,
            *self == BytecodeOptimizationLevel::One ==> r == 1,
            *self == BytecodeOptimizationLevel::Two ==> r == 2,
    {
        match self {
            BytecodeOptimizationLevel::Zero => 0,
            BytecodeOptimizationLevel::One => 1,
            BytecodeOptimizationLevel::Two => 2,
        }
    }
}

} // verus!
