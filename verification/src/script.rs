//! The typed script lines the analyzer consumes.
//!
//! A script is a finite, already-parsed sequence of lines.  Only a
//! [`FrameBulk`] carries timing data: a frame time written as text (its exact
//! decimal spelling), a repetition count, and an optional leave-ground
//! action whose duck-tap variant may be flagged zero-ms.  Every other line
//! kind is either counted or ignored.

use vstd::prelude::*;

verus! {

/// The automatic leave-ground action a frame bulk may carry.
#[derive(Clone, Copy, Debug)]
pub enum LeaveGround {
    Jump,
    DuckTap { zero_ms: bool },
}

/// A repeated movement instruction: `frame_count` frames of `frame_time`
/// seconds each, with `frame_time` kept as the exact text it was written as.
#[derive(Clone, Debug)]
pub struct FrameBulk {
    pub frame_time: String,
    pub frame_count: u32,
    pub leave_ground: Option<LeaveGround>,
}

impl FrameBulk {
    /// The line models repeated zero-ms duck-taps: a leave-ground action is
    /// present, it is the duck-tap variant, and its flag is set.
    pub open spec fn zero_ms_ducktap(self) -> bool {
        match self.leave_ground {
            Some(LeaveGround::DuckTap { zero_ms }) => zero_ms,
            _ => false,
        }
    }
}

/// One script line.  `FrameBulk` feeds the timing accumulator; the two
/// vectorial-strafing kinds are ignored; each remaining kind has a counter.
#[derive(Clone, Debug)]
pub enum Line {
    FrameBulk(FrameBulk),
    Save,
    SharedSeed,
    Buttons,
    LgagstMinSpeed,
    Reset,
    Comment,
    VectorialStrafing,
    VectorialStrafingConstraints,
    Change,
    TargetYawOverride,
}

/// A whole script: the optional zero-ms frame-time property (as text) and
/// the ordered line sequence.
#[derive(Clone, Debug)]
pub struct Script {
    pub frametime_0ms: Option<String>,
    pub lines: Vec<Line>,
}

/// Executable twin of [`FrameBulk::zero_ms_ducktap`].
pub fn is_zero_ms_ducktap(fb: &FrameBulk) -> (r: bool)
    ensures
        r == fb.zero_ms_ducktap(),
{
    match &fb.leave_ground {
        Some(LeaveGround::DuckTap { zero_ms }) => *zero_ms,
        _ => false,
    }
}

} // verus!
