//! The playback and mixing core of a multi-track audio engine.
pub mod config;
pub mod decode;
pub mod engine;
pub mod greet;
pub mod render;
pub mod resample;
pub mod store;
pub mod timeline;
pub mod timing;
use vstd::prelude::*;

verus! {

/// Adds two numbers: what a front end calls to try its binding. The sum must
/// fit the result.
pub fn my_add(x: i32, y: i32) -> (sum: i32)
    requires
        i32::MIN <= x + y <= i32::MAX,
    ensures
        sum == x + y,
{
    x + y
}

} // verus!
