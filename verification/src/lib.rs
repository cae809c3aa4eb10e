//! Verified decision logic of a 2D planet sandbox: planets are formed by
//! clicking, attract one another, and the larger of two touching planets
//! absorbs the smaller one.

pub mod controls;
pub mod absorption;
pub mod texture;
pub mod ui;
