//! Decision core of a loopback gateway that asks a System One service which
//! tool a coding agent should call next, and otherwise passes chat requests
//! through to the upstream model.

pub mod config;
pub mod decide;
pub mod error;
pub mod handlers;
pub mod json;
pub mod laya;
pub mod pattern;
pub mod stats;
pub mod text;
