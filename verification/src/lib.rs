//! The core of a real-time flocking simulation.
//!
//! A population of agents moves under the three classic flocking rules:
//! separation, alignment and cohesion. The [`engine`] advances all agents
//! one tick at a time, finding each agent's surroundings through a uniform
//! [`grid`], steering it by the rules of [`flock`] and integrating it as
//! [`motion`] says. After every tick that went well it makes a new
//! [`snapshot`]; the query service of [`server`] answers requests from the
//! snapshot most recently published.
//!
//! All quantities are [`fixed`]-point integers, so every result is exact
//! and the same on every machine. A value that leaves the finite range is a
//! numerical anomaly: the tick that meets one is discarded as a whole.

pub mod agent;
pub mod engine;
pub mod fixed;
pub mod flock;
pub mod grid;
pub mod motion;
pub mod server;
pub mod snapshot;
pub mod vec3;
