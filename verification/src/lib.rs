//! Growth simulation engine for a mycelium-style generative animation.
//!
//! A population of growth agents, each anchored at a centre point, grows
//! directed filaments toward every other agent's centre. Filaments advance
//! tick by tick via a biased random walk until they reach their target, at
//! which point they freeze; agents whose filaments have all finished are
//! retired and replaced, keeping the population size constant.
//!
//! All geometry is carried in fixed-point integers: one display unit is
//! [`math::SCALE`] coordinate steps. Rendering, windowing and frame capture
//! are external collaborators and are not part of this crate.

pub mod circles;
pub mod config;
pub mod growth;
pub mod helpers;
pub mod math;
pub mod population;
pub mod vec2;
