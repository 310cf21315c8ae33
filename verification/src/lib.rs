//! A lazily generated, effectively infinite tile world: rectangular areas
//! linked in the four cardinal directions, a per-area navigation graph of
//! anchors, A*-based path planning, and a goal-driven mover state machine.

pub mod anchors;
pub mod components;
pub mod game_state;
pub mod rng;
pub mod search;
pub mod systems;
