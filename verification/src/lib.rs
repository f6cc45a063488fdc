//! A planner for factory layouts in the game Satisfactory.
//!
//! The library holds the game database (items, buildings and recipes), the
//! validation of a plan request against that database, the construction
//! of the graph of every way the requested outputs can be produced, together
//! with the pruning of the branches that cannot be realised, and the linear
//! program over that graph whose solution is the plan.
//!
//! Amounts (rates per minute, craft times, power figures) are carried with a
//! type parameter `A`: the library never computes with them, it only moves
//! them and reads the sign that is recorded next to each amount.

pub mod game;
pub mod plan;
pub mod text;

mod checks;
