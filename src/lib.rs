//! The tab registry that a terminal workspace server shares between its
//! clients, and the rules by which the process brings its sessions up.

pub mod registry;
pub mod startup;
pub mod tab;
