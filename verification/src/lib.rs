//! Radio buttons and radio groups for a retained view tree: the rules by which a
//! group provides the selected value to the buttons below it, and by which each
//! button reads, shows and changes that value.

pub mod listeners;
pub mod environment;
pub mod radio;
pub mod laws;
