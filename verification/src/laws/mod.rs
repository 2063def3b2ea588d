//! What holds of the library as a whole.

pub mod accounting;
pub mod choice;
pub mod closing;
pub mod course;
pub mod custody;
pub mod general_blocks;
pub mod host_memory;
pub mod life;
pub mod mapping;
pub mod outcome;
pub mod round_trip;
pub mod search_order;
pub mod selection;
pub mod separation;
pub mod tidiness;
pub mod upkeep;
