//! The building the way an entry team sees it: a structure made of rooms, the
//! contacts inside them, the readings that report them, and the picture that
//! brings them together.

pub mod contact;
pub mod laws;
pub mod picture;
pub mod reading;
pub mod structure;
