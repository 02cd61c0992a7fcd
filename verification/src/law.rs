//! What holds of the library from outside.
//!
//! The contracts say what each function does, in spec functions made for them.
//! The laws here say what that comes to, in words of their own: a packet is read
//! by the positions of its bytes, a property section is spelled from a list of
//! properties, a topic is compared level by level, and what a transport took is
//! the bytes it took. No number in them is a named constant of the code they
//! speak of.

pub mod plain;
pub mod outgoing;
pub mod messages;
pub mod topics;
pub mod grammar;
pub mod sections;
pub mod incoming;
pub mod transport;
pub mod alive;
pub mod records;
pub mod dialogue;
pub mod rules;
pub mod calls;
pub mod opening;
