//! A peer-to-peer encrypted chat protocol layer: the wire envelope format,
//! per-topic authenticated encryption, shareable join tickets, the
//! ownership-based cooperative-deletion state machine, and a bounded local
//! chat history, all specified and verified; the broadcast substrate and
//! the terminal are left to the surrounding program.

pub mod crypto;
pub mod history;
pub mod ids;
pub mod ticket;
pub mod tracker;
pub mod util;
pub mod wire;
