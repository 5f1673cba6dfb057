//! A small DNS name server core: the message wire codec, the hierarchical
//! host cache, and the rule that turns a query into a reply.
//!
//! Every executable function carries a contract stated over mathematical
//! models (byte sequences, label sequences, maps), and Verus proves the
//! contracts and the laws that relate them.

pub mod buffer;
pub mod cache;
pub mod codes;
pub mod domain;
pub mod flags;
pub mod message;
pub mod question;
pub mod record;
pub mod resolver;
pub mod streams;
