//! The rules of a forwarder that moves public TCP connections to private sockets.
//!
//! The public side accepts connections, and puts in front of each a PROXY protocol header
//! that says between which addresses it runs ([`public_side`], [`listener`]). The private
//! side reads that header, and routes the stream by the port on which it was accepted
//! ([`private_side`], [`port_mapping`]). The two know each other by their keys ([`keys`]).
pub mod address_laws;
pub mod address_text;
pub mod error;
pub mod forwarding_laws;
pub mod keys;
pub mod listener;
pub mod port_mapping;
pub mod private_side;
pub mod public_side;
pub mod rule_laws;
pub mod socket_addr;
pub mod spelling_laws;
pub mod text;
pub mod text_laws;
pub mod wire_laws;
