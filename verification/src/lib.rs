//! Chimera: the verified core of a censorship-resistant TCP tunnelling
//! proxy.
//!
//! A client accepts SOCKS5 connections, multiplexes them as streams onto
//! one encrypted session whose handshake is disguised as HTTP, and a server
//! dials the destinations on the client's behalf. This crate holds the
//! rules of that tunnel, each with a contract that Verus proves:
//!
//! - [`protocol`]: the multiplexing frame and its codec;
//! - [`tunnel`]: frames out of records, and their dispatch to an engine;
//! - [`client_proxy`], [`server_proxy`], [`stream`]: the two engines that
//!   end the streams, and what a stream's socket says to the tunnel;
//! - [`handshake`]: the key exchange and the encrypted session;
//! - [`mimic`]: the HTTP envelope of the handshake;
//! - [`crypto`]: key agreement, nonces and record sealing;
//! - [`router`]: the path scorer;
//! - [`supervisor`], [`node`]: the client's reconnection rules and the
//!   server's transports;
//! - [`socks`]: the SOCKS5 greeting;
//! - [`transport`], [`system`]: what is known of the transports and of
//!   the system proxy setting;
//! - [`buffers`], [`text`]: what is taken on trust of `bytes` and of
//!   `String::from_utf8`, and small helpers.
//!
//! Nothing here does I/O. Sockets, channels, timers and processes belong
//! to the program around the library, which is told what to do and reports
//! what happened.
//!
//! Cryptography is *ring*'s, base64 the `base64` crate's, buffers the
//! `bytes` crate's. What the proofs assume of them is stated where they are
//! called and is not proved.

pub mod buffers;
pub mod client_proxy;
pub mod crypto;
pub mod handshake;
pub mod mimic;
pub mod node;
pub mod protocol;
pub mod router;
pub mod server_proxy;
pub mod socks;
pub mod stream;
pub mod supervisor;
pub mod system;
pub mod text;
pub mod transport;
pub mod tunnel;
