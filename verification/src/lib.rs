//! A userspace networking stack over AF_XDP.
//!
//! Packets bypass the kernel stack, land in a UMEM region shared with the
//! driver, and are reassembled (TCP) or unwrapped (UDP) here. This crate holds
//! the decisions: frame and ring bookkeeping, header layout, flow keys, the
//! send and receive rules of both transports, and the chat client on top.
//! System calls, shared memory and the terminal belong to the caller.

pub mod addr;
pub mod bench;
pub mod frame;
pub mod irc;
pub mod laws;
pub mod net;
pub mod pipe;
pub mod queue;
pub mod ring;
pub mod socket;
pub mod tcp;
pub mod text;
pub mod udp;
pub mod ui;
pub mod wire;
pub mod xsk;
