//! Guest-side runtime support for programs that run inside a sandboxed
//! virtual machine and exchange data with a host process across a
//! word-sized calling boundary.
//!
//! The crate provides four pieces, leaves first:
//!
//! * a pointer codec that packs an (address, length) pair into a single
//!   64-bit word ([`memory::to_smart_ptr`], [`memory::split_smart_ptr`]);
//! * a guest allocator, modelled as an explicit heap value
//!   ([`memory::GuestHeap`]), that hands out and reclaims the buffers the
//!   host writes into;
//! * a bridge over the host's three storage primitives (`put`, `get`,
//!   `delete`), exercised against [`host::HostStore`], a verified
//!   reference model of the host side of the boundary;
//! * a per-session key/value cache ([`state::State`]) with read-through
//!   caching and deferred, exactly-once write flushing.

pub mod host;
pub mod kv;
pub mod memory;
pub mod program;
pub mod state;
