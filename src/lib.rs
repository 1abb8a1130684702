//! An account ledger served over a fixed-layout binary protocol.
//!
//! The library holds the records exchanged on the wire and stored on disk
//! (`records`), their byte encodings (`codec`), the per-account ledger and
//! its snapshots (`client`), the fixed account set and the one-datagram
//! service step (`store`), the caller's side that builds requests and reads
//! replies (`backend`), and the HTTP routing and responses of the
//! text-facing side (`route`, `http`).

pub mod records;
pub mod codec;
pub mod client;
pub mod store;
pub mod backend;
pub mod route;
pub mod http;
pub mod request;
