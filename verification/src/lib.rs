//! Server-side coordination engine for end-to-end encrypted shared folders.
//!
//! The server stores encrypted file blobs and encrypted per-folder metadata in
//! an object store, routes group key-agreement messages between folder members
//! through per-recipient FIFO queues, and hands out single-use key packages.
//! It never sees plaintext or folder keys.
//!
//! This crate holds the verified core: the relational state (users, folders,
//! memberships, message queues, key packages), the object-store model with
//! optimistic concurrency over the metadata object, and the request surface
//! that maps authenticated calls onto both under access-control checks.
//! Identity comes from X.509 client certificates; their parsing stands
//! behind the trusted wrappers of [`crypto`], and everything decided on the
//! extracted emails is verified.  Network transport, TLS termination and the
//! real database and object-store backends live outside the crate and hand
//! plain values in and out.

pub mod crypto;
pub mod db;
pub mod decimal;
pub mod errors;
pub mod metadata;
pub mod pki;
pub mod queue;
pub mod rows;
pub mod server;
pub mod storage;

pub use errors::DbError;
pub use errors::StoreError;
