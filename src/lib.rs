//! Reconciliation of transfer notifications into a holder's wallet.
//!
//! Payloads from a node's event stream are decoded into notifications, the
//! transfers they carry are unpacked into cash notes, the notes are laid out
//! as files named by their content address, and their values are deposited
//! exactly once into a ledger.

pub mod note;
pub mod address;
pub mod event;
pub mod ledger;
pub mod store;
pub mod reconcile;
