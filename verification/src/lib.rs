//! A verified core for a small chat client.
//!
//! The crate models the client's state (roster, message feed, dark-mode
//! flag), the update rules that react to UI events and inbound socket
//! frames, and the JSON envelope that frames traffic on the wire.  An
//! unverified shell owns the actual socket and the DOM; it hands this
//! library plain strings and applies the effects the library decides on.

pub mod chat;
pub mod envelope;
pub mod json;
pub mod ui;
