//! Nonce-sequenced batch preparation and attribution of concurrent submissions.
//!
//! A batch of self-transfers is prepared strictly in index order, each item taking
//! the starting nonce plus its index, and then submitted all at once. The pieces
//! that decide anything (the intent builder, the gas price policy, the nonce walk,
//! the fan-in of submission results) live here with their contracts; the network
//! calls and the task pool are left to the caller.
use vstd::prelude::*;

pub mod dispatch;
pub mod intent;
pub mod prepare;
