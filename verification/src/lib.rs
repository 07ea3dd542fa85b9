//! A content-ownership registry: content fingerprints are registered once,
//! owned by one account at a time, and admitted through a rule that only the
//! administrator may change.

pub mod account;
pub mod content;
pub mod error;
pub mod gate;
pub mod history;
pub mod laws;
pub mod listing;
pub mod model;
pub mod registry;

pub use account::AccountId;
pub use content::Content;
pub use error::Error;
pub use gate::Gate;
pub use registry::ContentOwnership;
