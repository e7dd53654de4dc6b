//! Access-point selection and connection-state engine.
//!
//! The library ranks observed Wi-Fi access points by how they behaved in the
//! past, keeps a shared ranked list of candidates, merges fresh scan results
//! into it without losing outcome history, and drives the decisions of the
//! connect loop and of the policy monitor that schedules rescans and persists
//! the best-known candidate. All radio, storage and timer work stays outside;
//! the library computes, from plain values, what those loops should do next.

pub mod candidate;
pub mod credentials;
pub mod machine;
pub mod mailbox;
pub mod monitor;
pub mod scan;
pub mod sorting;
pub mod store;

pub use candidate::ConnectOutcome;
pub use candidate::WifiConfig;
pub use credentials::Credential;
pub use scan::scan_and_score_wgs;
