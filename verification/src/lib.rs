//! A User-Agent filter: inspects the `User-Agent` header value of an incoming
//! request and decides whether the request may proceed or must be rejected.
//!
//! Requests from a `Firefox-iOS-Sync` client whose major version is below the
//! supported threshold are rejected; every other request passes, including
//! those with a missing or unrecognized header (the filter fails open).

pub mod gate;
pub mod pattern;
pub mod scan;

pub use gate::Decision;
pub use gate::RejectOldIos;
pub use gate::evaluate;
pub use gate::rejection_body;
pub use gate::should_reject;
pub use gate::REJECTION_STATUS;
pub use pattern::UaParts;
pub use pattern::spec_matches;
pub use pattern::spec_should_reject;
pub use pattern::MIN_SUPPORTED_MAJOR;
