//! Secure dual-channel mission transfer core.
//!
//! A ground station delivers signed, encrypted mission plans to a drone over
//! two physically decoupled side-channels (a wide visual channel and a narrow
//! acoustic channel) that must corroborate the same session within a bounded
//! time window before any mission bytes are accepted.  The crate holds the
//! cryptographic session core, the channel codecs, the temporal coupling
//! validator, the transfer state machines, the authorization predicate and
//! the signed append-only audit log with compliance evaluation.

pub mod audit;
pub mod authz;
pub mod compliance;
pub mod crypto;
pub mod frames;
pub mod logging;
pub mod mission;
pub mod operator;
pub mod session;
pub mod transfer;
pub mod validator;
pub mod wire;

pub use audit::AuditSystem;
pub use authz::SecurityManager;
pub use compliance::ComplianceEngine;
pub use crypto::CryptoEngine;
pub use crypto::CryptoError;
pub use frames::BindingFrame;
pub use frames::VisualFrame;
pub use logging::SignedLogger;
pub use mission::MissionPayload;
pub use session::EphemeralKeySession;
pub use transfer::EncryptedMissionPayload;
pub use transfer::MissionDrone;
pub use transfer::MissionStation;
pub use validator::ChannelValidator;
