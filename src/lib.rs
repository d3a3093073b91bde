//! A peer-to-peer post propagation network with an embedded trust graph:
//! signed posts, per-peer fan-out with duplicate suppression, Elo-style peer
//! ratings, and a blessing protocol that admits two-hop peers.

pub mod blessing;
pub mod bytes;
pub mod crypto;
pub mod db;
pub mod elo;
pub mod error;
pub mod events;
pub mod laws;
pub mod post;
pub mod record;
pub mod score;
pub mod search;
pub mod share;
pub mod store;

pub use blessing::TrustRequest;
pub use crypto::{get_epoch, sha256};
pub use db::{NodeDB, Tables};
pub use error::CoreError;
pub use post::{IncomingPost, Node, OutgoingPost, Path, PostId, RawPost, Us};
pub use score::RecommendedAction;
