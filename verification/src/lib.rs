//! Tracks the live state of a set of remote game servers.
//!
//! Successive full-state snapshots of the server directory are diffed into
//! discrete domain events (a server came online or went offline, a client
//! joined or left a server), which are fanned out to any number of live
//! subscribers through a bounded broadcast bus.

pub mod bus;
pub mod differ;
pub mod engine;
pub mod session;
pub mod snapshot;
pub mod structures;
pub mod wire;

pub use bus::Envelope;
pub use bus::EventBus;
pub use bus::RecvOutcome;
pub use bus::Subscription;
pub use engine::Engine;
pub use engine::FetchError;
pub use snapshot::ServerListMap;
pub use structures::Client;
pub use structures::Info;
pub use structures::MapInfo;
pub use structures::MasterEvent;
pub use structures::Server;
pub use structures::ServerList;
pub use structures::Skin;
