pub mod text;
pub mod path;
pub mod path_order;
pub mod pathmap;
pub mod scan;
pub mod diff;
pub mod reconcile;
pub mod guarantees;
pub mod plan;
pub mod error;
pub mod transport;
pub mod transfer;
pub mod remote;
pub mod responder;
pub mod session;
pub mod apply;
pub mod engine;
pub mod identity;
pub mod wire;
pub mod profiles;
pub mod platform;
pub mod views;
pub mod fs_path;
pub mod clock;
pub mod stored_index;
pub mod profile_edits;
pub mod pinning;
pub mod pairing;
pub mod discovery;
pub mod local_address;
