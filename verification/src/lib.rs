//! Verified core of the Aggregate nation simulation client: asset documents,
//! snapshot indexing, construction siting, production summaries, the management
//! session state machine, playback pacing, the simulation worker's decisions, the
//! panels of the management screen and world map, notifications, map lettering,
//! country flags and interface state.

pub mod asset;

pub mod world;
pub mod snapshot_index;
pub mod construction;
pub mod text;
pub mod identity;
pub mod interface;
pub mod playback;
pub mod session;
pub mod notifications;
pub mod presentation;
pub mod labels;
pub mod inspection;
pub mod setup;
pub mod production;
pub mod lists;
pub mod order;
pub mod outliner;
pub mod queue;
pub mod worker;
pub mod lettering;
pub mod flags;
