//! The replication protocol's static configuration: the shared tick and
//! send-interval settings, the command channel's mode, and the table that
//! says how each replicated attribute is predicted and interpolated.

use vstd::prelude::*;

verus! {

/// Whether server and client run in one process or separately.
#[derive(Clone, Copy, Debug, PartialEq, Eq, Structural)]
pub enum Mode {
    HostServer,
    Separate,
}

/// Settings shared by the server and every client.
#[derive(Clone, Copy, Debug, PartialEq, Eq, Structural)]
pub struct SharedConfig {
    /// How often the server sends replication updates, in milliseconds.
    pub server_replication_send_interval_millis: u64,
    /// Length of one fixed simulation tick, in microseconds (1/64 s).
    pub tick_duration_micros: u64,
    pub mode: Mode,
}

/// The settings every process runs with: 40 ms replication interval and a
/// 64 Hz fixed tick.
pub fn shared_config(mode: Mode) -> (r: SharedConfig)
    ensures
        r == (SharedConfig {
            server_replication_send_interval_millis: 40,
            tick_duration_micros: 15625,
            mode,
        }),
{
    SharedConfig { server_replication_send_interval_millis: 40, tick_duration_micros: 15625, mode }
}

/// The ordered-reliable channel that carries `ClientMessage` values.
#[derive(Clone, Copy, Debug, PartialEq, Eq, Structural)]
pub struct Channel1;

/// Delivery mode of a message channel.
#[derive(Clone, Copy, Debug, PartialEq, Eq, Structural)]
pub enum ChannelMode {
    OrderedReliable,
}

/// Commands travel ordered and reliable.
pub fn channel1_mode() -> (r: ChannelMode)
    ensures
        r == ChannelMode::OrderedReliable,
{
    ChannelMode::OrderedReliable
}

/// A replicated attribute kind.
#[derive(Clone, Copy, Debug, PartialEq, Eq, Structural)]
pub enum ComponentKind {
    PlayerId,
    PlayerPosition,
    PlayerColor,
    MinionPosition,
    MinionTarget,
    OwnedBy,
    Item,
    ItemPos,
    Scoreboard,
}

/// How a replicated attribute is carried onto predicted and interpolated
/// copies.
#[derive(Clone, Copy, Debug, PartialEq, Eq, Structural)]
pub enum SyncMode {
    /// Copied once when the shadow entity is created.
    Once,
    /// Overwritten whenever an update arrives.
    Simple,
    /// Kept in full history, rolled back and interpolated.
    Full,
}

/// The static synchronization table: positions are fully predicted and
/// interpolated, minion targets follow plainly, identity attributes are
/// copied once, and the scoreboard replicates without prediction or
/// interpolation.
pub open spec fn sync_mode_spec(kind: ComponentKind) -> Option<SyncMode> {
    match kind {
        ComponentKind::PlayerId => Some(SyncMode::Once),
        ComponentKind::PlayerPosition => Some(SyncMode::Full),
        ComponentKind::PlayerColor => Some(SyncMode::Once),
        ComponentKind::MinionPosition => Some(SyncMode::Full),
        ComponentKind::MinionTarget => Some(SyncMode::Simple),
        ComponentKind::OwnedBy => Some(SyncMode::Once),
        ComponentKind::Item => Some(SyncMode::Once),
        ComponentKind::ItemPos => Some(SyncMode::Once),
        ComponentKind::Scoreboard => None,
    }
}

/// Look up how an attribute kind is predicted and interpolated. The same
/// mode governs both paths for every attribute.
pub fn sync_mode(kind: ComponentKind) -> (r: Option<SyncMode>)
    ensures
        r == sync_mode_spec(kind),
{
    match kind {
        ComponentKind::PlayerId => Some(SyncMode::Once),
        ComponentKind::PlayerPosition => Some(SyncMode::Full),
        ComponentKind::PlayerColor => Some(SyncMode::Once),
        ComponentKind::MinionPosition => Some(SyncMode::Full),
        ComponentKind::MinionTarget => Some(SyncMode::Simple),
        ComponentKind::OwnedBy => Some(SyncMode::Once),
        ComponentKind::Item => Some(SyncMode::Once),
        ComponentKind::ItemPos => Some(SyncMode::Once),
        ComponentKind::Scoreboard => None,
    }
}

} // verus!
