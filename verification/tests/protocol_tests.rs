use aoe_core::components::Scoreboard;
use aoe_core::networking::IsClient;
use aoe_core::networking::IsServer;
use aoe_core::networking::NetAddr;
use aoe_core::networking::NetworkState;
use aoe_core::protocol::ChannelMode;
use aoe_core::protocol::ComponentKind;
use aoe_core::protocol::Mode;
use aoe_core::protocol::SyncMode;
use aoe_core::protocol::channel1_mode;
use aoe_core::protocol::shared_config;
use aoe_core::protocol::sync_mode;

#[test]
fn shared_config_fixes_tick_and_send_interval() {
    let cfg = shared_config(Mode::HostServer);
    assert_eq!(cfg.server_replication_send_interval_millis, 40);
    // One tick is 1/64 s.
    assert_eq!(cfg.tick_duration_micros, 15625);
    assert_eq!(cfg.mode, Mode::HostServer);
    assert_eq!(shared_config(Mode::Separate).mode, Mode::Separate);
}

#[test]
fn command_channel_is_ordered_reliable() {
    assert_eq!(channel1_mode(), ChannelMode::OrderedReliable);
}

#[test]
fn sync_table_matches_registration() {
    assert_eq!(sync_mode(ComponentKind::PlayerId), Some(SyncMode::Once));
    assert_eq!(sync_mode(ComponentKind::PlayerPosition), Some(SyncMode::Full));
    assert_eq!(sync_mode(ComponentKind::PlayerColor), Some(SyncMode::Once));
    assert_eq!(sync_mode(ComponentKind::MinionPosition), Some(SyncMode::Full));
    assert_eq!(sync_mode(ComponentKind::MinionTarget), Some(SyncMode::Simple));
    assert_eq!(sync_mode(ComponentKind::OwnedBy), Some(SyncMode::Once));
    assert_eq!(sync_mode(ComponentKind::Item), Some(SyncMode::Once));
    assert_eq!(sync_mode(ComponentKind::ItemPos), Some(SyncMode::Once));
    assert_eq!(sync_mode(ComponentKind::Scoreboard), None);
}

#[test]
fn role_states_follow_the_network_mode() {
    let addr = NetAddr { ip: 0x7f000001, port: 5000 };
    assert_eq!(IsClient::compute(NetworkState::Disconnected), None);
    assert_eq!(IsClient::compute(NetworkState::Host(addr)), Some(IsClient));
    assert_eq!(IsClient::compute(NetworkState::Server(addr)), None);
    assert_eq!(
        IsClient::compute(NetworkState::Client { server_addr: addr, client_id: 4 }),
        Some(IsClient)
    );
    assert_eq!(IsClient::compute(NetworkState::ClientSteam { server_addr: addr }), Some(IsClient));

    assert_eq!(IsServer::compute(NetworkState::Disconnected), None);
    assert_eq!(IsServer::compute(NetworkState::Host(addr)), Some(IsServer));
    assert_eq!(IsServer::compute(NetworkState::Server(addr)), Some(IsServer));
    assert_eq!(
        IsServer::compute(NetworkState::Client { server_addr: addr, client_id: 4 }),
        None
    );
    assert_eq!(IsServer::compute(NetworkState::ClientSteam { server_addr: addr }), None);
}

#[test]
fn scoreboard_insert_overwrites_and_appends() {
    let mut sb = Scoreboard::new();
    sb.insert(1, 10);
    sb.insert(2, 20);
    assert_eq!(sb.get(1), Some(10));
    assert_eq!(sb.get(2), Some(20));
    assert_eq!(sb.get(3), None);
    sb.insert(1, 0);
    assert_eq!(sb.get(1), Some(0));
    assert_eq!(sb.0.len(), 2);
}
