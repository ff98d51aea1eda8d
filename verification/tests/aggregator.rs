use hive_search::address::{HostAddress, Ip};
use hive_search::messages::ClientMessage;
use hive_search::messages::ServerMessage;
use hive_search::server_state::{
    disconnect, joined, state_into_message, update_state, ClientRegistry, ServerResponse,
    ServerState,
};

fn addr(ip: Ip, port: u16) -> HostAddress {
    HostAddress { ip, port }
}

const IP_A: Ip = Ip::V4(0xc0a80101);
const IP_B: Ip = Ip::V4(0xc0a80102);
const IP_C: Ip = Ip::V6(1);

#[test]
fn empty_state_reports_no_host() {
    let state = ServerState::new();
    assert_eq!(state_into_message(&state), ServerMessage::NoHost);
    assert_eq!(state.host_count(), 0);
}

#[test]
fn aggregate_follows_cardinality() {
    // The aggregate is NoHost iff the map is empty, OneHost(a) iff exactly
    // one peer hosts at a, ManyHosts otherwise, at every point.
    let mut state = ServerState::new();
    let mut clients = ClientRegistry::new();
    let a = clients.register(IP_A);
    let b = clients.register(IP_B);
    let c = clients.register(IP_C);
    assert_eq!(state_into_message(&state), ServerMessage::NoHost);

    update_state(&mut state, &clients, a, ClientMessage::StartedHosting(100));
    assert_eq!(state.host_count(), 1);
    assert_eq!(
        state_into_message(&state),
        ServerMessage::OneHost(addr(IP_A, 100))
    );

    update_state(&mut state, &clients, b, ClientMessage::StartedHosting(200));
    assert_eq!(state.host_count(), 2);
    assert_eq!(state_into_message(&state), ServerMessage::ManyHosts);

    update_state(&mut state, &clients, c, ClientMessage::StartedHosting(300));
    assert_eq!(state.host_count(), 3);
    assert_eq!(state_into_message(&state), ServerMessage::ManyHosts);

    update_state(&mut state, &clients, b, ClientMessage::StoppedHosting);
    update_state(&mut state, &clients, c, ClientMessage::StoppedHosting);
    assert_eq!(
        state_into_message(&state),
        ServerMessage::OneHost(addr(IP_A, 100))
    );

    update_state(&mut state, &clients, a, ClientMessage::StoppedHosting);
    assert_eq!(state_into_message(&state), ServerMessage::NoHost);
    assert_eq!(state.host_count(), 0);
}

#[test]
fn join_unicasts_and_mutates_nothing() {
    let mut state = ServerState::new();
    let mut clients = ClientRegistry::new();
    let a = clients.register(IP_A);
    let b = clients.register(IP_B);
    update_state(&mut state, &clients, a, ClientMessage::StartedHosting(7777));

    let before = state_into_message(&state);
    let r = update_state(&mut state, &clients, b, ClientMessage::Joined);
    assert_eq!(r, ServerResponse::Unicast(b, ServerMessage::OneHost(addr(IP_A, 7777))));
    assert_eq!(state.host_count(), 1);
    assert_eq!(state_into_message(&state), before);
}

#[test]
fn first_host_broadcasts() {
    let mut state = ServerState::new();
    let mut clients = ClientRegistry::new();
    let a = clients.register(IP_A);
    let r = update_state(&mut state, &clients, a, ClientMessage::StartedHosting(25565));
    assert_eq!(
        r,
        ServerResponse::Broadcast(ServerMessage::OneHost(addr(IP_A, 25565)))
    );
}

#[test]
fn repeated_start_with_same_port_is_silent() {
    let mut state = ServerState::new();
    let mut clients = ClientRegistry::new();
    let a = clients.register(IP_A);
    update_state(&mut state, &clients, a, ClientMessage::StartedHosting(25565));
    let r = update_state(&mut state, &clients, a, ClientMessage::StartedHosting(25565));
    assert_eq!(r, ServerResponse::Silent);
}

#[test]
fn port_change_of_single_host_broadcasts() {
    let mut state = ServerState::new();
    let mut clients = ClientRegistry::new();
    let a = clients.register(IP_A);
    update_state(&mut state, &clients, a, ClientMessage::StartedHosting(100));
    let r = update_state(&mut state, &clients, a, ClientMessage::StartedHosting(101));
    assert_eq!(
        r,
        ServerResponse::Broadcast(ServerMessage::OneHost(addr(IP_A, 101)))
    );
}

#[test]
fn port_change_among_many_hosts_is_silent() {
    // With two or more hosts the aggregate stays ManyHosts, so a changed
    // port does not change the clamped cardinality and nothing is sent.
    let mut state = ServerState::new();
    let mut clients = ClientRegistry::new();
    let a = clients.register(IP_A);
    let b = clients.register(IP_B);
    update_state(&mut state, &clients, a, ClientMessage::StartedHosting(100));
    update_state(&mut state, &clients, b, ClientMessage::StartedHosting(200));
    let r = update_state(&mut state, &clients, a, ClientMessage::StartedHosting(300));
    assert_eq!(r, ServerResponse::Silent);
}

#[test]
fn stop_of_unknown_peer_is_silent() {
    let mut state = ServerState::new();
    let mut clients = ClientRegistry::new();
    let a = clients.register(IP_A);
    let b = clients.register(IP_B);
    update_state(&mut state, &clients, a, ClientMessage::StartedHosting(100));
    let r = update_state(&mut state, &clients, b, ClientMessage::StoppedHosting);
    assert_eq!(r, ServerResponse::Silent);
}

#[test]
fn stop_from_three_to_two_hosts_is_silent() {
    let mut state = ServerState::new();
    let mut clients = ClientRegistry::new();
    let a = clients.register(IP_A);
    let b = clients.register(IP_B);
    let c = clients.register(IP_C);
    update_state(&mut state, &clients, a, ClientMessage::StartedHosting(100));
    update_state(&mut state, &clients, b, ClientMessage::StartedHosting(200));
    update_state(&mut state, &clients, c, ClientMessage::StartedHosting(300));
    let r = update_state(&mut state, &clients, a, ClientMessage::StoppedHosting);
    assert_eq!(r, ServerResponse::Silent);
    let r = update_state(&mut state, &clients, b, ClientMessage::StoppedHosting);
    assert_eq!(
        r,
        ServerResponse::Broadcast(ServerMessage::OneHost(addr(IP_C, 300)))
    );
}

#[test]
fn registry_assigns_fresh_ids() {
    let mut clients = ClientRegistry::new();
    assert!(clients.can_assign_id());
    let a = clients.register(IP_A);
    let b = clients.register(IP_B);
    assert_ne!(a, b);
    assert_eq!(clients.client_count(), 2);
    assert_eq!(clients.ip_of(a), IP_A);
    assert_eq!(clients.ip_of(b), IP_B);
    clients.deregister(a);
    assert_eq!(clients.client_count(), 1);
    assert!(!clients.contains(a));
    let c = clients.register(IP_C);
    assert_ne!(a, c);
    assert_ne!(b, c);
    let ids = clients.client_ids();
    assert_eq!(ids.len(), 2);
    assert!(ids.contains(&b) && ids.contains(&c));
}

#[test]
fn end_to_end_scenario() {
    // Peer A connects and joins: it is told NoHost. A starts hosting on
    // 12345: everyone is told OneHost(A:12345). Peer B connects and joins:
    // it alone is told OneHost, nothing is broadcast. B starts hosting on
    // 999: everyone is told ManyHosts. A disconnects: the remaining peers
    // are told OneHost(B:999).
    let mut state = ServerState::new();
    let mut clients = ClientRegistry::new();

    let a = clients.register(IP_A);
    let r = update_state(&mut state, &clients, a, ClientMessage::Joined);
    assert_eq!(r, ServerResponse::Unicast(a, ServerMessage::NoHost));

    let r = update_state(&mut state, &clients, a, ClientMessage::StartedHosting(12345));
    assert_eq!(
        r,
        ServerResponse::Broadcast(ServerMessage::OneHost(addr(IP_A, 12345)))
    );

    let b = clients.register(IP_B);
    let r = update_state(&mut state, &clients, b, ClientMessage::Joined);
    assert_eq!(
        r,
        ServerResponse::Unicast(b, ServerMessage::OneHost(addr(IP_A, 12345)))
    );

    let r = update_state(&mut state, &clients, b, ClientMessage::StartedHosting(999));
    assert_eq!(r, ServerResponse::Broadcast(ServerMessage::ManyHosts));

    let r = disconnect(&mut state, &mut clients, a);
    assert_eq!(
        r,
        ServerResponse::Broadcast(ServerMessage::OneHost(addr(IP_B, 999)))
    );
    assert!(!clients.contains(a));
    assert_eq!(clients.client_count(), 1);
    assert_eq!(
        state_into_message(&state),
        ServerMessage::OneHost(addr(IP_B, 999))
    );
}

#[test]
fn joined_alone_never_touches_the_map() {
    let state = ServerState::new();
    let r = joined(&state, 42);
    assert_eq!(r, ServerResponse::Unicast(42, ServerMessage::NoHost));
}
