use hive_search::address::{HostAddress, Ip};
use hive_search::client::{from_server, to_server, NbtInstruction};
use hive_search::client_state::{ClientState, ClientStates};
use hive_search::gate::Gate;
use hive_search::log_reader::ClientChange;
use hive_search::messages::{ClientMessage, ServerMessage};

#[test]
fn wait_on_an_open_gate_passes_through() {
    let mut g = Gate::new();
    g.open();
    assert!(g.is_open());
    let blocked = g.wait();
    assert!(!blocked);
}

#[test]
fn open_releases_every_waiter_at_once() {
    // Waiters gather on a closed gate and are all released by one open.
    let mut g = Gate::new();
    assert!(!g.is_open());
    assert!(g.wait());
    assert!(g.wait());
    assert!(g.wait());
    let released = g.open();
    assert_eq!(released, 3);
    assert!(g.is_open());
    assert!(!g.wait());
}

#[test]
fn close_wakes_nobody() {
    let mut g = Gate::new();
    assert!(g.wait());
    g.close();
    assert!(!g.is_open());
    // the earlier waiter is still suspended; only open releases it
    let released = g.open();
    assert_eq!(released, 1);
}

#[test]
fn aggregate_updates_translate_to_count_and_sink_command() {
    let a = HostAddress { ip: Ip::V4(0x7f000001), port: 25565 };
    assert_eq!(
        from_server(ServerMessage::NoHost),
        (0, NbtInstruction::SetToNoHost)
    );
    assert_eq!(
        from_server(ServerMessage::OneHost(a)),
        (1, NbtInstruction::SetToOneHost(a))
    );
    assert_eq!(
        from_server(ServerMessage::ManyHosts),
        (2, NbtInstruction::SetToManyHosts)
    );
}

#[test]
fn local_transitions_translate_to_wire_messages() {
    assert_eq!(
        to_server(ClientChange::StartedHosting(4321)),
        ClientMessage::StartedHosting(4321)
    );
    assert_eq!(
        to_server(ClientChange::StoppedHosting),
        ClientMessage::StoppedHosting
    );
}

#[test]
fn client_state_holds_what_was_set() {
    let mut s = ClientState::new();
    let mut t = ClientState::new();
    assert_eq!(s.get(), ClientStates::NotHosting);
    t.set(ClientStates::Hosting(555));
    assert_eq!(t.get(), ClientStates::Hosting(555));
}
