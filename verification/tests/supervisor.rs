use chimera::router::{PathStats, Router};
use chimera::supervisor::{
    DisconnectReason, Phase, Supervisor, SupervisorAction, SupervisorEvent, RECONNECT_BACKOFF_MS,
};
use chimera::transport::TransportKind;

fn client_router() -> Router {
    let mut router = Router::new();
    router.register_path("BlockedProtocol", 0);
    router.update_latency("BlockedProtocol", 10_000, 0);
    router.register_path("TCP", 0);
    router.update_latency("TCP", 100_000, 0);
    router
}

fn connect(transport: TransportKind, path: &str, attempt: u64) -> SupervisorAction {
    SupervisorAction::Connect { transport, path: path.to_string(), attempt }
}

#[test]
fn blocked_path_falls_back_to_tcp() {
    let mut supervisor = Supervisor::new(client_router());
    assert_eq!(supervisor.phase(), Phase::Idle);
    assert_eq!(
        supervisor.on_event(SupervisorEvent::Start, 1),
        connect(TransportKind::Blocked, "BlockedProtocol", 1)
    );
    assert_eq!(
        supervisor.on_event(SupervisorEvent::ConnectFailed, 501),
        SupervisorAction::Sleep(1000)
    );
    let blocked = supervisor.router().get_stats("BlockedProtocol").unwrap();
    assert_eq!(blocked.loss_ppm, 1_000_000);
    assert_eq!(blocked.score(), 1082);
    assert_eq!(
        supervisor.on_event(SupervisorEvent::BackoffElapsed, 1501),
        connect(TransportKind::Tcp, "TCP", 2)
    );
    assert_eq!(
        supervisor.on_event(SupervisorEvent::Connected, 1510),
        SupervisorAction::Handshake
    );
    assert_eq!(
        supervisor.on_event(SupervisorEvent::HandshakeDone, 1520),
        SupervisorAction::Run
    );
    assert_eq!(supervisor.phase(), Phase::Running);
    let tcp = supervisor.router().get_stats("TCP").unwrap();
    assert_eq!(tcp.latency_us, 90_000);
    assert_eq!(tcp.last_updated_ms, 1520);
}

#[test]
fn tunnel_drop_leads_to_reconnect_after_a_second() {
    let mut router = Router::new();
    router.register_path("TCP", 0);
    let mut supervisor = Supervisor::new(router);
    supervisor.on_event(SupervisorEvent::Start, 0);
    supervisor.on_event(SupervisorEvent::Connected, 1);
    supervisor.on_event(SupervisorEvent::HandshakeDone, 2);
    assert_eq!(
        supervisor.on_event(SupervisorEvent::Disconnected(DisconnectReason::ReadError), 10),
        SupervisorAction::Sleep(RECONNECT_BACKOFF_MS)
    );
    assert_eq!(supervisor.phase(), Phase::Backoff);
    assert_eq!(RECONNECT_BACKOFF_MS, 1000);
    assert_eq!(
        supervisor.on_event(SupervisorEvent::BackoffElapsed, 1010),
        connect(TransportKind::Tcp, "TCP", 1)
    );
    let tcp = supervisor.router().get_stats("TCP").unwrap();
    assert_eq!(tcp.loss_ppm, 0);
}

#[test]
fn failed_handshake_counts_against_the_path() {
    let mut router = Router::new();
    router.register_path("TCP", 0);
    let mut supervisor = Supervisor::new(router);
    supervisor.on_event(SupervisorEvent::Start, 0);
    supervisor.on_event(SupervisorEvent::Connected, 1);
    assert_eq!(
        supervisor.on_event(SupervisorEvent::HandshakeFailed, 2),
        SupervisorAction::Sleep(1000)
    );
    assert_eq!(supervisor.router().get_stats("TCP").unwrap().loss_ppm, 1_000_000);
    assert_eq!(
        supervisor.on_event(SupervisorEvent::BackoffElapsed, 1002),
        connect(TransportKind::Tcp, "TCP", 2)
    );
}

#[test]
fn without_registered_paths_tcp_is_tried() {
    let mut supervisor = Supervisor::new(Router::new());
    assert_eq!(
        supervisor.on_event(SupervisorEvent::Start, 0),
        connect(TransportKind::Tcp, "TCP", 1)
    );
    supervisor.on_event(SupervisorEvent::ConnectFailed, 1);
    assert_eq!(supervisor.router().len(), 0);
}

#[test]
fn unknown_path_names_mean_tcp() {
    let mut router = Router::new();
    router.register_path("Carrier Pigeon", 0);
    let mut supervisor = Supervisor::new(router);
    assert_eq!(
        supervisor.on_event(SupervisorEvent::Start, 0),
        connect(TransportKind::Tcp, "Carrier Pigeon", 1)
    );
}

#[test]
fn shutdown_ends_the_supervisor() {
    let mut supervisor = Supervisor::new(client_router());
    supervisor.on_event(SupervisorEvent::Start, 0);
    supervisor.on_event(SupervisorEvent::ConnectFailed, 1);
    supervisor.on_event(SupervisorEvent::BackoffElapsed, 2);
    supervisor.on_event(SupervisorEvent::Connected, 3);
    supervisor.on_event(SupervisorEvent::HandshakeDone, 4);
    assert_eq!(supervisor.on_event(SupervisorEvent::Shutdown, 5), SupervisorAction::Exit);
    assert_eq!(supervisor.phase(), Phase::Stopped);
    assert_eq!(supervisor.on_event(SupervisorEvent::Start, 6), SupervisorAction::Nothing);
    assert_eq!(supervisor.on_event(SupervisorEvent::Shutdown, 7), SupervisorAction::Nothing);
    assert_eq!(supervisor.phase(), Phase::Stopped);
}

#[test]
fn events_that_do_not_fit_change_nothing() {
    let mut supervisor = Supervisor::new(client_router());
    assert_eq!(supervisor.on_event(SupervisorEvent::Connected, 0), SupervisorAction::Nothing);
    assert_eq!(supervisor.on_event(SupervisorEvent::HandshakeDone, 0), SupervisorAction::Nothing);
    assert_eq!(
        supervisor.on_event(SupervisorEvent::Disconnected(DisconnectReason::Eof), 0),
        SupervisorAction::Nothing
    );
    assert_eq!(supervisor.phase(), Phase::Idle);
    assert_eq!(
        supervisor.router().get_stats("TCP"),
        Some(PathStats { latency_us: 100_000, loss_ppm: 0, bandwidth: 1_000_000, last_updated_ms: 0 })
    );
    supervisor.on_event(SupervisorEvent::Start, 1);
    assert_eq!(supervisor.on_event(SupervisorEvent::Start, 2), SupervisorAction::Nothing);
    assert_eq!(supervisor.on_event(SupervisorEvent::HandshakeFailed, 2), SupervisorAction::Nothing);
    assert_eq!(supervisor.phase(), Phase::Connecting);
}

#[test]
fn disconnect_reasons_have_their_words() {
    assert_eq!(DisconnectReason::Eof.describe(), "Tunnel Closed (EOF)");
    assert_eq!(DisconnectReason::ReadError.describe(), "Tunnel Error (Read)");
    assert_eq!(DisconnectReason::WriteError.describe(), "Tunnel Error (Write)");
    assert_eq!(DisconnectReason::Malformed.describe(), "Tunnel Error (Malformed frame)");
}
