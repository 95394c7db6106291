use longboy::addr::SocketAddr;
use longboy::broker::{BrokerError, ClientBroker, ServerBroker, SessionBroker};
use longboy::startup::{
    client_address, connection_step, credential_format, handle_connection, listen_address,
    path_credential_format, plain_connection_step, runtime_type, server_handle_connection, Admission,
    ConnectionAction, ConnectionEvent, CredentialFormat, PlainAction, RuntimeType,
};

#[test]
fn only_der_files_hold_der() {
    assert_eq!(credential_format(Some("der")), CredentialFormat::Der);
    assert_eq!(credential_format(Some("pem")), CredentialFormat::Pem);
    assert_eq!(credential_format(Some("DER")), CredentialFormat::Pem);
    assert_eq!(credential_format(Some("")), CredentialFormat::Pem);
    assert_eq!(credential_format(None), CredentialFormat::Pem);
}

#[test]
fn format_goes_by_the_file_name() {
    assert_eq!(path_credential_format("key.der"), CredentialFormat::Der);
    assert_eq!(path_credential_format("certs/server.key.der"), CredentialFormat::Der);
    assert_eq!(path_credential_format("/etc/longboy/cert.der"), CredentialFormat::Der);
    assert_eq!(path_credential_format("certs/server.pem"), CredentialFormat::Pem);
    assert_eq!(path_credential_format("certs.der/server.pem"), CredentialFormat::Pem);
    assert_eq!(path_credential_format("certs.der/server"), CredentialFormat::Pem);
    assert_eq!(path_credential_format("server.der.pem"), CredentialFormat::Pem);
    assert_eq!(path_credential_format("server.DER"), CredentialFormat::Pem);
    assert_eq!(path_credential_format("certs/.der"), CredentialFormat::Pem);
    assert_eq!(path_credential_format("der"), CredentialFormat::Pem);
    assert_eq!(path_credential_format(""), CredentialFormat::Pem);
}

#[test]
fn ends_of_paths_are_ignored() {
    assert_eq!(path_credential_format("certs/key.der/"), CredentialFormat::Der);
    assert_eq!(path_credential_format("certs/key.der///"), CredentialFormat::Der);
    assert_eq!(path_credential_format("certs/key.der/."), CredentialFormat::Der);
    assert_eq!(path_credential_format("key.der/.//./"), CredentialFormat::Der);
    assert_eq!(path_credential_format("./key.der"), CredentialFormat::Der);
    assert_eq!(path_credential_format("..der"), CredentialFormat::Der);
    assert_eq!(path_credential_format("certs/key.der/.."), CredentialFormat::Pem);
    assert_eq!(path_credential_format("certs/key.der."), CredentialFormat::Pem);
    assert_eq!(path_credential_format("a/.der/"), CredentialFormat::Pem);
    assert_eq!(path_credential_format("/"), CredentialFormat::Pem);
    assert_eq!(path_credential_format("./."), CredentialFormat::Pem);
    assert_eq!(path_credential_format(".."), CredentialFormat::Pem);
}

#[test]
fn format_of_a_plain_ending_is_the_same_everywhere() {
    for path in [
        "C:\\certs\\key.der",
        "C:/certs/key.der",
        "C:key.der",
        "certs\\key.der",
        "certs.pem\\key.der",
        "/etc/a:b/key.der",
        "//host/share/key.der",
        "\\\\host\\share\\certs\\key.der",
        "\\\\?\\C:\\key.der",
        "\\\\?\\UNC\\host\\share\\key.der",
    ] {
        assert_eq!(path_credential_format(path), CredentialFormat::Der, "{}", path);
    }
    for path in [
        "C:\\certs\\key.pem",
        "C:\\certs.der\\key.pem",
        "C:\\certs.der\\key",
        "C:\\certs\\key",
        "C:/certs.der/key.DER",
        "certs.der\\key.pem",
        "/etc/a:b/key.der.",
        "\\\\host\\share\\key.crt",
        "\\\\?\\C:\\key.pem",
    ] {
        assert_eq!(path_credential_format(path), CredentialFormat::Pem, "{}", path);
    }
}

#[test]
fn plain_server_ends_at_the_first_failure() {
    assert_eq!(plain_connection_step(ConnectionEvent::EndpointClosed), PlainAction::Stop);
    assert_eq!(plain_connection_step(ConnectionEvent::Incoming), PlainAction::Accept);
    assert_eq!(plain_connection_step(ConnectionEvent::AcceptFailed), PlainAction::Fail);
    assert_eq!(plain_connection_step(ConnectionEvent::Accepted), PlainAction::AwaitHandshake);
    assert_eq!(plain_connection_step(ConnectionEvent::HandshakeFailed), PlainAction::Fail);
    assert_eq!(plain_connection_step(ConnectionEvent::Established), PlainAction::OpenSession);
    assert_eq!(plain_connection_step(ConnectionEvent::SessionFailed), PlainAction::Fail);
    assert_eq!(
        plain_connection_step(ConnectionEvent::SessionRegistered),
        PlainAction::AwaitIncoming
    );
}

#[test]
fn tasks_run_in_tokio_by_default() {
    assert_eq!(runtime_type(None), RuntimeType::Tokio);
    assert_eq!(runtime_type(Some(RuntimeType::Tokio)), RuntimeType::Tokio);
    assert_eq!(runtime_type(Some(RuntimeType::Thread)), RuntimeType::Thread);
}

#[test]
fn server_listens_at_loopback_by_default() {
    assert_eq!(
        listen_address(None),
        SocketAddr::V6 { segments: 1, port: 4433, flow_info: 0, scope_id: 0 }
    );
    let configured = SocketAddr::V4 { octets: 0x0a00_0001, port: 9 };
    assert_eq!(listen_address(Some(configured)), configured);
}

#[test]
fn client_sends_from_any_address() {
    assert_eq!(client_address(), SocketAddr::V4 { octets: 0, port: 0 });
}

#[test]
fn plain_server_gives_every_connection_the_same() {
    assert_eq!(handle_connection(), Admission { session_id: 0, cipher_key: 0xdead_beef });
}

#[test]
fn connections_are_admitted_until_full() {
    let mut broker = SessionBroker::<2>::new();
    assert_eq!(
        server_handle_connection(&mut broker),
        Ok(Admission { session_id: 1, cipher_key: 0xdead_beef })
    );
    assert_eq!(
        server_handle_connection(&mut broker),
        Ok(Admission { session_id: 2, cipher_key: 0xdead_beef })
    );
    assert_eq!(broker.player_index_of(1), Some(0));
    assert_eq!(broker.player_index_of(2), Some(1));
    assert_eq!(server_handle_connection(&mut broker), Err(BrokerError::MaximumPlayersReached));
    assert_eq!(broker.player_index_of(3), None);
}

#[test]
fn admitted_sessions_can_talk() {
    let mut broker = SessionBroker::<32>::new();
    let first = server_handle_connection(&mut broker).unwrap();
    let second = server_handle_connection(&mut broker).unwrap();
    let mut sink = ClientBroker::new(&broker).invoke(second.session_id);
    let mut source = ServerBroker::new(&broker).invoke(first.session_id);
    assert_eq!(sink.handle(&[1; 28]), Ok(()));
    let mut buffer = [0; 28];
    assert!(source.poll(&mut buffer));
    assert_eq!(buffer[24], 1);
}

#[test]
fn failed_connections_do_not_stop_the_server() {
    assert_eq!(connection_step(ConnectionEvent::EndpointClosed), ConnectionAction::Stop);
    assert_eq!(connection_step(ConnectionEvent::Incoming), ConnectionAction::Accept);
    assert_eq!(connection_step(ConnectionEvent::Accepted), ConnectionAction::AwaitHandshake);
    assert_eq!(connection_step(ConnectionEvent::Established), ConnectionAction::OpenSession);
    for event in [
        ConnectionEvent::AcceptFailed,
        ConnectionEvent::HandshakeFailed,
        ConnectionEvent::SessionFailed,
        ConnectionEvent::SessionRegistered,
    ] {
        assert_eq!(connection_step(event), ConnectionAction::AwaitIncoming);
    }
}
