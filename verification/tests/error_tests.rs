use gamedig::error::{transport_error, GDError, NetworkProtocol, TransportOp};

#[test]
fn only_the_timeout_variant_is_a_timeout() {
    let addr = String::from("203.0.113.9:25565");
    assert!(GDError::TimeoutElapsedError {
        protocol: NetworkProtocol::Tcp,
        address: addr.clone()
    }
    .is_timeout());
    assert!(!GDError::ConnectionError { protocol: NetworkProtocol::Tcp, address: addr.clone() }
        .is_timeout());
    assert!(!GDError::ReadError { protocol: NetworkProtocol::Udp, address: addr.clone() }
        .is_timeout());
    assert!(!GDError::WriteError { protocol: NetworkProtocol::Udp, address: addr }.is_timeout());
    assert!(!GDError::PacketBad.is_timeout());
    assert!(!GDError::JsonParse.is_timeout());
    assert!(!GDError::AutoQuery.is_timeout());
    assert!(!GDError::UnderflowError { attempted: 4, available: 0, pos: 0, buffer: vec![] }
        .is_timeout());
}

#[test]
fn kind_names_describe_the_variant() {
    assert_eq!(GDError::PacketBad.kind_name(), "bad packet");
    assert_eq!(GDError::JsonParse.kind_name(), "json parse");
    assert_eq!(GDError::AutoQuery.kind_name(), "auto query failed");
    assert_eq!(
        GDError::UnderflowError { attempted: 2, available: 1, pos: 0, buffer: vec![7] }
            .kind_name(),
        "underflow"
    );
}

#[test]
fn transport_errors_classify_three_ways() {
    let a = || String::from("203.0.113.9:27960");
    assert_eq!(
        transport_error(NetworkProtocol::Udp, TransportOp::Read, true, a()),
        GDError::TimeoutElapsedError { protocol: NetworkProtocol::Udp, address: a() }
    );
    assert_eq!(
        transport_error(NetworkProtocol::Tcp, TransportOp::Connect, false, a()),
        GDError::ConnectionError { protocol: NetworkProtocol::Tcp, address: a() }
    );
    assert_eq!(
        transport_error(NetworkProtocol::Tcp, TransportOp::Read, false, a()),
        GDError::ReadError { protocol: NetworkProtocol::Tcp, address: a() }
    );
    assert_eq!(
        transport_error(NetworkProtocol::Udp, TransportOp::Write, false, a()),
        GDError::WriteError { protocol: NetworkProtocol::Udp, address: a() }
    );
}
