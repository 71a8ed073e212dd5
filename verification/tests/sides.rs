use iroh::endpoint::ReadExactError;
use sock_it_forward::error::{Error, ErrorKind};
use sock_it_forward::keys::{PublicKey, SecretKey};
use sock_it_forward::port_mapping::PortMapping;
use sock_it_forward::private_side::{
    find_mapping, handle_stream, invalid, parse_block, parse_prefix, private_side,
    read_proxy_header, worker_count, worker_threads, Endpoints, LinkAction, LinkEvent,
    PrivateConfig, PrivateServer, ProxyInfo, ServerEvent, StreamAction, StreamEvent, StreamState,
    ALPN, SIGNATURE,
};
use sock_it_forward::public_side::{
    accept, create_proxy_header, proxy_header_bytes, public_side, AcceptAction, AcceptEvent,
    AcceptState, Incoming, IncomingAction, ProxyAddresses, ProxyCommand, ProxyTransportProtocol,
};
use sock_it_forward::socket_addr::SocketAddr;

fn addr(text: &str) -> SocketAddr {
    let chars: Vec<char> = text.chars().collect();
    SocketAddr::read(&chars).unwrap()
}

/// A header with the given command, family and address block.
fn header(version_command: u8, family: u8, block: &[u8]) -> Vec<u8> {
    let mut bytes = SIGNATURE.to_vec();
    bytes.push(version_command);
    bytes.push(family);
    bytes.extend_from_slice(&(block.len() as u16).to_be_bytes());
    bytes.extend_from_slice(block);
    bytes
}

fn message(bytes: &[u8]) -> String {
    let error = read_proxy_header(bytes, None).unwrap_err();
    assert_eq!(error.kind, ErrorKind::InvalidData);
    error.message
}

#[test]
fn ipv4_header_has_these_bytes() {
    let bytes = proxy_header_bytes(addr("10.0.0.5:443"), addr("1.2.3.4:258"));
    let expected = header(0x21, 0x11, &[1, 2, 3, 4, 10, 0, 0, 5, 1, 2, 1, 187]);
    assert_eq!(bytes, expected);
    assert_eq!(bytes.len(), 28);
}

#[test]
fn ipv6_header_has_these_bytes() {
    let bytes = proxy_header_bytes(addr("[2001:db8::5%7]:443"), addr("[fe80::102:304]:258"));
    let mut block = vec![
        0xfe, 0x80, 0, 0, 0, 0, 0, 0, 0, 0, 0, 0, 1, 2, 3, 4, //
        0x20, 0x01, 0x0d, 0xb8, 0, 0, 0, 0, 0, 0, 0, 0, 0, 0, 0, 5,
    ];
    block.extend_from_slice(&[1, 2, 1, 187]);
    assert_eq!(bytes, header(0x21, 0x21, &block));
    assert_eq!(bytes.len(), 52);
}

#[test]
fn header_names_both_ends() {
    let made = create_proxy_header(addr("10.0.0.5:443"), addr("1.2.3.4:258"));
    assert_eq!(made.command, ProxyCommand::Proxy);
    assert_eq!(made.transport_protocol, ProxyTransportProtocol::Stream);
    match made.addresses {
        ProxyAddresses::Ipv4 {
            source,
            destination,
        } => {
            assert_eq!(SocketAddr::V4(source), addr("1.2.3.4:258"));
            assert_eq!(SocketAddr::V4(destination), addr("10.0.0.5:443"));
        }
        ProxyAddresses::Ipv6 { .. } => panic!("wrong family"),
    }
    let made = create_proxy_header(addr("[::1]:1"), addr("[::2]:2"));
    assert!(matches!(made.addresses, ProxyAddresses::Ipv6 { .. }));
}

#[test]
fn private_side_reads_what_public_side_wrote() {
    for (local, peer) in [
        ("10.0.0.5:443", "1.2.3.4:65535"),
        ("[2001:db8::5]:443", "[::ffff:9.8.7.6]:1"),
    ] {
        let written = proxy_header_bytes(addr(local), addr(peer));
        let mut stream = written.clone();
        stream.extend_from_slice(b"GET / HTTP/1.1");
        let info = read_proxy_header(&stream, None).unwrap();
        assert_eq!(info.source_addr, addr(peer));
        assert_eq!(info.dest_addr, addr(local));
        assert_eq!(info.raw_header, written);
    }
}

#[test]
fn cut_headers_are_refused() {
    let written = proxy_header_bytes(addr("[::1]:443"), addr("[::2]:5"));
    let mut n: usize = 0;
    while n < written.len() {
        let error = read_proxy_header(&written[..n], None).unwrap_err();
        assert_eq!(error.kind, ErrorKind::Other);
        let read = if n < 16 { n } else { n - 16 };
        assert_eq!(error.message, ReadExactError::FinishedEarly(read).to_string());
        n += 1;
    }
    assert!(read_proxy_header(&written, None).is_ok());
}

#[test]
fn early_end_names_the_bytes_that_were_read() {
    let mut stream = header(0x21, 0x11, &[]);
    stream[14] = 0xff;
    stream[15] = 0xff;
    let cut = |bytes: &[u8]| read_proxy_header(bytes, None).unwrap_err().message;
    assert_eq!(cut(&[]), "stream finished early (0 bytes read)");
    assert_eq!(cut(&stream[..15]), "stream finished early (15 bytes read)");
    assert_eq!(cut(&stream), "stream finished early (0 bytes read)");
    stream.extend_from_slice(&[0; 65534]);
    assert_eq!(cut(&stream), "stream finished early (65534 bytes read)");
}

#[test]
fn every_invalid_header_is_named() {
    let block = [1, 2, 3, 4, 10, 0, 0, 5, 1, 2, 1, 187];
    let mut wrong = header(0x21, 0x11, &block);
    wrong[11] = 0x0B;
    assert_eq!(message(&wrong), "invalid PROXY protocol v2 signature");
    assert_eq!(message(&header(0x11, 0x11, &block)), "unsupported PROXY protocol version");
    assert_eq!(message(&header(0x31, 0x11, &block)), "unsupported PROXY protocol version");
    assert_eq!(
        message(&header(0x20, 0x11, &block)),
        "public side sent local proxy info (should be impossible)"
    );
    assert_eq!(message(&header(0x22, 0x11, &block)), "invalid PROXY protocol command");
    assert_eq!(message(&header(0x2f, 0x00, &[])), "invalid PROXY protocol command");
    assert_eq!(message(&header(0x21, 0x11, &block[..11])), "truncated IPv4 address block");
    assert_eq!(message(&header(0x21, 0x21, &[0; 35])), "truncated IPv6 address block");
    assert_eq!(
        message(&header(0x21, 0x01, &block)),
        "unsupported PROXY protocol address family"
    );
    assert_eq!(
        message(&header(0x21, 0x31, &[0; 216])),
        "unsupported PROXY protocol address family"
    );
    assert_eq!(
        invalid("reason"),
        Error {
            kind: ErrorKind::InvalidData,
            message: "reason".to_string()
        }
    );
}

#[test]
fn extra_bytes_of_the_block_belong_to_the_header() {
    let bytes = header(0x21, 0x12, &[1, 2, 3, 4, 10, 0, 0, 5, 1, 2, 1, 187, 0xAA, 0, 1, 7]);
    let info = read_proxy_header(&bytes, None).unwrap();
    assert_eq!(info.source_addr, addr("1.2.3.4:258"));
    assert_eq!(info.dest_addr, addr("10.0.0.5:443"));
    assert_eq!(info.raw_header, bytes);
}

#[test]
fn local_command_falls_back_to_the_socket() {
    let ends = Endpoints {
        source: addr("9.9.9.9:9"),
        dest: addr("[::1]:8"),
    };
    let mut stream = header(0x20, 0x00, &[7, 7]);
    let raw = stream.clone();
    stream.push(1);
    let info = read_proxy_header(&stream, Some(ends)).unwrap();
    assert_eq!(info.source_addr, ends.source);
    assert_eq!(info.dest_addr, ends.dest);
    assert_eq!(info.raw_header, raw);
}

#[test]
fn header_in_two_reads() {
    let written = proxy_header_bytes(addr("10.0.0.5:443"), addr("1.2.3.4:258"));
    let mut prefix = [0u8; 16];
    prefix.copy_from_slice(&written[..16]);
    assert_eq!(parse_prefix(&prefix), Ok(12));
    let info = parse_block(&prefix, &written[16..], None).unwrap();
    assert_eq!(info.dest_addr, addr("10.0.0.5:443"));
    assert_eq!(info.raw_header, written);
    prefix[14] = 0xff;
    assert_eq!(parse_prefix(&prefix), Ok(0xff0c));
    prefix[0] = 0;
    assert!(parse_prefix(&prefix).is_err());
}

fn mappings() -> Vec<PortMapping> {
    ["80:10.0.0.1:8080", "443:[::1]:8443:no_pp", "80:10.0.0.2:8080"]
        .iter()
        .map(|s| s.parse().unwrap())
        .collect()
}

fn info(dest: &str) -> ProxyInfo {
    ProxyInfo {
        source_addr: addr("1.2.3.4:5"),
        dest_addr: addr(dest),
        raw_header: vec![1, 2, 3],
    }
}

#[test]
fn first_rule_wins() {
    let rules = mappings();
    assert_eq!(find_mapping(&rules, 80), Some(rules[0]));
    assert_eq!(find_mapping(&rules, 443), Some(rules[1]));
    assert_eq!(find_mapping(&rules, 8080), None);
}

#[test]
fn stream_with_header_forwarded() {
    let rules = mappings();
    let event: StreamEvent<u8> = StreamEvent::Header(Ok(info("9.9.9.9:80")));
    let (state, action) = handle_stream(&rules, StreamState::AwaitHeader, event);
    assert!(matches!(action, StreamAction::Connect(a) if a == addr("10.0.0.1:8080")));
    let event: StreamEvent<u8> = StreamEvent::Connected(Ok(()));
    let (state, action) = handle_stream(&rules, state, event);
    assert!(matches!(action, StreamAction::Forward(bytes) if bytes == [1, 2, 3]));
    let event: StreamEvent<u8> = StreamEvent::Forwarded(Ok(()));
    let (state, action) = handle_stream(&rules, state, event);
    assert!(matches!(action, StreamAction::Relay));
    let event: StreamEvent<u8> = StreamEvent::Relayed;
    let (state, action) = handle_stream(&rules, state, event);
    assert!(matches!(state, StreamState::Done));
    assert!(matches!(action, StreamAction::Stop { close: true, result: Ok(()) }));
}

#[test]
fn stream_with_header_stripped() {
    let rules = mappings();
    let event: StreamEvent<u8> = StreamEvent::Header(Ok(info("[::9]:443")));
    let (state, action) = handle_stream(&rules, StreamState::AwaitHeader, event);
    assert!(matches!(action, StreamAction::Connect(a) if a == addr("[::1]:8443")));
    let event: StreamEvent<u8> = StreamEvent::Connected(Ok(()));
    let (state, action) = handle_stream(&rules, state, event);
    assert!(matches!(state, StreamState::Relaying));
    assert!(matches!(action, StreamAction::Relay));
}

#[test]
fn stream_that_fails() {
    let rules = mappings();
    let event: StreamEvent<u8> = StreamEvent::Header(Err(1));
    let (_, action) = handle_stream(&rules, StreamState::AwaitHeader, event);
    assert!(matches!(action, StreamAction::Stop { close: false, result: Err(1) }));
    let event: StreamEvent<u8> = StreamEvent::Header(Ok(info("9.9.9.9:81")));
    let (_, action) = handle_stream(&rules, StreamState::AwaitHeader, event);
    assert!(matches!(action, StreamAction::Stop { close: false, result: Ok(()) }));
    let event: StreamEvent<u8> = StreamEvent::Connected(Err(2));
    let (_, action) = handle_stream(&rules, StreamState::Connecting(rules[0], vec![]), event);
    assert!(matches!(action, StreamAction::Stop { close: true, result: Err(2) }));
    let event: StreamEvent<u8> = StreamEvent::Forwarded(Err(3));
    let (state, action) = handle_stream(&rules, StreamState::Forwarding, event);
    assert!(matches!(state, StreamState::Done));
    assert!(matches!(action, StreamAction::Stop { close: false, result: Err(3) }));
}

#[test]
fn worker_follows_the_newest_connection() {
    let mut server = PrivateServer {
        port_mappings: mappings(),
        conn: 1u8,
    };
    let event: ServerEvent<u8, char> = ServerEvent::Connection(None);
    assert_eq!(server.run_step(event), None);
    assert_eq!(server.conn, 1);
    let event: ServerEvent<u8, char> = ServerEvent::Connection(Some(2));
    assert_eq!(server.run_step(event), None);
    assert_eq!(server.conn, 2);
    let event: ServerEvent<u8, char> = ServerEvent::Stream(Some('s'));
    assert_eq!(server.run_step(event), Some('s'));
    let event: ServerEvent<u8, char> = ServerEvent::Stream(None);
    assert_eq!(server.run_step(event), None);
    assert_eq!(server.conn, 2);
    assert_eq!(server.port_mappings, mappings());
}

#[test]
fn workers_leave_one_processor_free() {
    assert_eq!(worker_count(1), 1);
    assert_eq!(worker_count(2), 1);
    assert_eq!(worker_count(3), 2);
    assert_eq!(worker_count(64), 63);
    assert_eq!(worker_threads(), worker_count(num_cpus::get()));
}

fn config() -> PrivateConfig {
    PrivateConfig {
        public_endpoint_addr: PublicKey { bytes: [7; 32] },
        secret_key: SecretKey { bytes: [9; 32] },
        port_mappings: mappings(),
    }
}

#[test]
fn link_is_kept_up() {
    let config = config();
    let connect: LinkAction<char> = LinkAction::Connect {
        public_side: PublicKey { bytes: [7; 32] },
        alpn: *b"/sock-it-forward/0",
    };
    assert_eq!(private_side(&config, LinkEvent::Started), connect);
    assert_eq!(
        private_side::<char>(&config, LinkEvent::ConnectFailed),
        LinkAction::Wait { seconds: 1 }
    );
    assert_eq!(private_side(&config, LinkEvent::Waited), connect);
    assert_eq!(
        private_side(&config, LinkEvent::Connected('c')),
        LinkAction::Serve {
            conn: 'c',
            max_streams: u16::MAX >> 2
        }
    );
    assert_eq!(private_side(&config, LinkEvent::Closed), connect);
}

#[test]
fn the_two_sides_speak_this_protocol() {
    assert_eq!(&ALPN, b"/sock-it-forward/0");
}

#[test]
fn connections_are_served_one_after_the_other() {
    let config = config();
    // The first attempt fails, the second is served and closed, the third is served.
    let mut made = vec!['b', 'a'];
    let mut attempts: usize = 0;
    let mut served: Vec<char> = Vec::new();
    let mut event = LinkEvent::Started;
    while served.len() < 2 {
        event = match private_side(&config, event) {
            LinkAction::Connect { public_side, .. } => {
                assert_eq!(public_side, config.public_endpoint_addr);
                attempts += 1;
                if attempts == 1 {
                    LinkEvent::ConnectFailed
                } else {
                    LinkEvent::Connected(made.pop().unwrap())
                }
            }
            LinkAction::Wait { .. } => LinkEvent::Waited,
            LinkAction::Serve { conn, .. } => {
                served.push(conn);
                LinkEvent::Closed
            }
        };
    }
    assert_eq!(attempts, 3);
    assert_eq!(served, ['a', 'b']);
}

#[test]
fn connection_is_forwarded_with_its_header() {
    let local = addr("10.0.0.5:443");
    let remote = addr("1.2.3.4:258");
    let state = AcceptState::Accepted { local, remote };
    let (state, action) = accept(state, AcceptEvent::Link { connected: true });
    assert!(matches!(action, AcceptAction::Open));
    let (state, action) = accept(state, AcceptEvent::Opened { ok: true });
    match action {
        AcceptAction::Write(bytes) => assert_eq!(bytes, proxy_header_bytes(local, remote)),
        _ => panic!("no header"),
    }
    let (state, action) = accept(state, AcceptEvent::Written { ok: true });
    assert!(matches!(action, AcceptAction::Relay));
    let (state, action) = accept(state, AcceptEvent::Relayed);
    assert!(matches!(state, AcceptState::Done));
    assert!(matches!(action, AcceptAction::Close));
}

#[test]
fn connection_is_dropped_where_a_step_fails() {
    let local = addr("10.0.0.5:443");
    let remote = addr("1.2.3.4:258");
    let state = AcceptState::Accepted { local, remote };
    let (_, action) = accept(state, AcceptEvent::Link { connected: false });
    assert!(matches!(action, AcceptAction::Drop));
    // Without a private side no header is due, whatever the families of the addresses.
    let state = AcceptState::Accepted {
        local: addr("[::1]:443"),
        remote,
    };
    let (_, action) = accept(state, AcceptEvent::Link { connected: false });
    assert!(matches!(action, AcceptAction::Drop));
    let state = AcceptState::Opening { local, remote };
    let (_, action) = accept(state, AcceptEvent::Opened { ok: false });
    assert!(matches!(action, AcceptAction::Drop));
    let (state, action) = accept(AcceptState::Writing, AcceptEvent::Written { ok: false });
    assert!(matches!(state, AcceptState::Done));
    assert!(matches!(action, AcceptAction::Drop));
}

#[test]
fn only_the_allowed_key_is_admitted() {
    let allowed = PublicKey { bytes: [7; 32] };
    let mut bytes = [7; 32];
    bytes[31] = 8;
    let other = PublicKey { bytes };
    let knock = |remote_id| Incoming::Connection {
        conn: 'c',
        remote_id,
    };
    assert!(matches!(
        public_side(&Some(allowed), knock(allowed)),
        IncomingAction::Install('c')
    ));
    assert!(matches!(
        public_side(&Some(allowed), knock(other)),
        IncomingAction::Refuse('c')
    ));
    assert!(matches!(
        public_side(&None, knock(other)),
        IncomingAction::Install('c')
    ));
    assert!(matches!(
        public_side::<char>(&None, Incoming::Failed),
        IncomingAction::Wait
    ));
    assert!(matches!(
        public_side::<char>(&Some(allowed), Incoming::Finished),
        IncomingAction::Stop
    ));
}
