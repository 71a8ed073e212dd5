//! The private side: reads the header that the public side put in front of a stream,
//! routes the stream by its rules, and keeps the link to the public side up.
use vstd::prelude::*;

use crate::error::{Error, ErrorKind, Failure};
use crate::keys::{PublicKey, SecretKey};
use crate::port_mapping::PortMapping;
use crate::socket_addr::{
    Address, Ipv4Addr, Ipv6Addr, SocketAddr, SocketAddrV4, SocketAddrV6, join_octets,
};
use crate::text::push_number;

verus! {

/// What the private side is started with.
pub struct PrivateConfig {
    /// The public side, by its key.
    pub public_endpoint_addr: PublicKey,
    /// keypair that identifies this endpoint.
    pub secret_key: SecretKey,
    pub port_mappings: Vec<PortMapping>,
}

// ---------------------------------------------------------------------------
// The PROXY protocol header
// ---------------------------------------------------------------------------
/// The 12-byte block that every PROXY protocol v2 header starts with.
pub const SIGNATURE: [u8; 12] = [
    0x0D,
    0x0A,
    0x0D,
    0x0A,
    0x00,
    0x0D,
    0x0A,
    0x51,
    0x55,
    0x49,
    0x54,
    0x0A,
];

/// The two ends of a connection.
#[derive(Debug, Clone, Copy, PartialEq, Eq)]
pub struct Endpoints {
    pub source: SocketAddr,
    pub dest: SocketAddr,
}

impl View for Endpoints {
    type V = (Address, Address);

    open spec fn view(&self) -> (Address, Address) {
        (self.source@, self.dest@)
    }
}

/// What the header of a stream says.
#[derive(Debug)]
pub struct ProxyInfo {
    pub source_addr: SocketAddr,
    /// SocketAddr on public side that accepted the connection. Use the port
    /// number here to determine the upstream to send to
    pub dest_addr: SocketAddr,
    /// The raw consumed header, in case it needs to be forwarded upstream.
    pub raw_header: Vec<u8>,
}

/// What a [`ProxyInfo`] denotes.
pub struct Info {
    pub source: Address,
    pub dest: Address,
    pub raw_header: Seq<u8>,
}

impl View for ProxyInfo {
    type V = Info;

    open spec fn view(&self) -> Info {
        Info {
            source: self.source_addr@,
            dest: self.dest_addr@,
            raw_header: self.raw_header@,
        }
    }
}

/// The length of the address block that the 16-byte prefix `header` announces, or the reason
/// why it is no prefix: 12 bytes of signature, version and command, family and protocol,
/// two bytes of length.
pub open spec fn block_len_of(header: Seq<u8>) -> Result<nat, Seq<char>> {
    if header.take(12) != SIGNATURE@ {
        Err("invalid PROXY protocol v2 signature"@)
    } else if header[12] / 16 != 2 {
        Err("unsupported PROXY protocol version"@)
    } else {
        Ok(crate::socket_addr::big_endian(header[14], header[15]) as nat)
    }
}

/// The IPv4 address in the four bytes at `ip`, with the port in the two bytes at `port`.
pub open spec fn block_v4(block: Seq<u8>, ip: int, port: int) -> Address {
    Address::V4 {
        octets: block.subrange(ip, ip + 4),
        port: crate::socket_addr::big_endian(block[port], block[port + 1]),
    }
}

/// The IPv6 address in the sixteen bytes at `ip`, with the port in the two bytes at `port`.
pub open spec fn block_v6(block: Seq<u8>, ip: int, port: int) -> Address {
    Address::V6 {
        segments: crate::socket_addr::segments_of(block.subrange(ip, ip + 16)),
        port: crate::socket_addr::big_endian(block[port], block[port + 1]),
        flowinfo: 0,
        scope_id: 0,
    }
}

/// The source and destination that the prefix `header` and the address block `block` give,
/// or the reason why they give none. The command LOCAL declares no client: it stands for
/// the ends of the `socket` of the connection, where there are any.
pub open spec fn endpoints_of(
    header: Seq<u8>,
    block: Seq<u8>,
    socket: Option<(Address, Address)>,
) -> Result<(Address, Address), Seq<char>> {
    let command: u8 = header[12] % 16;
    let family: u8 = header[13] / 16;
    if command == 0 {
        match socket {
            Some(ends) => Ok(ends),
            None => Err("public side sent local proxy info (should be impossible)"@),
        }
    } else if command != 1 {
        Err("invalid PROXY protocol command"@)
    } else if family == 1 {
        if block.len() < 12 {
            Err("truncated IPv4 address block"@)
        } else {
            Ok((block_v4(block, 0, 8), block_v4(block, 4, 10)))
        }
    } else if family == 2 {
        if block.len() < 36 {
            Err("truncated IPv6 address block"@)
        } else {
            Ok((block_v6(block, 0, 32), block_v6(block, 16, 34)))
        }
    } else {
        Err("unsupported PROXY protocol address family"@)
    }
}

/// The failure of data that is not what it has to be.
pub open spec fn invalid_data(message: Seq<char>) -> Failure {
    Failure { kind: ErrorKind::InvalidData, message }
}

/// The failure of a read for which the stream holds `read` bytes, and not all of those that
/// were asked for.
pub open spec fn finished_early(read: nat) -> Failure {
    Failure {
        kind: ErrorKind::Other,
        message: "stream finished early ("@ + crate::text::decimal(read) + " bytes read)"@,
    }
}

/// What the header at the start of `stream` says, or why there is none. The prefix is read
/// first, and then the address block: a stream that ends early names the bytes of the read
/// in which it ended.
pub open spec fn info_of(
    stream: Seq<u8>,
    socket: Option<(Address, Address)>,
) -> Result<Info, Failure> {
    if stream.len() < 16 {
        Err(finished_early(stream.len()))
    } else {
        let header = stream.take(16);
        match block_len_of(header) {
            Err(message) => Err(invalid_data(message)),
            Ok(len) => if stream.len() < 16 + len {
                Err(finished_early((stream.len() - 16) as nat))
            } else {
                let block = stream.subrange(16, (16 + len) as int);
                match endpoints_of(header, block, socket) {
                    Err(message) => Err(invalid_data(message)),
                    Ok((source, dest)) => Ok(Info { source, dest, raw_header: header + block }),
                }
            },
        }
    }
}

/// The error of data that is not what it has to be.
pub fn invalid(msg: &'static str) -> (r: Error)
    ensures
        r@ == invalid_data(msg@),
        r.kind == ErrorKind::InvalidData,
        r.message@ == msg@,
{
    Error { kind: ErrorKind::InvalidData, message: msg.to_owned() }
}

/// The error of a read for which the stream holds `read` bytes, and not all of those that were
/// asked for.
fn ended_after(read: u32) -> (r: Error)
    ensures
        r@ == finished_early(read as nat),
{
    let mut message: String = "stream finished early (".to_owned();
    push_number(&mut message, read, 10);
    message.append(" bytes read)");
    Error { kind: ErrorKind::Other, message }
}

/// Checks the 16-byte prefix, and gives the length of the address block behind it.
pub fn parse_prefix(header: &[u8; 16]) -> (r: Result<usize, Error>)
    ensures
        match r {
            Ok(len) => block_len_of(header@) == Ok::<nat, Seq<char>>(len as nat),
            Err(error) => error@.kind == ErrorKind::InvalidData && block_len_of(header@) == Err::<
                nat,
                Seq<char>,
            >(error@.message),
        },
{
    let mut i: usize = 0;
    while i < 12
        invariant
            i <= 12,
            forall|j: int| 0 <= j < i ==> #[trigger] header@[j] == SIGNATURE@[j],
        decreases 12 - i,
    {
        if header[i] != SIGNATURE[i] {
            assert(header@.take(12)[i as int] != SIGNATURE@[i as int]);
            return Err(invalid("invalid PROXY protocol v2 signature"));
        }
        i += 1;
    }
    assert(header@.take(12) =~= SIGNATURE@);
    if header[12] / 16 != 2 {
        return Err(invalid("unsupported PROXY protocol version"));
    }
    Ok(join_octets(header[14], header[15]) as usize)
}

/// The IPv4 address at `ip`, with the port at `port`.
fn read_v4(block: &[u8], ip: usize, port: usize) -> (r: SocketAddr)
    requires
        ip + 4 <= block.len(),
        port + 2 <= block.len(),
    ensures
        r@ == block_v4(block@, ip as int, port as int),
{
    let addr = SocketAddrV4 {
        ip: Ipv4Addr::new(block[ip], block[ip + 1], block[ip + 2], block[ip + 3]),
        port: join_octets(block[port], block[port + 1]),
    };
    assert(addr.ip.octets@ =~= block@.subrange(ip as int, ip + 4));
    SocketAddr::V4(addr)
}

/// The IPv6 address at `ip`, with the port at `port`.
fn read_v6(block: &[u8], ip: usize, port: usize) -> (r: SocketAddr)
    requires
        ip + 16 <= block.len(),
        port + 2 <= block.len(),
    ensures
        r@ == block_v6(block@, ip as int, port as int),
{
    SocketAddr::V6(
        SocketAddrV6 {
            ip: Ipv6Addr::from_octets(block, ip),
            port: join_octets(block[port], block[port + 1]),
            flowinfo: 0,
            scope_id: 0,
        },
    )
}

/// The ends of the connection that a header with the address block `block` declares.
fn read_endpoints(header: &[u8; 16], block: &[u8], socket: Option<Endpoints>) -> (r: Result<
    Endpoints,
    Error,
>)
    ensures
        match r {
            Ok(ends) => endpoints_of(header@, block@, view_of(socket)) == Ok::<
                (Address, Address),
                Seq<char>,
            >(ends@),
            Err(error) => error@.kind == ErrorKind::InvalidData && endpoints_of(
                header@,
                block@,
                view_of(socket),
            ) == Err::<(Address, Address), Seq<char>>(error@.message),
        },
{
    let command: u8 = header[12] % 16;
    let family: u8 = header[13] / 16;
    match command {
        // LOCAL: no client to declare.
        0 => match socket {
            Some(ends) => Ok(ends),
            None => Err(invalid("public side sent local proxy info (should be impossible)")),
        },
        1 => match family {
            // AF_INET: src_addr[4] dst_addr[4] src_port[2] dst_port[2]
            1 => {
                if block.len() < 12 {
                    return Err(invalid("truncated IPv4 address block"));
                }
                Ok(Endpoints { source: read_v4(block, 0, 8), dest: read_v4(block, 4, 10) })
            },
            // AF_INET6: src_addr[16] dst_addr[16] src_port[2] dst_port[2]
            2 => {
                if block.len() < 36 {
                    return Err(invalid("truncated IPv6 address block"));
                }
                Ok(Endpoints { source: read_v6(block, 0, 32), dest: read_v6(block, 16, 34) })
            },
            // AF_UNSPEC (0) or AF_UNIX (3) have no IP address.
            _ => Err(invalid("unsupported PROXY protocol address family")),
        },
        _ => Err(invalid("invalid PROXY protocol command")),
    }
}

/// What the ends of a connection denote, where there are any.
pub open spec fn view_of(socket: Option<Endpoints>) -> Option<(Address, Address)> {
    match socket {
        Some(ends) => Some(ends@),
        None => None,
    }
}

/// Takes in the address block that follows the prefix `header`.
pub fn parse_block(header: &[u8; 16], block: &[u8], socket: Option<Endpoints>) -> (r: Result<
    ProxyInfo,
    Error,
>)
    ensures
        match r {
            Ok(info) => {
                &&& endpoints_of(header@, block@, view_of(socket)) == Ok::<
                    (Address, Address),
                    Seq<char>,
                >((info@.source, info@.dest))
                &&& info@.raw_header == header@ + block@
            },
            Err(error) => error@.kind == ErrorKind::InvalidData && endpoints_of(
                header@,
                block@,
                view_of(socket),
            ) == Err::<(Address, Address), Seq<char>>(error@.message),
        },
{
    match read_endpoints(header, block, socket) {
        Ok(ends) => {
            let mut raw_header: Vec<u8> = Vec::new();
            raw_header.extend_from_slice(header);
            raw_header.extend_from_slice(block);
            assert(raw_header@ =~= header@ + block@);
            Ok(ProxyInfo { source_addr: ends.source, dest_addr: ends.dest, raw_header })
        },
        Err(error) => Err(error),
    }
}

/// Reads a PROXY protocol v2 header from the start of the stream.
///
/// The header ends where its raw bytes end: behind them, the stream holds application data.
/// For a LOCAL command, falls back to the real peer and local addresses of the `socket`.
pub fn read_proxy_header(stream: &[u8], socket: Option<Endpoints>) -> (r: Result<ProxyInfo, Error>)
    ensures
        match r {
            Ok(info) => info_of(stream@, view_of(socket)) == Ok::<Info, Failure>(info@),
            Err(error) => info_of(stream@, view_of(socket)) == Err::<Info, Failure>(error@),
        },
{
    if stream.len() < 16 {
        return Err(ended_after(stream.len() as u32));
    }
    let mut header: [u8; 16] = [0u8; 16];
    let mut i: usize = 0;
    while i < 16
        invariant
            i <= 16,
            stream.len() >= 16,
            forall|j: int| 0 <= j < i ==> #[trigger] header@[j] == stream@[j],
        decreases 16 - i,
    {
        header[i] = stream[i];
        i += 1;
    }
    assert(header@ =~= stream@.take(16));
    match parse_prefix(&header) {
        Ok(len) => {
            if stream.len() - 16 < len {
                return Err(ended_after((stream.len() - 16) as u32));
            }
            parse_block(&header, vstd::slice::slice_subrange(stream, 16, 16 + len), socket)
        },
        Err(error) => Err(error),
    }
}

// ---------------------------------------------------------------------------
// Routing
// ---------------------------------------------------------------------------
/// The first rule for the port `port`.
pub open spec fn rule_for(mappings: Seq<PortMapping>, port: u16) -> Option<PortMapping>
    decreases mappings.len(),
{
    if mappings.len() == 0 {
        None
    } else if mappings[0].source_port == port {
        Some(mappings[0])
    } else {
        rule_for(mappings.drop_first(), port)
    }
}

/// Finds the first rule for the port `port`.
pub fn find_mapping(mappings: &[PortMapping], port: u16) -> (r: Option<PortMapping>)
    ensures
        r == rule_for(mappings@, port),
{
    let mut i: usize = 0;
    assert(mappings@.skip(0) =~= mappings@);
    while i < mappings.len()
        invariant
            i <= mappings.len(),
            rule_for(mappings@.skip(i as int), port) == rule_for(mappings@, port),
        decreases mappings.len() - i,
    {
        if mappings[i].source_port == port {
            return Some(mappings[i]);
        }
        assert(mappings@.skip(i as int).drop_first() =~= mappings@.skip(i + 1));
        i += 1;
    }
    None
}

/// How far a stream from the public side has come.
pub enum StreamState {
    /// The header is being read.
    AwaitHeader,
    /// The upstream of the rule is being connected to; the bytes are the raw header.
    Connecting(PortMapping, Vec<u8>),
    /// The raw header is being written upstream.
    Forwarding,
    /// Bytes flow both ways.
    Relaying,
    /// Nothing is left to do.
    Done,
}

/// What has happened to a stream. Errors of the outside world, of type `E`, pass through as
/// they are.
pub enum StreamEvent<E> {
    /// The header was read, or could not be.
    Header(Result<ProxyInfo, E>),
    /// The upstream was connected to, or could not be.
    Connected(Result<(), E>),
    /// The raw header was written upstream, or could not be.
    Forwarded(Result<(), E>),
    /// Either direction has come to its end.
    Relayed,
}

/// What to do with a stream next.
pub enum StreamAction<E> {
    /// Connect to the upstream.
    Connect(SocketAddr),
    /// Write these bytes upstream.
    Forward(Vec<u8>),
    /// Copy bytes both ways until either direction ends.
    Relay,
    /// Give the stream up: first finish and stop it if `close`, then report `result`.
    Stop { close: bool, result: Result<(), E> },
}

/// Whether `event` can happen in `state`.
pub open spec fn expects<E>(state: StreamState, event: StreamEvent<E>) -> bool {
    match event {
        StreamEvent::Header(_) => state is AwaitHeader,
        StreamEvent::Connected(_) => state is Connecting,
        StreamEvent::Forwarded(_) => state is Forwarding,
        StreamEvent::Relayed => state is Relaying,
    }
}

/// The next state of a stream, and what to do.
pub open spec fn stream_step<E>(
    mappings: Seq<PortMapping>,
    state: StreamState,
    event: StreamEvent<E>,
) -> (StreamState, StreamAction<E>) {
    match event {
        // Without a header there is nothing to connect to.
        StreamEvent::Header(Err(error)) => (
            StreamState::Done,
            StreamAction::Stop { close: false, result: Err(error) },
        ),
        StreamEvent::Header(Ok(info)) => match rule_for(mappings, info@.dest.port()) {
            Some(mapping) => (
                StreamState::Connecting(mapping, info.raw_header),
                StreamAction::Connect(mapping.dest_addr),
            ),
            // Nobody listens for that port.
            None => (StreamState::Done, StreamAction::Stop { close: false, result: Ok(()) }),
        },
        StreamEvent::Connected(Err(error)) => (
            StreamState::Done,
            StreamAction::Stop { close: true, result: Err(error) },
        ),
        StreamEvent::Connected(Ok(_)) => match state {
            StreamState::Connecting(mapping, raw_header) if mapping.proxy_protocol => (
                StreamState::Forwarding,
                StreamAction::Forward(raw_header),
            ),
            _ => (StreamState::Relaying, StreamAction::Relay),
        },
        StreamEvent::Forwarded(Err(error)) => (
            StreamState::Done,
            StreamAction::Stop { close: false, result: Err(error) },
        ),
        StreamEvent::Forwarded(Ok(_)) => (StreamState::Relaying, StreamAction::Relay),
        StreamEvent::Relayed => (
            StreamState::Done,
            StreamAction::Stop { close: true, result: Ok(()) },
        ),
    }
}

/// Decides what happens to a stream next.
pub fn handle_stream<E>(
    mappings: &[PortMapping],
    state: StreamState,
    event: StreamEvent<E>,
) -> (r: (StreamState, StreamAction<E>))
    requires
        expects(state, event),
    ensures
        r == stream_step(mappings@, state, event),
{
    match event {
        StreamEvent::Header(Ok(info)) => {
            match find_mapping(mappings, info.dest_addr.port()) {
                Some(mapping) => (
                    StreamState::Connecting(mapping, info.raw_header),
                    StreamAction::Connect(mapping.dest_addr),
                ),
                None => (StreamState::Done, StreamAction::Stop { close: false, result: Ok(()) }),
            }
        },
        StreamEvent::Header(Err(error)) => (
            StreamState::Done,
            StreamAction::Stop { close: false, result: Err(error) },
        ),
        StreamEvent::Connected(Ok(_)) => match state {
            StreamState::Connecting(mapping, raw_header) => if mapping.proxy_protocol {
                (StreamState::Forwarding, StreamAction::Forward(raw_header))
            } else {
                (StreamState::Relaying, StreamAction::Relay)
            },
            _ => (StreamState::Relaying, StreamAction::Relay),
        },
        StreamEvent::Connected(Err(error)) => (
            StreamState::Done,
            StreamAction::Stop { close: true, result: Err(error) },
        ),
        StreamEvent::Forwarded(Ok(_)) => (StreamState::Relaying, StreamAction::Relay),
        StreamEvent::Forwarded(Err(error)) => (
            StreamState::Done,
            StreamAction::Stop { close: false, result: Err(error) },
        ),
        StreamEvent::Relayed => (
            StreamState::Done,
            StreamAction::Stop { close: true, result: Ok(()) },
        ),
    }
}

// ---------------------------------------------------------------------------
// Workers
// ---------------------------------------------------------------------------
/// A worker that serves the streams of the connection `conn`.
pub struct PrivateServer<C> {
    pub port_mappings: Vec<PortMapping>,
    pub conn: C,
}

/// What a worker waits for.
pub enum ServerEvent<C, S> {
    /// A new connection to the public side was announced; none where the announcement was
    /// lost.
    Connection(Option<C>),
    /// A stream was opened on the connection; none where accepting it failed.
    Stream(Option<S>),
}

/// The connection that a worker serves after `event`, when it served `conn` before.
pub open spec fn served_after<C, S>(conn: C, event: ServerEvent<C, S>) -> C {
    match event {
        ServerEvent::Connection(Some(newer)) => newer,
        _ => conn,
    }
}

/// The connection that a worker serves after `events`, when it started on `conn`.
pub open spec fn served<C, S>(conn: C, events: Seq<ServerEvent<C, S>>) -> C
    decreases events.len(),
{
    if events.len() == 0 {
        conn
    } else {
        served_after(served(conn, events.drop_last()), events.last())
    }
}

/// A worker serves the connection that was announced last, whatever streams came and whatever
/// announcements were lost since; and the one it started on where there was none.
pub proof fn law_worker_serves_the_newest_connection<C, S>(
    conn: C,
    events: Seq<ServerEvent<C, S>>,
    i: int,
)
    requires
        -1 <= i < events.len(),
        i >= 0 ==> (events[i] matches ServerEvent::Connection(Some(_))),
        forall|j: int|
            i < j < events.len() ==> !(#[trigger] events[j] matches ServerEvent::Connection(
                Some(_),
            )),
    ensures
        served(conn, events) == (if i >= 0 {
            events[i]->Connection_0->0
        } else {
            conn
        }),
    decreases events.len(),
{
    if events.len() > 0 {
        let before = events.drop_last();
        if i < events.len() - 1 {
            assert(!(events[events.len() - 1] matches ServerEvent::Connection(Some(_))));
            assert forall|j: int| i < j < before.len() implies !(
            #[trigger] before[j] matches ServerEvent::Connection(Some(_))) by {
                assert(before[j] == events[j]);
            }
            law_worker_serves_the_newest_connection(conn, before, i);
        }
    }
}

impl<C> PrivateServer<C> {
    /// Takes in `event`: a new connection takes the place of the old one, and a stream is
    /// handed back to be handled.
    pub fn run_step<S>(&mut self, event: ServerEvent<C, S>) -> (r: Option<S>)
        ensures
            final(self).port_mappings == old(self).port_mappings,
            final(self).conn == served_after(old(self).conn, event),
            final(self).conn == (match event {
                ServerEvent::Connection(Some(conn)) => conn,
                _ => old(self).conn,
            }),
            r == (match event {
                ServerEvent::Stream(stream) => stream,
                ServerEvent::Connection(_) => None,
            }),
    {
        match event {
            ServerEvent::Connection(Some(conn)) => {
                self.conn = conn;
                None
            },
            ServerEvent::Connection(None) => None,
            ServerEvent::Stream(stream) => stream,
        }
    }
}

/// `num_cpus::get` of the crate of that name: how many processors this machine lends to the
/// program, which is at least one. How many more is up to the machine.
#[verifier::external_body]
fn available_cpus() -> (r: usize)
    ensures
        r >= 1,
{
    num_cpus::get()
}

/// How many workers `cpus` processors get: all but one, and at least one.
pub open spec fn workers_for(cpus: int) -> int {
    if cpus <= 2 {
        1
    } else {
        cpus - 1
    }
}

/// The number of workers for `cpus` processors.
pub fn worker_count(cpus: usize) -> (r: usize)
    requires
        cpus >= 1,
    ensures
        r == workers_for(cpus as int),
        cpus == 1 ==> r == 1,
        cpus >= 2 ==> r == cpus - 1,
{
    if cpus - 1 < 1 {
        1
    } else {
        cpus - 1
    }
}

/// One processor is left free where there is more than one, and there is always a worker.
pub proof fn law_workers_leave_one_processor(cpus: int)
    requires
        cpus >= 1,
    ensures
        workers_for(cpus) >= 1,
        cpus >= 2 ==> workers_for(cpus) + 1 == cpus,
        cpus == 1 ==> workers_for(cpus) == cpus,
{
}

/// The number of workers for this machine: one less than the processors it lends, and at
/// least one.
pub fn worker_threads() -> (r: usize)
    ensures
        r >= 1,
{
    worker_count(available_cpus())
}

// ---------------------------------------------------------------------------
// The link to the public side
// ---------------------------------------------------------------------------
/// The application protocol that the two sides speak: `/sock-it-forward/0`.
pub const ALPN: [u8; 18] = [
    0x2F,
    0x73,
    0x6F,
    0x63,
    0x6B,
    0x2D,
    0x69,
    0x74,
    0x2D,
    0x66,
    0x6F,
    0x72,
    0x77,
    0x61,
    0x72,
    0x64,
    0x2F,
    0x30,
];

/// What has happened to the link to the public side.
#[derive(Debug, PartialEq, Eq)]
pub enum LinkEvent<C> {
    /// The program has started.
    Started,
    /// The public side could not be reached.
    ConnectFailed,
    /// The wait before the next attempt is over.
    Waited,
    /// The public side was reached, over this connection.
    Connected(C),
    /// The connection was closed.
    Closed,
}

/// What to do about the link next.
#[derive(Debug, PartialEq, Eq)]
pub enum LinkAction<C> {
    /// Connect to the holder of the key `public_side`, to speak the protocol `alpn`.
    Connect { public_side: PublicKey, alpn: [u8; 18] },
    /// Wait that long, then connect again.
    Wait { seconds: u64 },
    /// Let the public side open that many streams at a time on `conn`, announce `conn` to the
    /// workers, and wait until it is closed.
    Serve { conn: C, max_streams: u16 },
}

/// What `event` calls for: an attempt to connect goes to the public side of the configuration,
/// one that failed is made again after a second, and a link that was closed is set up again at
/// once.
pub open spec fn link_action<C>(config: PrivateConfig, event: LinkEvent<C>) -> LinkAction<C> {
    match event {
        LinkEvent::Started | LinkEvent::Waited | LinkEvent::Closed => LinkAction::Connect {
            public_side: config.public_endpoint_addr,
            alpn: ALPN,
        },
        LinkEvent::ConnectFailed => LinkAction::Wait { seconds: 1 },
        LinkEvent::Connected(conn) => LinkAction::Serve { conn, max_streams: 16383 },
    }
}

/// Whether doing `action` can end in `event`.
pub open spec fn link_outcome<C>(action: LinkAction<C>, event: LinkEvent<C>) -> bool {
    match action {
        LinkAction::Connect { .. } => event is Connected || event is ConnectFailed,
        LinkAction::Wait { .. } => event is Waited,
        LinkAction::Serve { .. } => event is Closed,
    }
}

/// Whether the event behind the one at `i` came of doing what that one called for.
pub open spec fn link_goes_on<C>(
    config: PrivateConfig,
    events: Seq<LinkEvent<C>>,
    i: int,
) -> bool {
    link_outcome(link_action(config, events[i]), events[i + 1])
}

/// Whether `events` is what can happen to the link, from the start of the program on.
pub open spec fn link_history<C>(config: PrivateConfig, events: Seq<LinkEvent<C>>) -> bool {
    &&& events.len() > 0
    &&& events[0] is Started
    &&& forall|i: int| 0 <= i < events.len() - 1 ==> #[trigger] link_goes_on(config, events, i)
}

/// Decides what to do about the link.
pub fn private_side<C>(config: &PrivateConfig, event: LinkEvent<C>) -> (r: LinkAction<C>)
    ensures
        r == link_action(*config, event),
{
    match event {
        LinkEvent::Started | LinkEvent::Waited | LinkEvent::Closed => LinkAction::Connect {
            public_side: config.public_endpoint_addr,
            alpn: ALPN,
        },
        LinkEvent::ConnectFailed => LinkAction::Wait { seconds: 1 },
        LinkEvent::Connected(conn) => LinkAction::Serve { conn, max_streams: u16::MAX / 4 },
    }
}

/// What becomes of the link is decided by the last event alone: the program connects at the
/// start, after a wait and after a close; it waits a second after an attempt that failed; and it
/// serves the connection that was made.
pub proof fn law_link_answers<C>(config: PrivateConfig, event: LinkEvent<C>)
    ensures
        link_action(config, event) is Connect <==> event is Started || event is Waited
            || event is Closed,
        link_action(config, event) is Wait <==> event is ConnectFailed,
        link_action(config, event) matches LinkAction::Wait { seconds } ==> seconds == 1,
        event matches LinkEvent::Connected(made) ==> link_action(config, event) == (
        LinkAction::Serve { conn: made, max_streams: (65535u16 / 4) as u16 }),
{
}

/// Every attempt to connect goes to the holder of the configured key, under the protocol of
/// the two sides.
pub proof fn law_connects_to_the_configured_public_side<C>(
    config: PrivateConfig,
    event: LinkEvent<C>,
)
    ensures
        link_action(config, event) matches LinkAction::Connect { public_side, alpn } ==> {
            &&& public_side == config.public_endpoint_addr
            &&& alpn@ == ALPN@
        },
{
}

/// The link is never given up: a lost connection is followed by an attempt at a new one, and
/// a failed attempt by a wait of a second and another attempt.
pub proof fn law_link_is_set_up_again<C>(
    config: PrivateConfig,
    event: LinkEvent<C>,
    next: LinkEvent<C>,
)
    requires
        link_outcome(link_action(config, event), next),
    ensures
        event is Connected ==> link_action(config, next) is Connect,
        event is ConnectFailed ==> link_action(config, next) is Connect,
        next is ConnectFailed ==> link_action(config, next) == (LinkAction::<C>::Wait {
            seconds: 1,
        }),
{
}

/// There is one connection at a time, and every connection is served once. Whatever happens to
/// the link: an attempt to connect is the first, or follows the second of rest after a failed
/// one, or the close of the connection before; and a connection is served where an attempt has
/// just made it, and nowhere else.
pub proof fn law_one_connection_at_a_time<C>(
    config: PrivateConfig,
    events: Seq<LinkEvent<C>>,
    i: int,
)
    requires
        link_history(config, events),
        0 <= i < events.len(),
    ensures
        match link_action(config, events[i]) {
            LinkAction::Connect { .. } => {
                ||| i == 0
                ||| link_action(config, events[i - 1]) == (LinkAction::<C>::Wait { seconds: 1 })
                ||| link_action(config, events[i - 1]) is Serve && events[i] is Closed
            },
            LinkAction::Wait { .. } => i > 0 && link_action(config, events[i - 1]) is Connect
                && events[i] is ConnectFailed,
            LinkAction::Serve { conn, max_streams } => {
                &&& i > 0
                &&& link_action(config, events[i - 1]) is Connect
                &&& events[i] == LinkEvent::Connected(conn)
                &&& max_streams == 16383
            },
        },
{
    if i > 0 {
        assert(link_goes_on(config, events, i - 1));
    }
}

} // verus!
