//! The public side: admits the private side, and puts in front of every connection that it
//! accepts a header that says between which addresses it runs.
use vstd::prelude::*;

use proxy_protocol::version2;

use crate::keys::{PublicKey, SecretKey};
use crate::socket_addr::{Address, SocketAddr, SocketAddrV4, SocketAddrV6};

verus! {

/// What the public side is started with.
pub struct PublicConfig {
    pub addrs: Vec<SocketAddr>,
    /// The one and only key pair allowed to connect the private
    /// to the private side to the public side of the forwarder
    pub allowed_peer_key: Option<PublicKey>,
    pub secret_key: SecretKey,
}

// ---------------------------------------------------------------------------
// The PROXY protocol header
// ---------------------------------------------------------------------------
/// The command of a header.
#[derive(Debug, Clone, Copy, PartialEq, Eq, Structural)]
pub enum ProxyCommand {
    Local,
    Proxy,
}

/// The transport protocol of a header.
#[derive(Debug, Clone, Copy, PartialEq, Eq, Structural)]
pub enum ProxyTransportProtocol {
    Unspec,
    Stream,
    Datagram,
}

/// The addresses of a header.
#[derive(Debug, Clone, Copy, PartialEq, Eq)]
#[allow(inconsistent_fields)]
pub enum ProxyAddresses {
    Ipv4 { source: SocketAddrV4, destination: SocketAddrV4 },
    Ipv6 { source: SocketAddrV6, destination: SocketAddrV6 },
}

/// A header of the PROXY protocol, version 2.
#[derive(Debug, Clone, Copy, PartialEq, Eq)]
pub struct ProxyHeader {
    pub command: ProxyCommand,
    pub transport_protocol: ProxyTransportProtocol,
    pub addresses: ProxyAddresses,
}

impl ProxyAddresses {
    pub open spec fn source(self) -> Address {
        match self {
            ProxyAddresses::Ipv4 { source, .. } => source@,
            ProxyAddresses::Ipv6 { source, .. } => source@,
        }
    }

    pub open spec fn destination(self) -> Address {
        match self {
            ProxyAddresses::Ipv4 { destination, .. } => destination@,
            ProxyAddresses::Ipv6 { destination, .. } => destination@,
        }
    }
}

/// Whether the two addresses are of one family.
pub open spec fn same_family(a: Address, b: Address) -> bool {
    a is V4 <==> b is V4
}

/// The octets of an address, in network order.
pub open spec fn ip_bytes(address: Address) -> Seq<u8> {
    match address {
        Address::V4 { octets, .. } => octets,
        Address::V6 { segments, .. } => crate::socket_addr::octets_of(segments),
    }
}

/// The two octets of a port, in network order.
pub open spec fn port_bytes(port: u16) -> Seq<u8> {
    seq![crate::socket_addr::high_octet(port), crate::socket_addr::low_octet(port)]
}

/// The address block for a connection from `source` to `destination`.
pub open spec fn block_bytes(source: Address, destination: Address) -> Seq<u8> {
    ip_bytes(source) + ip_bytes(destination) + port_bytes(source.port()) + port_bytes(
        destination.port(),
    )
}

/// The low half of the byte that holds version and command.
pub open spec fn command_code(command: ProxyCommand) -> u8 {
    match command {
        ProxyCommand::Local => 0,
        ProxyCommand::Proxy => 1,
    }
}

/// The low half of the byte that holds family and transport protocol.
pub open spec fn transport_code(transport_protocol: ProxyTransportProtocol) -> u8 {
    match transport_protocol {
        ProxyTransportProtocol::Unspec => 0,
        ProxyTransportProtocol::Stream => 1,
        ProxyTransportProtocol::Datagram => 2,
    }
}

/// The bytes of a header: signature, version and command, family and protocol, the length
/// of the address block, and the block.
pub open spec fn header_bytes(header: ProxyHeader) -> Seq<u8> {
    let family: u8 = if header.addresses is Ipv4 {
        1
    } else {
        2
    };
    let block = block_bytes(header.addresses.source(), header.addresses.destination());
    crate::private_side::SIGNATURE@ + seq![
        (2 * 16 + command_code(header.command)) as u8,
        (family * 16 + transport_code(header.transport_protocol)) as u8,
    ] + port_bytes(block.len() as u16) + block
}

/// The header for a connection that `peer_addr` made to `local_addr`.
pub fn create_proxy_header(local_addr: SocketAddr, peer_addr: SocketAddr) -> (r: ProxyHeader)
    requires
        same_family(local_addr@, peer_addr@),
    ensures
        r.command == ProxyCommand::Proxy,
        r.transport_protocol == ProxyTransportProtocol::Stream,
        r.addresses is Ipv4 <==> peer_addr@ is V4,
        r.addresses.source() == peer_addr@,
        r.addresses.destination() == local_addr@,
        match (peer_addr, local_addr) {
            (SocketAddr::V4(peer), SocketAddr::V4(local)) => r.addresses == (ProxyAddresses::Ipv4 {
                source: peer,
                destination: local,
            }),
            (SocketAddr::V6(peer), SocketAddr::V6(local)) => r.addresses == (ProxyAddresses::Ipv6 {
                source: peer,
                destination: local,
            }),
            _ => false,
        },
{
    let addresses: ProxyAddresses = match (peer_addr, local_addr) {
        (SocketAddr::V4(source), SocketAddr::V4(destination)) => ProxyAddresses::Ipv4 {
            source,
            destination,
        },
        (SocketAddr::V6(source), SocketAddr::V6(destination)) => ProxyAddresses::Ipv6 {
            source,
            destination,
        },
        _ => vstd::pervasive::unreached(),
    };
    ProxyHeader {
        command: ProxyCommand::Proxy,
        transport_protocol: ProxyTransportProtocol::Stream,
        addresses,
    }
}

/// `proxy_protocol::encode` of the crate `proxy-protocol`, on a header of version 2: gives the
/// bytes of the header, and does not fail. The addresses are handed over in their text form,
/// which the standard library reads back as the same address and port; neither a flow label
/// nor a scope has a place in the bytes.
#[verifier::external_body]
fn encode(header: &ProxyHeader, source: &str, destination: &str) -> (r: Option<Vec<u8>>)
    requires
        source@ == crate::address_text::address_text(header.addresses.source()),
        destination@ == crate::address_text::address_text(header.addresses.destination()),
    ensures
        r is Some,
        r->0@ == header_bytes(*header),
{
    let command = match header.command {
        ProxyCommand::Local => version2::ProxyCommand::Local,
        ProxyCommand::Proxy => version2::ProxyCommand::Proxy,
    };
    let transport_protocol = match header.transport_protocol {
        ProxyTransportProtocol::Unspec => version2::ProxyTransportProtocol::Unspec,
        ProxyTransportProtocol::Stream => version2::ProxyTransportProtocol::Stream,
        ProxyTransportProtocol::Datagram => version2::ProxyTransportProtocol::Datagram,
    };
    let addresses = match header.addresses {
        ProxyAddresses::Ipv4 { .. } => version2::ProxyAddresses::Ipv4 { source: source.parse().ok()?, destination: destination.parse().ok()? },
        ProxyAddresses::Ipv6 { .. } => version2::ProxyAddresses::Ipv6 { source: source.parse().ok()?, destination: destination.parse().ok()? },
    };
    Some(proxy_protocol::encode(proxy_protocol::ProxyHeader::Version2 { command, transport_protocol, addresses }).ok()?.to_vec())
}

/// The bytes to put in front of a connection that `peer_addr` made to `local_addr`.
pub fn proxy_header_bytes(local_addr: SocketAddr, peer_addr: SocketAddr) -> (r: Vec<u8>)
    requires
        same_family(local_addr@, peer_addr@),
    ensures
        r@ == connection_header(local_addr@, peer_addr@),
{
    let header: ProxyHeader = create_proxy_header(local_addr, peer_addr);
    let source: String = peer_addr.to_string();
    let destination: String = local_addr.to_string();
    match encode(&header, source.as_str(), destination.as_str()) {
        Some(bytes) => bytes,
        None => vstd::pervasive::unreached(),
    }
}

/// The header for a connection that `peer` made to `local`: version 2, PROXY, TCP over the
/// family of the addresses.
pub open spec fn connection_header(local: Address, peer: Address) -> Seq<u8> {
    crate::private_side::SIGNATURE@ + (if peer is V4 {
        seq![0x21u8, 0x11, 0, 12]
    } else {
        seq![0x21u8, 0x21, 0, 36]
    }) + block_bytes(peer, local)
}

// ---------------------------------------------------------------------------
// Connections from the outside
// ---------------------------------------------------------------------------
/// How far a connection from the outside has come.
pub enum AcceptState {
    /// It was accepted on `local`, from `remote`.
    Accepted { local: SocketAddr, remote: SocketAddr },
    /// A stream to the private side is being opened for it.
    Opening { local: SocketAddr, remote: SocketAddr },
    /// The header is being written to that stream.
    Writing,
    /// Bytes flow both ways.
    Relaying,
    /// Nothing is left to do.
    Done,
}

/// What has happened to such a connection.
#[derive(Debug, Clone, Copy, PartialEq, Eq, Structural)]
pub enum AcceptEvent {
    /// It was found out whether the private side is connected.
    Link { connected: bool },
    /// The stream was opened, or could not be.
    Opened { ok: bool },
    /// The header was written, or could not be.
    Written { ok: bool },
    /// Either direction has come to its end.
    Relayed,
}

/// What to do with such a connection next.
pub enum AcceptAction {
    /// Open a stream to the private side.
    Open,
    /// Write these bytes to the stream.
    Write(Vec<u8>),
    /// Copy bytes both ways until either direction ends.
    Relay,
    /// Reset and stop the stream.
    Close,
    /// Drop the connection.
    Drop,
}

impl AcceptState {
    /// Whether the addresses that the state holds are of one family.
    pub open spec fn one_family(self) -> bool {
        match self {
            AcceptState::Accepted { local, remote } => same_family(local@, remote@),
            AcceptState::Opening { local, remote } => same_family(local@, remote@),
            _ => true,
        }
    }

    /// Whether `event` can happen in this state.
    pub open spec fn expects(self, event: AcceptEvent) -> bool {
        match event {
            AcceptEvent::Link { .. } => self is Accepted,
            AcceptEvent::Opened { .. } => self is Opening,
            AcceptEvent::Written { .. } => self is Writing,
            AcceptEvent::Relayed => self is Relaying,
        }
    }
}

/// Whether `event` in `state` leads to the state `next` and calls for `action`: the connection
/// gets a stream of its own to the private side, with the header in front, and is dropped
/// where a step fails.
pub open spec fn accept_step(
    state: AcceptState,
    event: AcceptEvent,
    next: AcceptState,
    action: AcceptAction,
) -> bool {
    match event {
        AcceptEvent::Link { connected: true } => {
            &&& action is Open
            &&& next == (AcceptState::Opening {
                local: state->Accepted_local,
                remote: state->Accepted_remote,
            })
        },
        AcceptEvent::Opened { ok: true } => {
            &&& next is Writing
            &&& action is Write
            &&& action->Write_0@ == connection_header(
                state->Opening_local@,
                state->Opening_remote@,
            )
        },
        AcceptEvent::Written { ok: true } => next is Relaying && action is Relay,
        AcceptEvent::Relayed => next is Done && action is Close,
        _ => next is Done && action is Drop,
    }
}

/// Decides what happens to a connection from the outside next. Once the stream is open, the
/// header is due, which is for two addresses of one family.
pub fn accept(state: AcceptState, event: AcceptEvent) -> (r: (AcceptState, AcceptAction))
    requires
        state.expects(event),
        event == (AcceptEvent::Opened { ok: true }) ==> state.one_family(),
    ensures
        state.one_family() ==> r.0.one_family(),
        accept_step(state, event, r.0, r.1),
{
    match (state, event) {
        (AcceptState::Accepted { local, remote }, AcceptEvent::Link { connected: true }) => (
            AcceptState::Opening { local, remote },
            AcceptAction::Open,
        ),
        (AcceptState::Opening { local, remote }, AcceptEvent::Opened { ok: true }) => (
            AcceptState::Writing,
            AcceptAction::Write(proxy_header_bytes(local, remote)),
        ),
        (AcceptState::Writing, AcceptEvent::Written { ok: true }) => (
            AcceptState::Relaying,
            AcceptAction::Relay,
        ),
        (AcceptState::Relaying, AcceptEvent::Relayed) => (AcceptState::Done, AcceptAction::Close),
        _ => (AcceptState::Done, AcceptAction::Drop),
    }
}

/// A connection that meets no failure gets a stream, then its header is written to it, and
/// only then do its bytes flow; at the end, the stream is closed.
pub proof fn law_header_goes_first(
    local: SocketAddr,
    remote: SocketAddr,
    states: Seq<AcceptState>,
    actions: Seq<AcceptAction>,
)
    requires
        states.len() == 5,
        actions.len() == 4,
        states[0] == (AcceptState::Accepted { local, remote }),
        accept_step(states[0], AcceptEvent::Link { connected: true }, states[1], actions[0]),
        accept_step(states[1], AcceptEvent::Opened { ok: true }, states[2], actions[1]),
        accept_step(states[2], AcceptEvent::Written { ok: true }, states[3], actions[2]),
        accept_step(states[3], AcceptEvent::Relayed, states[4], actions[3]),
    ensures
        actions[0] is Open,
        actions[1] is Write,
        actions[1]->Write_0@ == connection_header(local@, remote@),
        actions[2] is Relay,
        actions[3] is Close,
        states[4] is Done,
{
}

/// A connection is dropped exactly where a step failed, its stream is closed exactly where its
/// bytes have been relayed, and every step that succeeded is followed by the next.
pub proof fn law_only_failures_drop_a_connection(
    state: AcceptState,
    event: AcceptEvent,
    next: AcceptState,
    action: AcceptAction,
)
    requires
        state.expects(event),
        accept_step(state, event, next, action),
    ensures
        action is Drop <==> {
            ||| event == (AcceptEvent::Link { connected: false })
            ||| event == (AcceptEvent::Opened { ok: false })
            ||| event == (AcceptEvent::Written { ok: false })
        },
        action is Open <==> event == (AcceptEvent::Link { connected: true }),
        action is Write <==> event == (AcceptEvent::Opened { ok: true }),
        action is Relay <==> event == (AcceptEvent::Written { ok: true }),
        action is Close <==> event == AcceptEvent::Relayed,
        next is Opening <==> action is Open,
        next is Writing <==> action is Write,
        next is Relaying <==> action is Relay,
{
}

/// How far down the way a state is.
pub open spec fn stage(state: AcceptState) -> int {
    match state {
        AcceptState::Accepted { .. } => 0,
        AcceptState::Opening { .. } => 1,
        AcceptState::Writing => 2,
        AcceptState::Relaying => 3,
        AcceptState::Done => 4,
    }
}

/// Every step of a connection goes on to a state further down the way, and the last step
/// closes its stream or drops it.
pub proof fn law_connections_advance(
    state: AcceptState,
    event: AcceptEvent,
    next: AcceptState,
    action: AcceptAction,
)
    requires
        state.expects(event),
        accept_step(state, event, next, action),
    ensures
        stage(next) > stage(state),
        next is Done <==> action is Close || action is Drop,
{
}

// ---------------------------------------------------------------------------
// The link to the private side
// ---------------------------------------------------------------------------
/// What has knocked at the endpoint of the public side.
pub enum Incoming<C> {
    /// A connection `conn` from the holder of the key `remote_id`.
    Connection { conn: C, remote_id: PublicKey },
    /// A connection that could not be set up.
    Failed,
    /// The endpoint was closed: nothing will come any more.
    Finished,
}

/// What to do about it.
pub enum IncomingAction<C> {
    /// This is the private side from now on, in place of any before it.
    Install(C),
    /// Close this connection.
    Refuse(C),
    /// Wait for the next.
    Wait,
    /// Stop listening.
    Stop,
}

/// Whether the holder of the key `remote` may be the private side: only the holder of the
/// key `allowed`, where there is one, and anyone otherwise.
pub open spec fn admits(allowed: Option<PublicKey>, remote: PublicKey) -> bool {
    match allowed {
        Some(key) => key.bytes@ == remote.bytes@,
        None => true,
    }
}

/// The action that `incoming` calls for.
pub open spec fn incoming_action<C>(
    allowed: Option<PublicKey>,
    incoming: Incoming<C>,
) -> IncomingAction<C> {
    match incoming {
        Incoming::Connection { conn, remote_id } => if admits(allowed, remote_id) {
            IncomingAction::Install(conn)
        } else {
            IncomingAction::Refuse(conn)
        },
        Incoming::Failed => IncomingAction::Wait,
        Incoming::Finished => IncomingAction::Stop,
    }
}

/// Decides about what has knocked at the endpoint.
pub fn public_side<C>(allowed: &Option<PublicKey>, incoming: Incoming<C>) -> (r: IncomingAction<C>)
    ensures
        r == incoming_action(*allowed, incoming),
{
    match incoming {
        Incoming::Connection { conn, remote_id } => {
            let admitted: bool = match allowed {
                Some(key) => key.same_as(&remote_id),
                None => true,
            };
            if admitted {
                IncomingAction::Install(conn)
            } else {
                IncomingAction::Refuse(conn)
            }
        },
        Incoming::Failed => IncomingAction::Wait,
        Incoming::Finished => IncomingAction::Stop,
    }
}

/// The connection that is the private side after `history`, with the key of its holder.
pub open spec fn installed<C>(allowed: Option<PublicKey>, history: Seq<Incoming<C>>) -> Option<
    (C, PublicKey),
>
    decreases history.len(),
{
    if history.len() == 0 {
        None
    } else {
        let before = installed(allowed, history.drop_last());
        match history.last() {
            Incoming::Connection { conn, remote_id } => if incoming_action(
                allowed,
                history.last(),
            ) is Install {
                Some((conn, remote_id))
            } else {
                before
            },
            _ => before,
        }
    }
}

/// Whatever knocks, and in whatever order: only the holder of the allowed key is ever the
/// private side.
pub proof fn law_only_the_allowed_key_is_installed<C>(
    allowed: PublicKey,
    history: Seq<Incoming<C>>,
)
    ensures
        installed(Some(allowed), history) matches Some((_, key)) ==> key.bytes@ == allowed.bytes@,
    decreases history.len(),
{
    if history.len() > 0 {
        law_only_the_allowed_key_is_installed(allowed, history.drop_last());
    }
}

/// A connection that is refused leaves the private side as it was.
pub proof fn law_refused_connection_changes_nothing<C>(
    allowed: Option<PublicKey>,
    history: Seq<Incoming<C>>,
    conn: C,
    remote_id: PublicKey,
)
    requires
        !admits(allowed, remote_id),
    ensures
        installed(allowed, history.push(Incoming::Connection { conn, remote_id })) == installed(
            allowed,
            history,
        ),
{
    let longer = history.push(Incoming::Connection { conn, remote_id });
    assert(longer.drop_last() =~= history);
}

/// The connection that was admitted last is the private side.
pub proof fn law_newest_admitted_connection_wins<C>(
    allowed: Option<PublicKey>,
    history: Seq<Incoming<C>>,
    conn: C,
    remote_id: PublicKey,
)
    requires
        admits(allowed, remote_id),
    ensures
        installed(allowed, history.push(Incoming::Connection { conn, remote_id })) == Some(
            (conn, remote_id),
        ),
{
    let longer = history.push(Incoming::Connection { conn, remote_id });
    assert(longer.drop_last() =~= history);
    assert(longer.last() == Incoming::Connection { conn, remote_id });
}

/// Every knock has its answer, with or without an allowed key: a connection is taken where its
/// key may be the private side and closed where not, a handshake that failed is passed over,
/// and only the end of the endpoint ends the listening.
pub proof fn law_every_knock_is_answered<C>(allowed: Option<PublicKey>, incoming: Incoming<C>)
    ensures
        incoming_action(allowed, incoming) is Stop <==> incoming is Finished,
        incoming_action(allowed, incoming) is Wait <==> incoming is Failed,
        incoming matches Incoming::Connection { conn, remote_id } ==> {
            let welcome = allowed matches Some(key) ==> key.bytes@ == remote_id.bytes@;
            &&& welcome ==> incoming_action(allowed, incoming) == IncomingAction::Install(conn)
            &&& !welcome ==> incoming_action(allowed, incoming) == IncomingAction::Refuse(conn)
        },
{
}

} // verus!
