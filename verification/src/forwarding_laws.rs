//! Laws of the two sides taken together: what the public side puts in front of a stream, and
//! what the private side makes of it.
use vstd::prelude::*;

use crate::port_mapping::PortMapping;
use crate::private_side::{Info, ProxyInfo, StreamAction, StreamEvent, StreamState};
use crate::socket_addr::{Address, SocketAddr};

verus! {

/// Two octets of a number make that number again.
proof fn lemma_octets_join(n: u16)
    ensures
        crate::socket_addr::big_endian(
            crate::socket_addr::high_octet(n),
            crate::socket_addr::low_octet(n),
        ) == n,
{
}

/// Sixteen octets of eight segments make those segments again.
proof fn lemma_segments_join(segments: Seq<u16>)
    requires
        segments.len() == 8,
    ensures
        crate::socket_addr::segments_of(crate::socket_addr::octets_of(segments)) == segments,
{
    let octets = crate::socket_addr::octets_of(segments);
    assert forall|i: int| 0 <= i < 8 implies #[trigger] crate::socket_addr::segments_of(octets)[i]
        == segments[i] by {
        lemma_octets_join(segments[i]);
        assert((2 * i) / 2 == i && (2 * i + 1) / 2 == i);
        assert((2 * i) % 2 == 0 && (2 * i + 1) % 2 == 1);
    }
    assert(crate::socket_addr::segments_of(octets) =~= segments);
}

/// The prefix and the address block of the header that the public side writes.
proof fn lemma_header_parts(local: Address, peer: Address)
    requires
        crate::public_side::same_family(local, peer),
        local.well_formed(),
        peer.well_formed(),
    ensures
        ({
            let bytes = crate::public_side::connection_header(local, peer);
            let header = bytes.take(16);
            let block = bytes.skip(16);
            let len: int = if peer is V4 {
                12
            } else {
                36
            };
            &&& bytes.len() == 16 + len
            &&& crate::private_side::block_len_of(header) == Ok::<nat, Seq<char>>(len as nat)
            &&& header[12] == 0x21
            &&& header[13] == (if peer is V4 {
                0x11u8
            } else {
                0x21u8
            })
            &&& block == crate::public_side::block_bytes(peer, local)
        }),
{
    let bytes = crate::public_side::connection_header(local, peer);
    assert(bytes.take(16).take(12) =~= crate::private_side::SIGNATURE@);
    assert(bytes.skip(16) =~= crate::public_side::block_bytes(peer, local));
}

/// The address block gives the two addresses back.
proof fn lemma_block_reads_back(local: Address, peer: Address)
    requires
        crate::public_side::same_family(local, peer),
        local.well_formed(),
        peer.well_formed(),
    ensures
        ({
            let block = crate::public_side::block_bytes(peer, local);
            if peer is V4 {
                &&& crate::private_side::block_v4(block, 0, 8) == peer.on_wire()
                &&& crate::private_side::block_v4(block, 4, 10) == local.on_wire()
            } else {
                &&& crate::private_side::block_v6(block, 0, 32) == peer.on_wire()
                &&& crate::private_side::block_v6(block, 16, 34) == local.on_wire()
            }
        }),
{
    let block = crate::public_side::block_bytes(peer, local);
    lemma_octets_join(peer.port());
    lemma_octets_join(local.port());
    let from = crate::public_side::ip_bytes(peer);
    let to = crate::public_side::ip_bytes(local);
    match (peer, local) {
        (Address::V4 { .. }, Address::V4 { .. }) => {
            assert(block.subrange(0, 4) =~= from);
            assert(block.subrange(4, 8) =~= to);
        },
        (Address::V6 { segments: s, .. }, Address::V6 { segments: d, .. }) => {
            lemma_segments_join(s);
            lemma_segments_join(d);
            assert(block.subrange(0, 16) =~= from);
            assert(block.subrange(16, 32) =~= to);
        },
        _ => {},
    }
}

/// What the private side reads is what the public side wrote: whatever application data
/// follows, it learns both ends of the connection, takes exactly the header off the stream,
/// and keeps its bytes as they were.
pub proof fn law_header_reads_back(
    local: Address,
    peer: Address,
    data: Seq<u8>,
    socket: Option<(Address, Address)>,
)
    requires
        crate::public_side::same_family(local, peer),
        local.well_formed(),
        peer.well_formed(),
    ensures
        crate::private_side::info_of(
            crate::public_side::connection_header(local, peer) + data,
            socket,
        ) == Ok::<Info, crate::error::Failure>(
            Info {
                source: peer.on_wire(),
                dest: local.on_wire(),
                raw_header: crate::public_side::connection_header(local, peer),
            },
        ),
{
    let bytes = crate::public_side::connection_header(local, peer);
    let stream = bytes + data;
    lemma_header_parts(local, peer);
    lemma_block_reads_back(local, peer);
    assert(stream.take(16) =~= bytes.take(16));
    assert(stream.subrange(16, bytes.len() as int) =~= bytes.skip(16));
    assert(bytes.take(16) + bytes.skip(16) =~= bytes);
}

/// A stream that ends inside the header of the public side is an error, wherever it ends: the
/// error says how many bytes of the prefix, or of the address block behind it, there were.
pub proof fn law_cut_header_is_refused(
    local: Address,
    peer: Address,
    n: int,
    socket: Option<(Address, Address)>,
)
    requires
        crate::public_side::same_family(local, peer),
        local.well_formed(),
        peer.well_formed(),
        0 <= n < crate::public_side::connection_header(local, peer).len(),
    ensures
        crate::private_side::info_of(
            crate::public_side::connection_header(local, peer).take(n),
            socket,
        ) == Err::<Info, crate::error::Failure>(
            crate::private_side::finished_early(
                (if n < 16 {
                    n
                } else {
                    n - 16
                }) as nat,
            ),
        ),
{
    let bytes = crate::public_side::connection_header(local, peer);
    lemma_header_parts(local, peer);
    if n >= 16 {
        assert(bytes.take(n).take(16) =~= bytes.take(16));
    }
}

/// After a header was read, the stream stands at the first byte of application data: the raw
/// header is the start of the stream, and what follows has no influence on what was read.
pub proof fn law_header_ends_where_data_starts(
    stream: Seq<u8>,
    data: Seq<u8>,
    socket: Option<(Address, Address)>,
)
    requires
        crate::private_side::info_of(stream, socket) is Ok,
    ensures
        ({
            let raw = crate::private_side::info_of(stream, socket)->Ok_0.raw_header;
            &&& raw.len() <= stream.len()
            &&& raw == stream.take(raw.len() as int)
            &&& crate::private_side::info_of(raw + data, socket) == crate::private_side::info_of(
                stream,
                socket,
            )
        }),
{
    let raw = crate::private_side::info_of(stream, socket)->Ok_0.raw_header;
    let header = stream.take(16);
    let block = stream.subrange(16, raw.len() as int);
    assert(raw =~= stream.take(raw.len() as int));
    assert((raw + data).take(16) =~= header);
    assert((raw + data).subrange(16, raw.len() as int) =~= block);
}

/// A connection that the public side accepted on some port goes to the first rule of the
/// private side for that port, and nowhere where there is none.
pub proof fn law_streams_are_routed_by_accepting_port<E>(
    mappings: Seq<PortMapping>,
    local: Address,
    peer: Address,
    data: Seq<u8>,
    socket: Option<(Address, Address)>,
    info: ProxyInfo,
)
    requires
        crate::public_side::same_family(local, peer),
        local.well_formed(),
        peer.well_formed(),
        crate::private_side::info_of(
            crate::public_side::connection_header(local, peer) + data,
            socket,
        ) == Ok::<Info, crate::error::Failure>(info@),
    ensures
        crate::private_side::stream_step::<E>(
            mappings,
            StreamState::AwaitHeader,
            StreamEvent::Header(Ok(info)),
        ).1 == (match crate::private_side::rule_for(mappings, local.port()) {
            Some(mapping) => StreamAction::<E>::Connect(mapping.dest_addr),
            None => StreamAction::<E>::Stop { close: false, result: Ok(()) },
        }),
{
    law_header_reads_back(local, peer, data, socket);
}

/// The rule for a port is one of the rules, is for that port, and no rule before it is.
pub proof fn law_first_rule_wins(mappings: Seq<PortMapping>, port: u16)
    ensures
        match crate::private_side::rule_for(mappings, port) {
            Some(mapping) => exists|i: int|
                #![trigger mappings[i]]
                0 <= i < mappings.len() && mappings[i] == mapping && mapping.source_port == port && (
                forall|j: int| 0 <= j < i ==> (#[trigger] mappings[j]).source_port != port),
            None => forall|j: int|
                0 <= j < mappings.len() ==> (#[trigger] mappings[j]).source_port != port,
        },
    decreases mappings.len(),
{
    if mappings.len() > 0 && mappings[0].source_port != port {
        let rest = mappings.drop_first();
        law_first_rule_wins(rest, port);
        match crate::private_side::rule_for(rest, port) {
            Some(mapping) => {
                let i = choose|i: int|
                    #![trigger rest[i]]
                    0 <= i < rest.len() && rest[i] == mapping && mapping.source_port == port && (
                    forall|j: int| 0 <= j < i ==> (#[trigger] rest[j]).source_port != port);
                assert(mappings[i + 1] == mapping);
                assert forall|j: int| 0 <= j < i + 1 implies (#[trigger] mappings[j]).source_port
                    != port by {
                    if j > 0 {
                        assert(rest[j - 1] == mappings[j]);
                    }
                }
            },
            None => {
                assert forall|j: int| 0 <= j < mappings.len() implies (
                #[trigger] mappings[j]).source_port != port by {
                    if j > 0 {
                        assert(rest[j - 1] == mappings[j]);
                    }
                }
            },
        }
    } else if mappings.len() > 0 {
        assert(mappings[0].source_port == port);
    }
}

/// The upstream gets the raw header in front of the data exactly where its rule forwards it:
/// once it is connected, the header is written first, and only then do bytes flow; with a
/// rule that strips it, bytes flow at once.
pub proof fn law_upstream_sees_header_as_rule_says<E>(
    mappings: Seq<PortMapping>,
    mapping: PortMapping,
    raw_header: Vec<u8>,
)
    ensures
        ({
            let connected = crate::private_side::stream_step::<E>(
                mappings,
                StreamState::Connecting(mapping, raw_header),
                StreamEvent::Connected(Ok(())),
            );
            if mapping.proxy_protocol {
                &&& connected.1 == StreamAction::<E>::Forward(raw_header)
                &&& crate::private_side::stream_step::<E>(
                    mappings,
                    connected.0,
                    StreamEvent::Forwarded(Ok(())),
                ) == (StreamState::Relaying, StreamAction::<E>::Relay)
            } else {
                connected == (StreamState::Relaying, StreamAction::<E>::Relay)
            }
        }),
{
}

/// Every step of a stream goes on to a state further down the way, and the last step gives
/// the stream up.
pub proof fn law_streams_advance<E>(
    mappings: Seq<PortMapping>,
    state: StreamState,
    event: StreamEvent<E>,
)
    requires
        crate::private_side::expects(state, event),
    ensures
        stage(crate::private_side::stream_step(mappings, state, event).0) > stage(state),
        crate::private_side::stream_step(mappings, state, event).0 is Done <==>
            crate::private_side::stream_step(mappings, state, event).1 is Stop,
{
}

/// How far down the way a state is.
pub open spec fn stage(state: StreamState) -> int {
    match state {
        StreamState::AwaitHeader => 0,
        StreamState::Connecting(..) => 1,
        StreamState::Forwarding => 2,
        StreamState::Relaying => 3,
        StreamState::Done => 4,
    }
}

// ---------------------------------------------------------------------------
// The way of a stream
// ---------------------------------------------------------------------------
/// A stream goes the way of the first rule for the port on which its connection was accepted:
/// to the upstream of that rule, and, where that rule forwards the header, with the very bytes
/// of the header that was read in front of all data; where not, with none of them. Whichever
/// family the addresses are of makes no difference.
pub proof fn law_stream_follows_its_rule<E>(mappings: Seq<PortMapping>, info: ProxyInfo, i: int)
    requires
        0 <= i < mappings.len(),
        mappings[i].source_port == (match info.dest_addr {
            SocketAddr::V4(addr) => addr.port,
            SocketAddr::V6(addr) => addr.port,
        }),
        forall|j: int| 0 <= j < i ==> (#[trigger] mappings[j]).source_port != mappings[i].source_port,
    ensures
        ({
            let read = crate::private_side::stream_step::<E>(
                mappings,
                StreamState::AwaitHeader,
                StreamEvent::Header(Ok(info)),
            );
            let connected = crate::private_side::stream_step::<E>(
                mappings,
                read.0,
                StreamEvent::Connected(Ok(())),
            );
            let forwarded = crate::private_side::stream_step::<E>(
                mappings,
                connected.0,
                StreamEvent::Forwarded(Ok(())),
            );
            &&& read.1 == StreamAction::<E>::Connect(mappings[i].dest_addr)
            &&& mappings[i].proxy_protocol ==> connected.1 == StreamAction::<E>::Forward(
                info.raw_header,
            ) && forwarded.1 == StreamAction::<E>::Relay
            &&& !mappings[i].proxy_protocol ==> connected.1 == StreamAction::<E>::Relay
        }),
{
    law_first_rule_wins(mappings, mappings[i].source_port);
    match crate::private_side::rule_for(mappings, mappings[i].source_port) {
        Some(mapping) => {
            let k = choose|k: int|
                #![trigger mappings[k]]
                0 <= k < mappings.len() && mappings[k] == mapping && mapping.source_port
                    == mappings[i].source_port && (forall|j: int|
                    0 <= j < k ==> (#[trigger] mappings[j]).source_port
                        != mappings[i].source_port);
            assert(k == i);
        },
        None => {
            assert(mappings[i].source_port != mappings[i].source_port);
        },
    }
}

/// A stream for a port without a rule is given up, and that is no error.
pub proof fn law_stream_without_rule_is_given_up<E>(mappings: Seq<PortMapping>, info: ProxyInfo)
    requires
        forall|j: int|
            0 <= j < mappings.len() ==> (#[trigger] mappings[j]).source_port != (
            match info.dest_addr {
                SocketAddr::V4(addr) => addr.port,
                SocketAddr::V6(addr) => addr.port,
            }),
    ensures
        crate::private_side::stream_step::<E>(
            mappings,
            StreamState::AwaitHeader,
            StreamEvent::Header(Ok(info)),
        ) == (StreamState::Done, StreamAction::<E>::Stop { close: false, result: Ok(()) }),
{
    law_first_rule_wins(mappings, info@.dest.port());
}

/// The first error ends a stream, and is reported as it is. The stream itself is closed where
/// its upstream could not be reached; where both directions were relayed it is closed without
/// an error.
pub proof fn law_errors_end_a_stream<E>(mappings: Seq<PortMapping>, state: StreamState, error: E)
    ensures
        crate::private_side::stream_step(
            mappings,
            state,
            StreamEvent::Header(Err(error)),
        ) == (StreamState::Done, StreamAction::Stop { close: false, result: Err::<(), E>(error) }),
        crate::private_side::stream_step(
            mappings,
            state,
            StreamEvent::Connected(Err(error)),
        ) == (StreamState::Done, StreamAction::Stop { close: true, result: Err::<(), E>(error) }),
        crate::private_side::stream_step(
            mappings,
            state,
            StreamEvent::Forwarded(Err(error)),
        ) == (StreamState::Done, StreamAction::Stop { close: false, result: Err::<(), E>(error) }),
        crate::private_side::stream_step::<E>(mappings, state, StreamEvent::Relayed) == (
            StreamState::Done,
            StreamAction::Stop { close: true, result: Ok::<(), E>(()) },
        ),
{
}

} // verus!
