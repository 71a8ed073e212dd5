//! Laws of the header on the wire, byte by byte: what the public side writes, and what the
//! private side makes of any bytes.
use vstd::prelude::*;

use crate::error::{Error, ErrorKind, Failure};
use crate::private_side::{Endpoints, Info, ProxyInfo};
use crate::socket_addr::Address;

verus! {

/// Two octets write a number, the high one first, and every number is written so.
pub proof fn law_octets_of_a_number(n: u16, high: u8, low: u8)
    ensures
        crate::socket_addr::big_endian(high, low) == 256 * high + low,
        256 * crate::socket_addr::high_octet(n) + crate::socket_addr::low_octet(n) == n,
{
}

/// The header for a connection over IPv4 has these 28 bytes: signature, version 2 and PROXY,
/// TCP over IPv4, the length of the block, the address of the peer, the local address, the port
/// of the peer and the local port.
pub proof fn law_ipv4_header_bytes(local: Seq<u8>, local_port: u16, peer: Seq<u8>, peer_port: u16)
    requires
        local.len() == 4,
        peer.len() == 4,
    ensures
        ({
            let bytes = crate::public_side::connection_header(
                Address::V4 { octets: local, port: local_port },
                Address::V4 { octets: peer, port: peer_port },
            );
            &&& bytes.len() == 28
            &&& bytes.take(16) == seq![
                0x0Du8,
                0x0A,
                0x0D,
                0x0A,
                0x00,
                0x0D,
                0x0A,
                0x51,
                0x55,
                0x49,
                0x54,
                0x0A,
                0x21,
                0x11,
                0,
                12,
            ]
            &&& bytes.subrange(16, 20) == peer
            &&& bytes.subrange(20, 24) == local
            &&& 256 * bytes[24] + bytes[25] == peer_port
            &&& 256 * bytes[26] + bytes[27] == local_port
        }),
{
    let bytes = crate::public_side::connection_header(
        Address::V4 { octets: local, port: local_port },
        Address::V4 { octets: peer, port: peer_port },
    );
    assert(bytes.take(16) =~= seq![
        0x0Du8,
        0x0A,
        0x0D,
        0x0A,
        0x00,
        0x0D,
        0x0A,
        0x51,
        0x55,
        0x49,
        0x54,
        0x0A,
        0x21,
        0x11,
        0,
        12,
    ]);
    assert(bytes.subrange(16, 20) =~= peer);
    assert(bytes.subrange(20, 24) =~= local);
}

/// The header for a connection over IPv6 has 52 bytes, in the same order.
pub proof fn law_ipv6_header_bytes(local: Address, peer: Address, i: int)
    requires
        local is V6,
        peer is V6,
        local->segments.len() == 8,
        peer->segments.len() == 8,
        0 <= i < 8,
    ensures
        ({
            let bytes = crate::public_side::connection_header(local, peer);
            &&& bytes.len() == 52
            &&& bytes.take(16) == seq![
                0x0Du8,
                0x0A,
                0x0D,
                0x0A,
                0x00,
                0x0D,
                0x0A,
                0x51,
                0x55,
                0x49,
                0x54,
                0x0A,
                0x21,
                0x21,
                0,
                36,
            ]
            &&& 256 * bytes[16 + 2 * i] + bytes[17 + 2 * i] == peer->segments[i]
            &&& 256 * bytes[32 + 2 * i] + bytes[33 + 2 * i] == local->segments[i]
            &&& 256 * bytes[48] + bytes[49] == peer->V6_port
            &&& 256 * bytes[50] + bytes[51] == local->V6_port
        }),
{
    let bytes = crate::public_side::connection_header(local, peer);
    assert(bytes.take(16) =~= seq![
        0x0Du8,
        0x0A,
        0x0D,
        0x0A,
        0x00,
        0x0D,
        0x0A,
        0x51,
        0x55,
        0x49,
        0x54,
        0x0A,
        0x21,
        0x21,
        0,
        36,
    ]);
    assert((2 * i) / 2 == i && (2 * i + 1) / 2 == i);
    assert((2 * i) % 2 == 0 && (2 * i + 1) % 2 == 1);
}

/// A prefix needs the signature and version 2, and announces the block length in its last two
/// bytes.
pub proof fn law_prefix_is_read(header: Seq<u8>)
    requires
        header.len() == 16,
    ensures
        ({
            let signed = header.take(12) == seq![
                0x0Du8,
                0x0A,
                0x0D,
                0x0A,
                0x00,
                0x0D,
                0x0A,
                0x51,
                0x55,
                0x49,
                0x54,
                0x0A,
            ];
            let read = crate::private_side::block_len_of(header);
            &&& !signed ==> read == Err::<nat, Seq<char>>("invalid PROXY protocol v2 signature"@)
            &&& signed && !(0x20 <= header[12] <= 0x2f) ==> read == Err::<nat, Seq<char>>(
                "unsupported PROXY protocol version"@,
            )
            &&& signed && 0x20 <= header[12] <= 0x2f ==> read == Ok::<nat, Seq<char>>(
                (256 * header[14] + header[15]) as nat,
            )
        }),
{
    assert(crate::private_side::SIGNATURE@ =~= seq![
        0x0Du8,
        0x0A,
        0x0D,
        0x0A,
        0x00,
        0x0D,
        0x0A,
        0x51,
        0x55,
        0x49,
        0x54,
        0x0A,
    ]);
}

/// With the command PROXY over IPv4 the block starts with the two addresses and the two ports,
/// those of the source first; a block too short for that is refused.
pub proof fn law_ipv4_block_is_read(
    header: Seq<u8>,
    block: Seq<u8>,
    socket: Option<(Address, Address)>,
)
    requires
        header.len() == 16,
        header[12] == 0x21,
        0x10 <= header[13] <= 0x1f,
    ensures
        block.len() < 12 ==> crate::private_side::endpoints_of(header, block, socket) == Err::<
            (Address, Address),
            Seq<char>,
        >("truncated IPv4 address block"@),
        block.len() >= 12 ==> crate::private_side::endpoints_of(header, block, socket) == Ok::<
            (Address, Address),
            Seq<char>,
        >(
            (
                Address::V4 {
                    octets: seq![block[0], block[1], block[2], block[3]],
                    port: (256 * block[8] + block[9]) as u16,
                },
                Address::V4 {
                    octets: seq![block[4], block[5], block[6], block[7]],
                    port: (256 * block[10] + block[11]) as u16,
                },
            ),
        ),
{
    if block.len() >= 12 {
        assert(block.subrange(0, 4) =~= seq![block[0], block[1], block[2], block[3]]);
        assert(block.subrange(4, 8) =~= seq![block[4], block[5], block[6], block[7]]);
    }
}

/// The same over IPv6, without flow label and scope.
pub proof fn law_ipv6_block_is_read(
    header: Seq<u8>,
    block: Seq<u8>,
    socket: Option<(Address, Address)>,
)
    requires
        header.len() == 16,
        header[12] == 0x21,
        0x20 <= header[13] <= 0x2f,
    ensures
        block.len() < 36 ==> crate::private_side::endpoints_of(header, block, socket) == Err::<
            (Address, Address),
            Seq<char>,
        >("truncated IPv6 address block"@),
        block.len() >= 36 ==> crate::private_side::endpoints_of(header, block, socket) == Ok::<
            (Address, Address),
            Seq<char>,
        >(
            (
                Address::V6 {
                    segments: Seq::new(
                        8,
                        |i: int| (256 * block[2 * i] + block[2 * i + 1]) as u16,
                    ),
                    port: (256 * block[32] + block[33]) as u16,
                    flowinfo: 0,
                    scope_id: 0,
                },
                Address::V6 {
                    segments: Seq::new(
                        8,
                        |i: int| (256 * block[16 + 2 * i] + block[17 + 2 * i]) as u16,
                    ),
                    port: (256 * block[34] + block[35]) as u16,
                    flowinfo: 0,
                    scope_id: 0,
                },
            ),
        ),
{
    if block.len() >= 36 {
        assert(crate::socket_addr::segments_of(block.subrange(0, 16)) =~= Seq::new(
            8,
            |i: int| (256 * block[2 * i] + block[2 * i + 1]) as u16,
        ));
        assert(crate::socket_addr::segments_of(block.subrange(16, 32)) =~= Seq::new(
            8,
            |i: int| (256 * block[16 + 2 * i] + block[17 + 2 * i]) as u16,
        ));
    }
}

/// The command LOCAL stands for the ends of the socket, whatever the block holds; any other
/// command but PROXY, and any other family, is refused.
pub proof fn law_other_commands_and_families(
    header: Seq<u8>,
    block: Seq<u8>,
    socket: Option<(Address, Address)>,
)
    requires
        header.len() == 16,
        0x20 <= header[12] <= 0x2f,
    ensures
        header[12] == 0x20 && socket is Some ==> crate::private_side::endpoints_of(
            header,
            block,
            socket,
        ) == Ok::<(Address, Address), Seq<char>>(socket->0),
        header[12] == 0x20 && socket is None ==> crate::private_side::endpoints_of(
            header,
            block,
            socket,
        ) == Err::<(Address, Address), Seq<char>>(
            "public side sent local proxy info (should be impossible)"@,
        ),
        header[12] > 0x21 ==> crate::private_side::endpoints_of(header, block, socket) == Err::<
            (Address, Address),
            Seq<char>,
        >("invalid PROXY protocol command"@),
        header[12] == 0x21 && !(0x10 <= header[13] <= 0x2f) ==> crate::private_side::endpoints_of(
            header,
            block,
            socket,
        ) == Err::<(Address, Address), Seq<char>>("unsupported PROXY protocol address family"@),
{
}

/// A stream is read as far as its header goes: the prefix, and the block of the length that
/// the prefix announces. Where the ends of the connection are found, those bytes are the raw
/// header; where not, the reason is that of the prefix or of the block.
pub proof fn law_stream_is_read(stream: Seq<u8>, socket: Option<(Address, Address)>, len: nat)
    requires
        stream.len() >= 16,
        crate::private_side::block_len_of(stream.take(16)) == Ok::<nat, Seq<char>>(len),
        stream.len() >= 16 + len,
    ensures
        ({
            let ends = crate::private_side::endpoints_of(
                stream.take(16),
                stream.subrange(16, 16 + len as int),
                socket,
            );
            let read = crate::private_side::info_of(stream, socket);
            &&& ends matches Ok((source, dest)) ==> read == Ok::<Info, Failure>(
                Info { source, dest, raw_header: stream.take(16 + len as int) },
            )
            &&& ends matches Err(message) ==> read == Err::<Info, Failure>(
                Failure { kind: ErrorKind::InvalidData, message },
            )
        }),
{
    assert(stream.take(16) + stream.subrange(16, 16 + len as int) =~= stream.take(16 + len as int));
}

/// A stream that is no header is refused for its prefix, and one that ends inside its header
/// says how many bytes of the prefix or of the block there were.
pub proof fn law_stream_is_refused(stream: Seq<u8>, socket: Option<(Address, Address)>)
    ensures
        stream.len() < 16 ==> crate::private_side::info_of(stream, socket) == Err::<Info, Failure>(
            Failure {
                kind: ErrorKind::Other,
                message: "stream finished early ("@ + crate::text::decimal(stream.len())
                    + " bytes read)"@,
            },
        ),
        stream.len() >= 16 ==> (match crate::private_side::block_len_of(stream.take(16)) {
            Err(message) => crate::private_side::info_of(stream, socket) == Err::<Info, Failure>(
                Failure { kind: ErrorKind::InvalidData, message },
            ),
            Ok(len) => stream.len() < 16 + len ==> crate::private_side::info_of(stream, socket)
                == Err::<Info, Failure>(
                Failure {
                    kind: ErrorKind::Other,
                    message: "stream finished early ("@ + crate::text::decimal(
                        (stream.len() - 16) as nat,
                    ) + " bytes read)"@,
                },
            ),
        }),
{
}

/// What was read, the ends of a connection and an error denote their own fields, each as it is.
pub proof fn law_values_denote_their_fields(info: ProxyInfo, ends: Endpoints, error: Error)
    ensures
        info@.source == info.source_addr@,
        info@.dest == info.dest_addr@,
        info@.raw_header == info.raw_header@,
        ends@ == (ends.source@, ends.dest@),
        crate::private_side::view_of(Some(ends)) == Some((ends.source@, ends.dest@)),
        crate::private_side::view_of(None) is None,
        error@.kind == error.kind,
        error@.message == error.message@,
{
}

} // verus!
