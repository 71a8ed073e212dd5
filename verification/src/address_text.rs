//! The text form of socket addresses: the grammar, its reader and its writer.
use vstd::prelude::*;

use crate::socket_addr::{
    Address, Ipv4Addr, Ipv6Addr, SocketAddr, SocketAddrV4, SocketAddrV6, join_octets,
};
use crate::text::{find, number, pieces, push_number};

verus! {

// ---------------------------------------------------------------------------
// Grammar
// ---------------------------------------------------------------------------
/// An octet: up to three decimal digits, at most 255, with no zero in front.
pub open spec fn octet_of(part: Seq<char>) -> Option<u8> {
    match crate::text::number_of(part, 10, 255) {
        Some(n) => if part.len() <= 3 && (part[0] == '0' ==> part.len() == 1) {
            Some(n as u8)
        } else {
            None
        },
        None => None,
    }
}

/// An IPv4 address: four octets with dots between them.
pub open spec fn ipv4_of(text: Seq<char>) -> Option<Seq<u8>> {
    let parts = crate::text::split(text, '.');
    if parts.len() == 4 && forall|i: int| 0 <= i < 4 ==> octet_of(#[trigger] parts[i]) is Some {
        Some(Seq::new(4, |i: int| octet_of(parts[i])->0))
    } else {
        None
    }
}

/// A group of an IPv6 address: one to four hexadecimal digits.
pub open spec fn group_of(part: Seq<char>) -> Option<u16> {
    match crate::text::number_of(part, 16, 0xffff) {
        Some(n) => if part.len() <= 4 {
            Some(n as u16)
        } else {
            None
        },
        None => None,
    }
}

/// The groups `parts`, each a segment.
pub open spec fn groups_of(parts: Seq<Seq<char>>) -> Option<Seq<u16>> {
    if forall|i: int| 0 <= i < parts.len() ==> group_of(#[trigger] parts[i]) is Some {
        Some(Seq::new(parts.len(), |i: int| group_of(parts[i])->0))
    } else {
        None
    }
}

/// The two segments that an IPv4 address at the end of an IPv6 address stands for.
pub open spec fn embedded(octets: Seq<u8>) -> Seq<u16> {
    seq![
        crate::socket_addr::big_endian(octets[0], octets[1]),
        crate::socket_addr::big_endian(octets[2], octets[3]),
    ]
}

/// Groups whose last may be an IPv4 address, which stands for two segments.
pub open spec fn mixed_groups_of(parts: Seq<Seq<char>>) -> Option<Seq<u16>> {
    match ipv4_of(parts.last()) {
        Some(octets) => match groups_of(parts.drop_last()) {
            Some(front) => Some(front + embedded(octets)),
            None => None,
        },
        None => groups_of(parts),
    }
}

/// Where `::` first occurs in `s`; the length of `s` where it does not.
pub open spec fn gap_position(s: Seq<char>) -> int
    decreases s.len(),
{
    if s.len() < 2 {
        s.len() as int
    } else if s[0] == ':' && s[1] == ':' {
        0
    } else {
        1 + gap_position(s.drop_first())
    }
}

/// An IPv6 address: eight segments in groups with colons between them; or fewer, with one
/// `::` that stands for one or more zero segments. An IPv4 address may end it.
pub open spec fn ipv6_of(text: Seq<char>) -> Option<Seq<u16>> {
    let gap: int = gap_position(text);
    if gap >= text.len() {
        match mixed_groups_of(crate::text::split(text, ':')) {
            Some(segments) => if segments.len() == 8 {
                Some(segments)
            } else {
                None
            },
            None => None,
        }
    } else {
        let before = text.take(gap);
        let after = text.skip(gap + 2);
        let head = if before.len() == 0 {
            Some(Seq::empty())
        } else {
            groups_of(crate::text::split(before, ':'))
        };
        let tail = if after.len() == 0 {
            Some(Seq::empty())
        } else {
            mixed_groups_of(crate::text::split(after, ':'))
        };
        match (head, tail) {
            (Some(h), Some(t)) => if h.len() + t.len() <= 7 {
                Some(filled(h, t))
            } else {
                None
            },
            _ => None,
        }
    }
}

/// Eight segments: `head`, then zeros, then `tail`.
pub open spec fn filled(head: Seq<u16>, tail: Seq<u16>) -> Seq<u16> {
    Seq::new(
        8,
        |i: int|
            if i < head.len() {
                head[i]
            } else if i < 8 - tail.len() {
                0u16
            } else {
                tail[i - (8 - tail.len())]
            },
    )
}

/// A port: decimal digits, at most 65535.
pub open spec fn port_of(text: Seq<char>) -> Option<u16> {
    match crate::text::number_of(text, 10, 0xffff) {
        Some(n) => Some(n as u16),
        None => None,
    }
}

/// `<IPv4 address>:<port>`
pub open spec fn address_v4_of(text: Seq<char>) -> Option<Address> {
    let colon: int = crate::text::position(text, ':');
    if colon < text.len() {
        match (ipv4_of(text.take(colon)), port_of(text.skip(colon + 1))) {
            (Some(ip), Some(port)) => Some(Address::V4 { octets: ip, port }),
            _ => None,
        }
    } else {
        None
    }
}

/// The scope behind the `%` at `mark`; none where `mark` is at the end.
pub open spec fn scope_of(inside: Seq<char>, mark: int) -> Option<u32> {
    if mark < inside.len() {
        match crate::text::number_of(inside.skip(mark + 1), 10, 0xffff_ffff) {
            Some(n) => Some(n as u32),
            None => None,
        }
    } else {
        Some(0)
    }
}

/// `[<IPv6 address>]:<port>` or `[<IPv6 address>%<scope>]:<port>`
pub open spec fn address_v6_of(text: Seq<char>) -> Option<Address> {
    let close: int = crate::text::position(text, ']');
    if text.len() > 0 && text[0] == '[' && close + 1 < text.len() && text[close + 1] == ':' {
        let inside = text.subrange(1, close);
        let mark: int = crate::text::position(inside, '%');
        match (ipv6_of(inside.take(mark)), scope_of(inside, mark), port_of(text.skip(close + 2))) {
            (Some(ip), Some(scope_id), Some(port)) => Some(
                Address::V6 { segments: ip, port, flowinfo: 0, scope_id },
            ),
            _ => None,
        }
    } else {
        None
    }
}

/// The address that `text` writes.
pub open spec fn address_of(text: Seq<char>) -> Option<Address> {
    match address_v4_of(text) {
        Some(address) => Some(address),
        None => address_v6_of(text),
    }
}

// ---------------------------------------------------------------------------
// Reader
// ---------------------------------------------------------------------------
/// Reads an octet.
fn read_octet(part: &[char]) -> (r: Option<u8>)
    ensures
        r == octet_of(part@),
{
    match number(part, 10, 255) {
        Some(n) => if part.len() <= 3 && (part[0] != '0' || part.len() == 1) {
            Some(n as u8)
        } else {
            None
        },
        None => None,
    }
}

/// Reads an IPv4 address.
pub fn read_ipv4(text: &[char]) -> (r: Option<Ipv4Addr>)
    ensures
        match r {
            Some(ip) => ipv4_of(text@) == Some(ip.octets@),
            None => ipv4_of(text@) is None,
        },
{
    let parts: Vec<&[char]> = pieces(text, '.');
    let ghost texts = crate::text::split(text@, '.');
    if parts.len() != 4 {
        return None;
    }
    let mut octets: [u8; 4] = [0u8; 4];
    let mut i: usize = 0;
    while i < 4
        invariant
            i <= 4,
            parts.len() == 4,
            texts == crate::text::split(text@, '.'),
            texts == crate::text::views(parts@),
            forall|j: int| 0 <= j < i ==> octet_of(#[trigger] texts[j]) == Some(octets@[j]),
        decreases 4 - i,
    {
        assert(texts[i as int] == parts@[i as int]@);
        match read_octet(parts[i]) {
            Some(octet) => octets[i] = octet,
            None => return None,
        }
        i += 1;
    }
    assert(octets@ =~= Seq::new(4, |j: int| octet_of(texts[j])->0));
    Some(Ipv4Addr { octets })
}

/// Reads one group.
fn read_group(part: &[char]) -> (r: Option<u16>)
    ensures
        r == group_of(part@),
{
    match number(part, 16, 0xffff) {
        Some(n) => if part.len() <= 4 {
            Some(n as u16)
        } else {
            None
        },
        None => None,
    }
}

/// Reads the first `n` pieces as groups.
fn read_groups(parts: &Vec<&[char]>, n: usize) -> (r: Option<Vec<u16>>)
    requires
        n <= parts.len(),
    ensures
        match r {
            Some(segments) => groups_of(crate::text::views(parts@).take(n as int)) == Some(
                segments@,
            ),
            None => groups_of(crate::text::views(parts@).take(n as int)) is None,
        },
{
    let ghost texts = crate::text::views(parts@).take(n as int);
    let mut segments: Vec<u16> = Vec::new();
    let mut i: usize = 0;
    while i < n
        invariant
            i <= n <= parts.len(),
            texts == crate::text::views(parts@).take(n as int),
            segments.len() == i,
            forall|j: int| 0 <= j < i ==> group_of(#[trigger] texts[j]) == Some(segments@[j]),
        decreases n - i,
    {
        assert(texts[i as int] == parts@[i as int]@);
        match read_group(parts[i]) {
            Some(segment) => segments.push(segment),
            None => return None,
        }
        i += 1;
    }
    assert(segments@ =~= Seq::new(texts.len(), |j: int| group_of(texts[j])->0));
    Some(segments)
}

/// Reads groups whose last may be an IPv4 address.
fn read_mixed_groups(text: &[char]) -> (r: Option<Vec<u16>>)
    ensures
        match r {
            Some(segments) => mixed_groups_of(crate::text::split(text@, ':')) == Some(segments@),
            None => mixed_groups_of(crate::text::split(text@, ':')) is None,
        },
{
    let parts: Vec<&[char]> = pieces(text, ':');
    let ghost texts = crate::text::split(text@, ':');
    let n: usize = parts.len();
    assert(texts.last() == parts@[n - 1]@);
    match read_ipv4(parts[n - 1]) {
        Some(ip) => {
            assert(texts.take(n - 1) =~= texts.drop_last());
            match read_groups(&parts, n - 1) {
                Some(front) => {
                    let mut segments: Vec<u16> = front;
                    segments.push(join_octets(ip.octets[0], ip.octets[1]));
                    segments.push(join_octets(ip.octets[2], ip.octets[3]));
                    assert(segments@ =~= front@ + embedded(ip.octets@));
                    Some(segments)
                },
                None => None,
            }
        },
        None => {
            assert(texts.take(n as int) =~= texts);
            read_groups(&parts, n)
        },
    }
}

/// Where `::` first occurs.
fn find_gap(s: &[char]) -> (r: usize)
    ensures
        r == gap_position(s@),
        r <= s.len(),
        r < s.len() ==> r + 2 <= s.len(),
{
    let mut i: usize = 0;
    assert(s@.skip(0) =~= s@);
    while i < s.len()
        invariant
            i <= s.len(),
            i + gap_position(s@.skip(i as int)) == gap_position(s@),
        decreases s.len() - i,
    {
        if s.len() - i >= 2 && s[i] == ':' && s[i + 1] == ':' {
            return i;
        }
        assert(s@.skip(i as int).drop_first() =~= s@.skip(i + 1));
        i += 1;
    }
    i
}

/// Reads an IPv6 address.
pub fn read_ipv6(text: &[char]) -> (r: Option<Ipv6Addr>)
    ensures
        match r {
            Some(ip) => ipv6_of(text@) == Some(ip.segments@),
            None => ipv6_of(text@) is None,
        },
{
    let gap: usize = find_gap(text);
    if gap >= text.len() {
        return match read_mixed_groups(text) {
            Some(segments) => if segments.len() == 8 {
                let none: Vec<u16> = Vec::new();
                let ip = fill(&segments, &none);
                assert(ip.segments@ =~= segments@);
                Some(ip)
            } else {
                None
            },
            None => None,
        };
    }
    let before: &[char] = vstd::slice::slice_subrange(text, 0, gap);
    let after: &[char] = vstd::slice::slice_subrange(text, gap + 2, text.len());
    assert(before@ =~= text@.take(gap as int));
    assert(after@ =~= text@.skip(gap + 2));
    let head: Vec<u16> = if before.len() == 0 {
        Vec::new()
    } else {
        let parts: Vec<&[char]> = pieces(before, ':');
        let ghost texts = crate::text::views(parts@);
        assert(texts.take(parts.len() as int) =~= texts);
        match read_groups(&parts, parts.len()) {
            Some(segments) => segments,
            None => return None,
        }
    };
    let tail: Vec<u16> = if after.len() == 0 {
        Vec::new()
    } else {
        match read_mixed_groups(after) {
            Some(segments) => segments,
            None => return None,
        }
    };
    if head.len() > 7 || tail.len() > 7 - head.len() {
        return None;
    }
    Some(fill(&head, &tail))
}

/// Puts zeros between `head` and `tail`.
fn fill(head: &Vec<u16>, tail: &Vec<u16>) -> (r: Ipv6Addr)
    requires
        head.len() + tail.len() <= 8,
    ensures
        r.segments@ == filled(head@, tail@),
{
    let mut segments: [u16; 8] = [0u16; 8];
    let mut i: usize = 0;
    while i < 8
        invariant
            i <= 8,
            head.len() + tail.len() <= 8,
            forall|j: int| 0 <= j < i ==> #[trigger] segments@[j] == filled(head@, tail@)[j],
        decreases 8 - i,
    {
        if i < head.len() {
            segments[i] = head[i];
        } else if i >= 8 - tail.len() {
            segments[i] = tail[i - (8 - tail.len())];
        } else {
            segments[i] = 0;
        }
        i += 1;
    }
    assert(segments@ =~= filled(head@, tail@));
    Ipv6Addr { segments }
}

/// Reads a port.
fn read_port(text: &[char]) -> (r: Option<u16>)
    ensures
        r == port_of(text@),
{
    match number(text, 10, 0xffff) {
        Some(n) => Some(n as u16),
        None => None,
    }
}

/// Reads `<IPv4 address>:<port>`.
fn read_address_v4(text: &[char]) -> (r: Option<SocketAddrV4>)
    ensures
        match r {
            Some(addr) => address_v4_of(text@) == Some(addr@),
            None => address_v4_of(text@) is None,
        },
{
    let colon: usize = find(text, ':');
    if colon >= text.len() {
        return None;
    }
    let host: &[char] = vstd::slice::slice_subrange(text, 0, colon);
    let rest: &[char] = vstd::slice::slice_subrange(text, colon + 1, text.len());
    assert(host@ =~= text@.take(colon as int));
    assert(rest@ =~= text@.skip(colon + 1));
    match (read_ipv4(host), read_port(rest)) {
        (Some(ip), Some(port)) => Some(SocketAddrV4 { ip, port }),
        _ => None,
    }
}

/// Reads `[<IPv6 address>]:<port>` or `[<IPv6 address>%<scope>]:<port>`.
fn read_address_v6(text: &[char]) -> (r: Option<SocketAddrV6>)
    ensures
        match r {
            Some(addr) => address_v6_of(text@) == Some(addr@),
            None => address_v6_of(text@) is None,
        },
{
    let close: usize = find(text, ']');
    if text.len() == 0 || text[0] != '[' || close >= text.len() - 1 || text[close + 1] != ':' {
        return None;
    }
    proof {
        crate::text::lemma_position(text@, ']');
    }
    let inside: &[char] = vstd::slice::slice_subrange(text, 1, close);
    let mark: usize = find(inside, '%');
    let host: &[char] = vstd::slice::slice_subrange(inside, 0, mark);
    let rest: &[char] = vstd::slice::slice_subrange(text, close + 2, text.len());
    assert(host@ =~= inside@.take(mark as int));
    assert(rest@ =~= text@.skip(close + 2));
    let scope: Option<u32> = if mark < inside.len() {
        let digits: &[char] = vstd::slice::slice_subrange(inside, mark + 1, inside.len());
        assert(digits@ =~= inside@.skip(mark + 1));
        number(digits, 10, 0xffff_ffff)
    } else {
        Some(0)
    };
    match (read_ipv6(host), scope, read_port(rest)) {
        (Some(ip), Some(scope_id), Some(port)) => Some(
            SocketAddrV6 { ip, port, flowinfo: 0, scope_id },
        ),
        _ => None,
    }
}

impl SocketAddr {
    /// Reads the address that `text` writes.
    pub fn read(text: &[char]) -> (r: Option<SocketAddr>)
        ensures
            match r {
                Some(addr) => address_of(text@) == Some(addr@),
                None => address_of(text@) is None,
            },
    {
        match read_address_v4(text) {
            Some(addr) => Some(SocketAddr::V4(addr)),
            None => match read_address_v6(text) {
                Some(addr) => Some(SocketAddr::V6(addr)),
                None => None,
            },
        }
    }
}

// ---------------------------------------------------------------------------
// Writer
// ---------------------------------------------------------------------------
/// The four octets in decimal, with dots between them.
pub open spec fn ipv4_text(octets: Seq<u8>) -> Seq<char> {
    crate::text::join(Seq::new(octets.len(), |i: int| crate::text::decimal(octets[i] as nat)), '.')
}

/// The segments in hexadecimal, with colons between them.
pub open spec fn groups_text(segments: Seq<u16>) -> Seq<char> {
    crate::text::join(
        Seq::new(segments.len(), |i: int| crate::text::hexadecimal(segments[i] as nat)),
        ':',
    )
}

/// Whether the `len` segments from `start` are all zero.
pub open spec fn is_zero_run(segments: Seq<u16>, start: int, len: int) -> bool {
    &&& 0 <= start
    &&& 0 <= len
    &&& start + len <= segments.len()
    &&& forall|i: int| start <= i < start + len ==> #[trigger] segments[i] == 0
}

/// Whether those are the longest run of zeros, and the first of that length.
pub open spec fn is_longest_zero_run(segments: Seq<u16>, start: int, len: int) -> bool {
    &&& is_zero_run(segments, start, len)
    &&& len == 0 ==> start == 0
    &&& forall|s: int, l: int| #[trigger]
        is_zero_run(segments, s, l) ==> l <= len && (l == len && l > 0 ==> start <= s)
}

/// Whether the address maps an IPv4 address: `::ffff:a.b.c.d`.
pub open spec fn is_ipv4_mapped(segments: Seq<u16>) -> bool {
    &&& is_zero_run(segments, 0, 5)
    &&& segments[5] == 0xffff
}

/// The four octets of the last two segments.
pub open spec fn last_octets(segments: Seq<u16>) -> Seq<u8> {
    seq![
        crate::socket_addr::high_octet(segments[6]),
        crate::socket_addr::low_octet(segments[6]),
        crate::socket_addr::high_octet(segments[7]),
        crate::socket_addr::low_octet(segments[7]),
    ]
}

/// The text of an IPv6 address: an IPv4-mapped address in dotted form; otherwise the groups,
/// with `::` for the first longest run of two or more zeros.
pub open spec fn ipv6_text(segments: Seq<u16>) -> Seq<char> {
    if is_ipv4_mapped(segments) {
        "::ffff:"@ + ipv4_text(last_octets(segments))
    } else {
        let (start, len) = choose|start: int, len: int| is_longest_zero_run(segments, start, len);
        if len > 1 {
            groups_text(segments.take(start)) + "::"@ + groups_text(segments.skip(start + len))
        } else {
            groups_text(segments)
        }
    }
}

/// The scope as it stands in the text; nothing for scope zero.
pub open spec fn scope_text(scope_id: u32) -> Seq<char> {
    if scope_id == 0 {
        Seq::empty()
    } else {
        "%"@ + crate::text::decimal(scope_id as nat)
    }
}

/// The text that stands for `address`.
pub open spec fn address_text(address: Address) -> Seq<char> {
    match address {
        Address::V4 { octets, port } => ipv4_text(octets) + ":"@ + crate::text::decimal(port as nat),
        Address::V6 { segments, port, scope_id, .. } => "["@ + ipv6_text(segments) + scope_text(scope_id)
            + "]:"@ + crate::text::decimal(port as nat),
    }
}

/// Two longest runs are one.
pub proof fn lemma_longest_zero_run_unique(
    segments: Seq<u16>,
    start: int,
    len: int,
    other_start: int,
    other_len: int,
)
    requires
        is_longest_zero_run(segments, start, len),
        is_longest_zero_run(segments, other_start, other_len),
    ensures
        start == other_start,
        len == other_len,
{
}

/// Finds the first longest run of zeros.
fn longest_zero_run(segments: &[u16; 8]) -> (r: (usize, usize))
    ensures
        is_longest_zero_run(segments@, r.0 as int, r.1 as int),
{
    let mut start: usize = 0;
    let mut len: usize = 0;
    let mut current: usize = 0;
    let mut i: usize = 0;
    while i < 8
        invariant
            current <= i <= 8,
            is_zero_run(segments@, start as int, len as int),
            len == 0 ==> start == 0,
            start + len <= i,
            forall|s: int, l: int| #[trigger]
                is_zero_run(segments@, s, l) && s + l <= i ==> l <= len && (l == len && l > 0
                    ==> start <= s),
            is_zero_run(segments@, current as int, i - current),
            forall|s: int, l: int| #[trigger]
                is_zero_run(segments@, s, l) && s + l == i && l > 0 ==> current <= s,
        decreases 8 - i,
    {
        if segments[i] == 0 {
            assert forall|s: int, l: int| #[trigger]
                is_zero_run(segments@, s, l) && s + l == i + 1 && l > 0 implies current <= s by {
                if l > 1 {
                    assert(is_zero_run(segments@, s, l - 1));
                }
            }
            if i + 1 - current > len {
                start = current;
                len = i + 1 - current;
            }
        } else {
            current = i + 1;
            assert forall|s: int, l: int| #[trigger]
                is_zero_run(segments@, s, l) && s + l == i + 1 implies l == 0 by {
                if l > 0 {
                    assert(segments@[i as int] == 0);
                }
            }
        }
        i += 1;
    }
    (start, len)
}

/// Appends the segments from `from` up to `to`, with colons between them.
fn push_groups(out: &mut String, segments: &[u16; 8], from: usize, to: usize)
    requires
        from <= to <= 8,
    ensures
        final(out)@ == old(out)@ + groups_text(segments@.subrange(from as int, to as int)),
{
    let ghost wanted = segments@.subrange(from as int, to as int);
    let ghost parts = Seq::new(
        wanted.len(),
        |j: int| crate::text::hexadecimal(wanted[j] as nat),
    );
    let mut i: usize = from;
    assert(parts.take(0) =~= Seq::empty());
    while i < to
        invariant
            from <= i <= to <= 8,
            wanted == segments@.subrange(from as int, to as int),
            parts == Seq::new(wanted.len(), |j: int| crate::text::hexadecimal(wanted[j] as nat)),
            out@ == old(out)@ + crate::text::join(parts.take(i - from), ':'),
        decreases to - i,
    {
        let ghost so_far = parts.take(i - from);
        let ghost part = crate::text::hexadecimal(segments@[i as int] as nat);
        assert(parts.take(i + 1 - from) =~= so_far.push(part));
        proof {
            if i > from {
                crate::text::lemma_join_push(so_far, part, ':');
            }
        }
        if i > from {
            out.push(':');
        }
        push_number(out, segments[i] as u32, 16);
        assert(out@ =~= old(out)@ + crate::text::join(parts.take(i + 1 - from), ':'));
        i += 1;
    }
    assert(parts.take(to - from) =~= parts);
}

/// Appends four octets, with dots between them.
fn push_ipv4(out: &mut String, octets: &[u8; 4])
    ensures
        final(out)@ == old(out)@ + ipv4_text(octets@),
{
    let ghost parts = Seq::new(4, |j: int| crate::text::decimal(octets@[j] as nat));
    let mut i: usize = 0;
    assert(parts.take(0) =~= Seq::empty());
    while i < 4
        invariant
            i <= 4,
            parts == Seq::new(4, |j: int| crate::text::decimal(octets@[j] as nat)),
            out@ == old(out)@ + crate::text::join(parts.take(i as int), '.'),
        decreases 4 - i,
    {
        let ghost so_far = parts.take(i as int);
        let ghost part = crate::text::decimal(octets@[i as int] as nat);
        assert(parts.take(i + 1) =~= so_far.push(part));
        proof {
            if i > 0 {
                crate::text::lemma_join_push(so_far, part, '.');
            }
        }
        if i > 0 {
            out.push('.');
        }
        push_number(out, octets[i] as u32, 10);
        assert(out@ =~= old(out)@ + crate::text::join(parts.take(i + 1), '.'));
        i += 1;
    }
    assert(parts.take(4) =~= parts);
}

/// Appends the text of an IPv6 address.
fn push_ipv6(out: &mut String, segments: &[u16; 8])
    ensures
        final(out)@ == old(out)@ + ipv6_text(segments@),
{
    let mapped: bool = segments[0] == 0 && segments[1] == 0 && segments[2] == 0 && segments[3] == 0
        && segments[4] == 0 && segments[5] == 0xffff;
    assert(mapped == is_ipv4_mapped(segments@)) by {
        assert(is_zero_run(segments@, 0, 5) ==> segments@[0] == 0 && segments@[1] == 0
            && segments@[2] == 0 && segments@[3] == 0 && segments@[4] == 0);
    }
    if mapped {
        let octets: [u8; 4] = [
            (segments[6] / 256) as u8,
            (segments[6] % 256) as u8,
            (segments[7] / 256) as u8,
            (segments[7] % 256) as u8,
        ];
        assert(octets@ =~= last_octets(segments@));
        out.append("::ffff:");
        push_ipv4(out, &octets);
        assert(out@ =~= old(out)@ + ipv6_text(segments@));
        return ;
    }
    let (start, len) = longest_zero_run(segments);
    proof {
        let (s, l) = choose|s: int, l: int| is_longest_zero_run(segments@, s, l);
        lemma_longest_zero_run_unique(segments@, start as int, len as int, s, l);
    }
    if len > 1 {
        push_groups(out, segments, 0, start);
        out.append("::");
        push_groups(out, segments, start + len, 8);
        assert(segments@.subrange(0, start as int) =~= segments@.take(start as int));
        assert(segments@.subrange(start + len, 8) =~= segments@.skip(start + len));
        assert(out@ =~= old(out)@ + ipv6_text(segments@));
    } else {
        push_groups(out, segments, 0, 8);
        assert(segments@.subrange(0, 8) =~= segments@);
    }
}

impl SocketAddrV4 {
    /// The text of the address.
    pub fn to_string(&self) -> (r: String)
        ensures
            r@ == address_text(self@),
    {
        let mut out: String = String::new();
        push_ipv4(&mut out, &self.ip.octets);
        out.append(":");
        push_number(&mut out, self.port as u32, 10);
        assert(out@ =~= address_text(self@));
        out
    }
}

impl SocketAddrV6 {
    /// The text of the address.
    pub fn to_string(&self) -> (r: String)
        ensures
            r@ == address_text(self@),
    {
        let mut out: String = String::new();
        out.append("[");
        push_ipv6(&mut out, &self.ip.segments);
        if self.scope_id != 0 {
            out.append("%");
            push_number(&mut out, self.scope_id, 10);
        }
        out.append("]:");
        push_number(&mut out, self.port as u32, 10);
        assert(out@ =~= address_text(self@));
        out
    }
}

impl SocketAddr {
    /// The text of the address.
    pub fn to_string(&self) -> (r: String)
        ensures
            r@ == address_text(self@),
    {
        match self {
            SocketAddr::V4(addr) => addr.to_string(),
            SocketAddr::V6(addr) => addr.to_string(),
        }
    }
}

} // verus!
