//! Which texts write which address: every spelling of an address is read as that address, and
//! no other text is.
use vstd::prelude::*;

use crate::socket_addr::Address;
use crate::text_laws::only;

verus! {

// ---------------------------------------------------------------------------
// IPv4
// ---------------------------------------------------------------------------
/// Four pieces joined.
proof fn lemma_join_four(parts: Seq<Seq<char>>, sep: char)
    requires
        parts.len() == 4,
    ensures
        crate::text::join(parts, sep) == parts[0] + seq![sep] + parts[1] + seq![sep] + parts[2]
            + seq![sep] + parts[3],
{
    let a = parts.drop_first();
    let b = a.drop_first();
    let c = b.drop_first();
    assert(crate::text::join(c, sep) == parts[3]);
    assert(crate::text::join(b, sep) =~= parts[2] + seq![sep] + parts[3]);
    assert(crate::text::join(a, sep) =~= parts[1] + seq![sep] + parts[2] + seq![sep] + parts[3]);
    assert(crate::text::join(parts, sep) =~= parts[0] + seq![sep] + parts[1] + seq![sep] + parts[2]
        + seq![sep] + parts[3]);
}

/// A text writes an octet exactly where it is the decimal digits of that octet.
pub proof fn law_octet_spelling(text: Seq<char>, octet: u8)
    ensures
        crate::address_text::octet_of(text) == Some(octet) <==> text == crate::text::decimal(
            octet as nat,
        ),
{
    if crate::address_text::octet_of(text) == Some(octet) {
        crate::text_laws::lemma_numeral_is_decimal(text);
    }
    crate::text::lemma_numeral(octet as nat, 10);
    crate::text::lemma_decimal_len(octet as nat);
}

/// A text writes an IPv4 address exactly where it is the decimal digits of its four octets,
/// with dots between them.
pub proof fn law_ipv4_spelling(text: Seq<char>, octets: Seq<u8>)
    ensures
        crate::address_text::ipv4_of(text) == Some(octets) <==> octets.len() == 4 && text
            == crate::text::decimal(octets[0] as nat) + seq!['.'] + crate::text::decimal(
            octets[1] as nat,
        ) + seq!['.'] + crate::text::decimal(octets[2] as nat) + seq!['.'] + crate::text::decimal(
            octets[3] as nat,
        ),
{
    if crate::address_text::ipv4_of(text) == Some(octets) {
        let parts = crate::text::split(text, '.');
        crate::text_laws::lemma_join_split(text, '.');
        lemma_join_four(parts, '.');
        assert forall|i: int| 0 <= i < 4 implies #[trigger] parts[i] == crate::text::decimal(
            octets[i] as nat,
        ) by {
            assert(crate::address_text::octet_of(parts[i]) is Some);
            law_octet_spelling(parts[i], octets[i]);
        }
    }
    if octets.len() == 4 {
        let parts = seq![
            crate::text::decimal(octets[0] as nat),
            crate::text::decimal(octets[1] as nat),
            crate::text::decimal(octets[2] as nat),
            crate::text::decimal(octets[3] as nat),
        ];
        lemma_join_four(parts, '.');
        assert forall|i: int| 0 <= i < parts.len() implies crate::text::lacks(
            #[trigger] parts[i],
            '.',
        ) by {
            crate::address_laws::lemma_numeral_lacks(octets[i] as nat, 10, '.');
        }
        crate::text::lemma_split_join(parts, '.');
        assert forall|i: int| 0 <= i < 4 implies crate::address_text::octet_of(#[trigger] parts[i])
            == Some(octets[i]) by {
            law_octet_spelling(parts[i], octets[i]);
        }
        let joined = crate::text::join(parts, '.');
        assert(crate::address_text::ipv4_of(joined) is Some);
        assert(crate::address_text::ipv4_of(joined)->0 =~= octets);
    }
}

/// An IPv4 address has neither a colon nor a bracket nor a percent sign.
proof fn lemma_ipv4_characters(text: Seq<char>, c: char)
    requires
        crate::address_text::ipv4_of(text) is Some,
        c == ':' || c == ']' || c == '%',
    ensures
        crate::text::lacks(text, c),
        text.len() > 0,
{
    let octets = crate::address_text::ipv4_of(text)->0;
    let parts = crate::text::split(text, '.');
    crate::text_laws::lemma_join_split(text, '.');
    assert forall|i: int| 0 <= i < parts.len() implies crate::text::lacks(
        #[trigger] parts[i],
        c,
    ) by {
        assert(crate::address_text::octet_of(parts[i]) is Some);
        assert forall|j: int| 0 <= j < parts[i].len() implies #[trigger] parts[i][j] != c by {
            assert(crate::text::digit_of(parts[i][j]) is Some);
        }
    }
    crate::address_laws::lemma_join_lacks(parts, '.', c);
    lemma_join_four(parts, '.');
}

/// A text writes an IPv4 socket address exactly where it is the four octets in decimal, with
/// dots between them, a colon, and the digits of the port, behind any number of zeros.
#[verifier::rlimit(40)]
pub proof fn law_address_v4_spellings(text: Seq<char>, octets: Seq<u8>, port: u16)
    ensures
        crate::address_text::address_of(text) == Some(Address::V4 { octets, port }) <==> {
            &&& octets.len() == 4
            &&& exists|zeros: Seq<char>| #[trigger]
                only(zeros, '0') && text == crate::text::decimal(octets[0] as nat) + seq!['.']
                    + crate::text::decimal(octets[1] as nat) + seq!['.'] + crate::text::decimal(
                    octets[2] as nat,
                ) + seq!['.'] + crate::text::decimal(octets[3] as nat) + seq![':'] + zeros
                    + crate::text::decimal(port as nat)
        },
{
    if crate::address_text::address_of(text) == Some(Address::V4 { octets, port }) {
        let colon: int = crate::text::position(text, ':');
        crate::text::lemma_position(text, ':');
        let host = text.take(colon);
        let digits = text.skip(colon + 1);
        law_ipv4_spelling(host, octets);
        crate::text_laws::law_decimal_spellings(digits, 0xffff, port as nat);
        let zeros = choose|zeros: Seq<char>| #[trigger]
            only(zeros, '0') && digits == zeros + crate::text::decimal(port as nat);
        assert(text =~= host + seq![':'] + digits);
        assert(host + seq![':'] + digits =~= host + seq![':'] + zeros + crate::text::decimal(
            port as nat,
        ));
    }
    if octets.len() == 4 {
        let host = crate::text::decimal(octets[0] as nat) + seq!['.'] + crate::text::decimal(
            octets[1] as nat,
        ) + seq!['.'] + crate::text::decimal(octets[2] as nat) + seq!['.'] + crate::text::decimal(
            octets[3] as nat,
        );
        if exists|zeros: Seq<char>| #[trigger]
            only(zeros, '0') && text == host + seq![':'] + zeros + crate::text::decimal(
                port as nat,
            ) {
            let zeros = choose|zeros: Seq<char>| #[trigger]
                only(zeros, '0') && text == host + seq![':'] + zeros + crate::text::decimal(
                    port as nat,
                );
            law_ipv4_spelling(host, octets);
            lemma_ipv4_characters(host, ':');
            let colon: int = host.len() as int;
            assert(text.take(colon) =~= host);
            crate::text::lemma_position_is(text, ':', colon);
            assert(text.skip(colon + 1) =~= zeros + crate::text::decimal(port as nat));
            crate::text_laws::law_decimal_spellings(text.skip(colon + 1), 0xffff, port as nat);
        }
    }
}

// ---------------------------------------------------------------------------
// IPv6
// ---------------------------------------------------------------------------
/// Whether each of `parts` is one to four hexadecimal digits.
pub open spec fn are_groups(parts: Seq<Seq<char>>) -> bool {
    forall|i: int| 0 <= i < parts.len() ==> is_group(#[trigger] parts[i])
}

/// Whether `part` is one to four hexadecimal digits, in either case.
pub open spec fn is_group(part: Seq<char>) -> bool {
    &&& 1 <= part.len() <= 4
    &&& forall|i: int|
        0 <= i < part.len() ==> ('0' <= #[trigger] part[i] <= '9' || 'a' <= part[i] <= 'f' || 'A'
            <= part[i] <= 'F')
}

/// The pieces `parts`, and behind them an IPv4 address in dotted form where there is one.
pub open spec fn with_dotted(parts: Seq<Seq<char>>, dotted: Option<Seq<u8>>) -> Seq<Seq<char>> {
    match dotted {
        None => parts,
        Some(octets) => parts.push(
            crate::text::decimal(octets[0] as nat) + seq!['.'] + crate::text::decimal(
                octets[1] as nat,
            ) + seq!['.'] + crate::text::decimal(octets[2] as nat) + seq!['.']
                + crate::text::decimal(octets[3] as nat),
        ),
    }
}

/// Whether `text` spells the eight `segments`: the groups `head` with colons between them,
/// then `::` where there is a `gap`, then the groups `tail`, and at the end the four octets
/// `dotted` where there are any. Octets stand for two segments, and the gap for as many zero
/// segments as are missing, which is one at least.
pub open spec fn ipv6_spelling(
    text: Seq<char>,
    segments: Seq<u16>,
    head: Seq<Seq<char>>,
    gap: bool,
    tail: Seq<Seq<char>>,
    dotted: Option<Seq<u8>>,
) -> bool {
    let end: int = if dotted is Some {
        6
    } else {
        8
    };
    let start: int = end - tail.len();
    &&& are_groups(head)
    &&& are_groups(tail)
    &&& dotted matches Some(octets) ==> octets.len() == 4
    &&& segments.len() == 8
    &&& if gap {
        &&& head.len() < start
        &&& text == crate::text::join(head, ':') + seq![':', ':'] + crate::text::join(
            with_dotted(tail, dotted),
            ':',
        )
    } else {
        &&& tail.len() == 0
        &&& head.len() == end
        &&& text == crate::text::join(with_dotted(head, dotted), ':')
    }
    &&& forall|i: int|
        0 <= i < head.len() ==> #[trigger] segments[i] as nat == crate::text::value_of(head[i], 16)
    &&& forall|i: int| head.len() <= i < start ==> #[trigger] segments[i] == 0
    &&& forall|i: int|
        start <= i < end ==> #[trigger] segments[i] as nat == crate::text::value_of(
            tail[i - start],
            16,
        )
    &&& dotted matches Some(octets) ==> {
        &&& segments[6] == 256 * octets[0] + octets[1]
        &&& segments[7] == 256 * octets[2] + octets[3]
    }
}

/// Groups are read as their values.
proof fn lemma_groups_read(parts: Seq<Seq<char>>)
    ensures
        crate::address_text::groups_of(parts) is Some <==> are_groups(parts),
        crate::address_text::groups_of(parts) matches Some(values) ==> values.len() == parts.len()
            && forall|i: int|
            0 <= i < parts.len() ==> #[trigger] values[i] as nat == crate::text::value_of(
                parts[i],
                16,
            ),
{
    assert forall|i: int| 0 <= i < parts.len() implies (crate::address_text::group_of(
        #[trigger] parts[i],
    ) is Some <==> is_group(parts[i])) && (crate::address_text::group_of(parts[i]) matches Some(n)
        ==> n as nat == crate::text::value_of(parts[i], 16)) by {
        crate::text_laws::law_group_spellings(parts[i]);
    }
    if crate::address_text::groups_of(parts) is Some {
        assert forall|i: int| 0 <= i < parts.len() implies is_group(#[trigger] parts[i]) by {
            assert(crate::address_text::group_of(parts[i]) is Some);
        }
        let values = crate::address_text::groups_of(parts)->0;
        assert forall|i: int| 0 <= i < parts.len() implies #[trigger] values[i] as nat
            == crate::text::value_of(parts[i], 16) by {
            assert(crate::address_text::group_of(parts[i]) is Some);
        }
    }
    if are_groups(parts) {
        assert forall|i: int| 0 <= i < parts.len() implies crate::address_text::group_of(
            #[trigger] parts[i],
        ) is Some by {
            assert(is_group(parts[i]));
        }
    }
}

/// Groups and a dotted end are not empty, and hold only these characters.
proof fn lemma_pieces(parts: Seq<Seq<char>>, dotted: Option<Seq<u8>>)
    requires
        are_groups(parts),
        dotted matches Some(octets) ==> octets.len() == 4,
    ensures
        ({
            let all = with_dotted(parts, dotted);
            forall|i: int|
                0 <= i < all.len() ==> {
                    &&& (#[trigger] all[i]).len() > 0
                    &&& crate::text::lacks(all[i], ':')
                    &&& crate::text::lacks(all[i], ']')
                    &&& crate::text::lacks(all[i], '%')
                }
        }),
{
    let all = with_dotted(parts, dotted);
    assert forall|i: int| 0 <= i < all.len() implies {
        &&& (#[trigger] all[i]).len() > 0
        &&& crate::text::lacks(all[i], ':')
        &&& crate::text::lacks(all[i], ']')
        &&& crate::text::lacks(all[i], '%')
    } by {
        if i < parts.len() {
            assert(all[i] == parts[i]);
            assert(is_group(parts[i]));
        } else {
            law_ipv4_spelling(all[i], dotted->0);
            lemma_ipv4_characters(all[i], ':');
            lemma_ipv4_characters(all[i], ']');
            lemma_ipv4_characters(all[i], '%');
        }
    }
}

/// Groups with a dotted end are read as the segments they stand for.
proof fn lemma_mixed_read(parts: Seq<Seq<char>>, dotted: Option<Seq<u8>>)
    requires
        are_groups(parts),
        dotted matches Some(octets) ==> octets.len() == 4,
        with_dotted(parts, dotted).len() > 0,
    ensures
        ({
            let all = with_dotted(parts, dotted);
            let read = crate::address_text::mixed_groups_of(
                crate::text::split(crate::text::join(all, ':'), ':'),
            );
            &&& read is Some
            &&& read->0.len() == parts.len() + (if dotted is Some {
                2int
            } else {
                0
            })
            &&& forall|i: int|
                0 <= i < parts.len() ==> #[trigger] read->0[i] as nat == crate::text::value_of(
                    parts[i],
                    16,
                )
            &&& dotted matches Some(octets) ==> {
                &&& read->0[parts.len() as int] == 256 * octets[0] + octets[1]
                &&& read->0[parts.len() as int + 1] == 256 * octets[2] + octets[3]
            }
        }),
{
    let all = with_dotted(parts, dotted);
    lemma_pieces(parts, dotted);
    crate::text::lemma_split_join(all, ':');
    lemma_groups_read(parts);
    match dotted {
        Some(octets) => {
            law_ipv4_spelling(all.last(), octets);
            assert(all.drop_last() =~= parts);
        },
        None => {
            let last = all.last();
            assert(is_group(all[all.len() - 1]));
            assert forall|i: int| 0 <= i < last.len() implies #[trigger] last[i] != '.' by {
                assert('0' <= last[i] <= '9' || 'a' <= last[i] <= 'f' || 'A' <= last[i] <= 'F');
            }
            crate::address_laws::lemma_no_dot_no_ipv4(last);
        },
    }
}

/// The parts of what is read as groups with a dotted end.
proof fn lemma_mixed_parts(text: Seq<char>) -> (r: (Seq<Seq<char>>, Option<Seq<u8>>))
    requires
        crate::address_text::mixed_groups_of(crate::text::split(text, ':')) is Some,
    ensures
        are_groups(r.0),
        r.1 matches Some(octets) ==> octets.len() == 4,
        with_dotted(r.0, r.1).len() > 0,
        text == crate::text::join(with_dotted(r.0, r.1), ':'),
{
    let parts = crate::text::split(text, ':');
    crate::text_laws::lemma_join_split(text, ':');
    match crate::address_text::ipv4_of(parts.last()) {
        Some(octets) => {
            law_ipv4_spelling(parts.last(), octets);
            lemma_groups_read(parts.drop_last());
            assert(with_dotted(parts.drop_last(), Some(octets)) =~= parts);
            (parts.drop_last(), Some(octets))
        },
        None => {
            lemma_groups_read(parts);
            (parts, None)
        },
    }
}

/// Where `::` is found, it stands, and nowhere before.
proof fn lemma_gap_found(s: Seq<char>)
    ensures
        ({
            let p = crate::address_text::gap_position(s);
            &&& 0 <= p <= s.len()
            &&& p < s.len() ==> p + 1 < s.len() && s[p] == ':' && s[p + 1] == ':'
        }),
    decreases s.len(),
{
    if s.len() >= 2 && !(s[0] == ':' && s[1] == ':') {
        lemma_gap_found(s.drop_first());
    }
}

/// Where the gap of a spelling is found.
proof fn lemma_gap_of_spelling(
    text: Seq<char>,
    head: Seq<Seq<char>>,
    tail: Seq<Seq<char>>,
    dotted: Option<Seq<u8>>,
)
    requires
        are_groups(head),
        are_groups(tail),
        dotted matches Some(octets) ==> octets.len() == 4,
        text == crate::text::join(head, ':') + seq![':', ':'] + crate::text::join(
            with_dotted(tail, dotted),
            ':',
        ),
    ensures
        ({
            let before = crate::text::join(head, ':');
            let all = with_dotted(tail, dotted);
            let after = crate::text::join(all, ':');
            let p: int = before.len() as int;
            &&& crate::address_text::gap_position(text) == p
            &&& p < text.len()
            &&& text.take(p) == before
            &&& text.skip(p + 2) == after
            &&& head.len() == 0 <==> before.len() == 0
            &&& all.len() == 0 <==> after.len() == 0
            &&& head.len() > 0 ==> crate::text::split(before, ':') == head
        }),
{
    let before = crate::text::join(head, ':');
    let all = with_dotted(tail, dotted);
    let after = crate::text::join(all, ':');
    let p: int = before.len() as int;
    lemma_pieces(head, None);
    lemma_pieces(tail, dotted);
    assert(with_dotted(head, None) == head);
    if head.len() > 0 {
        crate::address_laws::lemma_join_no_gap(head);
        crate::text::lemma_split_join(head, ':');
    }
    if all.len() > 0 {
        crate::address_laws::lemma_join_no_gap(all);
    }
    assert forall|i: int|
        0 <= i < p && i + 1 < text.len() implies !#[trigger] crate::address_laws::gap_at(
        text,
        i,
    ) by {
        assert(text[i] == before[i]);
        if i + 1 < p {
            assert(text[i + 1] == before[i + 1]);
            assert(!crate::address_laws::gap_at(before, i));
        }
    }
    assert(crate::address_laws::gap_at(text, p));
    crate::address_laws::lemma_gap_is(text, p);
    assert(text.take(p) =~= before);
    assert(text.skip(p + 2) =~= after);
}

/// A spelling with a gap is read as its address.
#[verifier::rlimit(40)]
proof fn lemma_gapped_is_read(
    text: Seq<char>,
    segments: Seq<u16>,
    head: Seq<Seq<char>>,
    tail: Seq<Seq<char>>,
    dotted: Option<Seq<u8>>,
)
    requires
        ipv6_spelling(text, segments, head, true, tail, dotted),
    ensures
        crate::address_text::ipv6_of(text) == Some(segments),
{
    let all = with_dotted(tail, dotted);
    lemma_gap_of_spelling(text, head, tail, dotted);
    lemma_groups_read(head);
    if all.len() > 0 {
        lemma_mixed_read(tail, dotted);
    }
    let read = crate::address_text::ipv6_of(text);
    assert(read is Some);
    let end: int = if dotted is Some {
        6
    } else {
        8
    };
    let start: int = end - tail.len();
    assert forall|i: int| 0 <= i < 8 implies read->0[i] == segments[i] by {
        if i < head.len() {
            assert(segments[i] as nat == crate::text::value_of(head[i], 16));
        } else if i < start {
            assert(segments[i] == 0);
        } else if i < end {
            assert(segments[i] as nat == crate::text::value_of(tail[i - start], 16));
        }
    }
    assert(read->0 =~= segments);
}

/// A spelling without a gap is read as its address.
proof fn lemma_full_is_read(
    text: Seq<char>,
    segments: Seq<u16>,
    head: Seq<Seq<char>>,
    tail: Seq<Seq<char>>,
    dotted: Option<Seq<u8>>,
)
    requires
        ipv6_spelling(text, segments, head, false, tail, dotted),
    ensures
        crate::address_text::ipv6_of(text) == Some(segments),
{
    let all = with_dotted(head, dotted);
    lemma_pieces(head, dotted);
    crate::address_laws::lemma_join_no_gap(all);
    crate::address_laws::lemma_gap_is(text, text.len() as int);
    lemma_mixed_read(head, dotted);
    let read = crate::address_text::ipv6_of(text);
    assert(read is Some);
    assert(read->0 =~= segments);
}

/// What is read as an address is a spelling of it.
#[verifier::rlimit(40)]
proof fn lemma_ipv6_read_is_spelling(text: Seq<char>) -> (r: (
    Seq<Seq<char>>,
    bool,
    Seq<Seq<char>>,
    Option<Seq<u8>>,
))
    requires
        crate::address_text::ipv6_of(text) is Some,
    ensures
        ipv6_spelling(text, crate::address_text::ipv6_of(text)->0, r.0, r.1, r.2, r.3),
{
    let segments = crate::address_text::ipv6_of(text)->0;
    let p = crate::address_text::gap_position(text);
    lemma_gap_found(text);
    if p >= text.len() {
        let (head, dotted) = lemma_mixed_parts(text);
        lemma_mixed_read(head, dotted);
        let tail = Seq::<Seq<char>>::empty();
        assert(ipv6_spelling(text, segments, head, false, tail, dotted));
        (head, false, tail, dotted)
    } else {
        let before = text.take(p);
        let after = text.skip(p + 2);
        let head = if before.len() == 0 {
            Seq::empty()
        } else {
            crate::text::split(before, ':')
        };
        crate::text_laws::lemma_join_split(before, ':');
        lemma_groups_read(head);
        assert(crate::text::join(head, ':') =~= before);
        assert(text =~= before + seq![':', ':'] + after);
        if after.len() == 0 {
            let tail = Seq::<Seq<char>>::empty();
            assert(crate::text::join(with_dotted(tail, None), ':') =~= after);
            assert(ipv6_spelling(text, segments, head, true, tail, None));
            (head, true, tail, None)
        } else {
            let (tail, dotted) = lemma_mixed_parts(after);
            lemma_mixed_read(tail, dotted);
            assert(ipv6_spelling(text, segments, head, true, tail, dotted));
            (head, true, tail, dotted)
        }
    }
}

/// A text writes an IPv6 address exactly where it spells it: in groups of up to four
/// hexadecimal digits of either case, with at most one `::` for a run of zero segments, and
/// perhaps with the last two segments in dotted form.
pub proof fn law_ipv6_spellings(text: Seq<char>, segments: Seq<u16>)
    ensures
        crate::address_text::ipv6_of(text) == Some(segments) <==> exists|
            head: Seq<Seq<char>>,
            gap: bool,
            tail: Seq<Seq<char>>,
            dotted: Option<Seq<u8>>,
        |
            ipv6_spelling(text, segments, head, gap, tail, dotted),
{
    if crate::address_text::ipv6_of(text) == Some(segments) {
        let (head, gap, tail, dotted) = lemma_ipv6_read_is_spelling(text);
    }
    if exists|head: Seq<Seq<char>>, gap: bool, tail: Seq<Seq<char>>, dotted: Option<Seq<u8>>|
        ipv6_spelling(text, segments, head, gap, tail, dotted) {
        let (head, gap, tail, dotted) = choose|
            head: Seq<Seq<char>>,
            gap: bool,
            tail: Seq<Seq<char>>,
            dotted: Option<Seq<u8>>,
        |
            ipv6_spelling(text, segments, head, gap, tail, dotted);
        if gap {
            lemma_gapped_is_read(text, segments, head, tail, dotted);
        } else {
            lemma_full_is_read(text, segments, head, tail, dotted);
        }
    }
}

/// An IPv6 address has neither a bracket nor a percent sign.
proof fn lemma_ipv6_characters(text: Seq<char>, c: char)
    requires
        crate::address_text::ipv6_of(text) is Some,
        c == ']' || c == '%',
    ensures
        crate::text::lacks(text, c),
{
    let (head, gap, tail, dotted) = lemma_ipv6_read_is_spelling(text);
    if gap {
        let all = with_dotted(tail, dotted);
        lemma_pieces(head, None);
        lemma_pieces(tail, dotted);
        assert(with_dotted(head, None) == head);
        crate::address_laws::lemma_join_lacks(head, ':', c);
        crate::address_laws::lemma_join_lacks(all, ':', c);
        let before = crate::text::join(head, ':');
        let after = crate::text::join(all, ':');
        assert forall|i: int| 0 <= i < text.len() implies #[trigger] text[i] != c by {
            if i < before.len() {
                assert(text[i] == before[i]);
            } else if i >= before.len() + 2 {
                assert(text[i] == after[i - before.len() - 2]);
            }
        }
    } else {
        lemma_pieces(head, dotted);
        crate::address_laws::lemma_join_lacks(with_dotted(head, dotted), ':', c);
    }
}

/// Whether `text` spells the scope `scope_id`: not at all for scope zero, or by a percent sign
/// and decimal digits, behind any number of zeros.
pub open spec fn scope_spelling(text: Seq<char>, scope_id: u32) -> bool {
    ||| text.len() == 0 && scope_id == 0
    ||| exists|zeros: Seq<char>| #[trigger]
        only(zeros, '0') && text == seq!['%'] + zeros + crate::text::decimal(scope_id as nat)
}

/// A text writes an IPv6 socket address exactly where it is a spelling of the address and of
/// the scope in brackets, a colon, and the digits of the port, behind any number of zeros. The
/// flow label of such an address is zero.
#[verifier::rlimit(40)]
pub proof fn law_address_v6_spellings(
    text: Seq<char>,
    segments: Seq<u16>,
    port: u16,
    flowinfo: u32,
    scope_id: u32,
)
    ensures
        crate::address_text::address_of(text) == Some(
            Address::V6 { segments, port, flowinfo, scope_id },
        ) <==> {
            &&& flowinfo == 0
            &&& exists|host: Seq<char>, scope: Seq<char>, zeros: Seq<char>|
                #![trigger crate::address_text::ipv6_of(host), scope_spelling(scope, scope_id), only(zeros, '0')]
                {
                    &&& crate::address_text::ipv6_of(host) == Some(segments)
                    &&& scope_spelling(scope, scope_id)
                    &&& only(zeros, '0')
                    &&& text == seq!['['] + host + scope + seq![']', ':'] + zeros
                        + crate::text::decimal(port as nat)
                }
        },
{
    if crate::address_text::address_of(text) == Some(
        Address::V6 { segments, port, flowinfo, scope_id },
    ) {
        lemma_address_v6_parts(text);
    }
    if flowinfo == 0 && exists|host: Seq<char>, scope: Seq<char>, zeros: Seq<char>|
        #![trigger crate::address_text::ipv6_of(host), scope_spelling(scope, scope_id), only(zeros, '0')]
        {
            &&& crate::address_text::ipv6_of(host) == Some(segments)
            &&& scope_spelling(scope, scope_id)
            &&& only(zeros, '0')
            &&& text == seq!['['] + host + scope + seq![']', ':'] + zeros + crate::text::decimal(
                port as nat,
            )
        } {
        let (host, scope, zeros) = choose|host: Seq<char>, scope: Seq<char>, zeros: Seq<char>|
            #![trigger crate::address_text::ipv6_of(host), scope_spelling(scope, scope_id), only(zeros, '0')]
            {
                &&& crate::address_text::ipv6_of(host) == Some(segments)
                &&& scope_spelling(scope, scope_id)
                &&& only(zeros, '0')
                &&& text == seq!['['] + host + scope + seq![']', ':'] + zeros
                    + crate::text::decimal(port as nat)
            };
        lemma_address_v6_is_read(host, scope, zeros, segments, port, scope_id);
    }
}

/// The parts of a text that is read as an IPv6 socket address.
#[verifier::rlimit(40)]
proof fn lemma_address_v6_parts(text: Seq<char>)
    requires
        crate::address_text::address_of(text) is Some,
        crate::address_text::address_of(text)->0 is V6,
    ensures
        crate::address_text::address_of(text)->0 matches Address::V6 {
            segments,
            port,
            flowinfo,
            scope_id,
        } && flowinfo == 0 && exists|host: Seq<char>, scope: Seq<char>, zeros: Seq<char>|
            #![trigger crate::address_text::ipv6_of(host), scope_spelling(scope, scope_id), only(zeros, '0')]
            {
                &&& crate::address_text::ipv6_of(host) == Some(segments)
                &&& scope_spelling(scope, scope_id)
                &&& only(zeros, '0')
                &&& text == seq!['['] + host + scope + seq![']', ':'] + zeros
                    + crate::text::decimal(port as nat)
            },
{
    let close: int = crate::text::position(text, ']');
    crate::text::lemma_position(text, ']');
    let inside = text.subrange(1, close);
    let mark: int = crate::text::position(inside, '%');
    crate::text::lemma_position(inside, '%');
    let host = inside.take(mark);
    let scope = inside.skip(mark);
    let digits = text.skip(close + 2);
    let address = crate::address_text::address_of(text)->0;
    let port: u16 = address->V6_port;
    let scope_id: u32 = address->scope_id;
    crate::text_laws::law_decimal_spellings(digits, 0xffff, port as nat);
    let zeros = choose|zeros: Seq<char>| #[trigger]
        only(zeros, '0') && digits == zeros + crate::text::decimal(port as nat);
    lemma_scope_parts(inside, mark, scope_id);
    let front = seq!['['] + host + scope + seq![']', ':'];
    assert(text =~= front + digits) by {
        assert(seq!['['] + host + scope =~= text.take(close));
        assert(front =~= text.take(close + 2));
    }
    assert(front + digits =~= front + zeros + crate::text::decimal(port as nat));
    assert(crate::address_text::ipv6_of(host) == Some(address->segments));
}

/// The scope of what stands in brackets.
proof fn lemma_scope_parts(inside: Seq<char>, mark: int, scope_id: u32)
    requires
        0 <= mark <= inside.len(),
        mark < inside.len() ==> inside[mark] == '%',
        crate::address_text::scope_of(inside, mark) == Some(scope_id),
    ensures
        scope_spelling(inside.skip(mark), scope_id),
{
    if mark < inside.len() {
        let scope = inside.skip(mark);
        let number = inside.skip(mark + 1);
        crate::text_laws::law_decimal_spellings(number, 0xffff_ffff, scope_id as nat);
        let more = choose|more: Seq<char>| #[trigger]
            only(more, '0') && number == more + crate::text::decimal(scope_id as nat);
        assert(scope =~= seq!['%'] + number);
        assert(scope =~= seq!['%'] + more + crate::text::decimal(scope_id as nat));
    }
}

/// A spelling of an IPv6 socket address is read as that address.
#[verifier::rlimit(40)]
proof fn lemma_address_v6_is_read(
    host: Seq<char>,
    scope: Seq<char>,
    zeros: Seq<char>,
    segments: Seq<u16>,
    port: u16,
    scope_id: u32,
)
    requires
        crate::address_text::ipv6_of(host) == Some(segments),
        scope_spelling(scope, scope_id),
        only(zeros, '0'),
    ensures
        crate::address_text::address_of(
            seq!['['] + host + scope + seq![']', ':'] + zeros + crate::text::decimal(port as nat),
        ) == Some(Address::V6 { segments, port, flowinfo: 0, scope_id }),
{
    let digits = zeros + crate::text::decimal(port as nat);
    let text = seq!['['] + host + scope + seq![']', ':'] + zeros + crate::text::decimal(
        port as nat,
    );
    assert(text[0] == '[');
    crate::text::lemma_position(text, ':');
    let colon: int = crate::text::position(text, ':');
    if colon < text.len() {
        assert(text.take(colon)[0] == '[');
        crate::address_laws::lemma_bracket_no_ipv4(text.take(colon));
    }
    assert(crate::address_text::address_v4_of(text) is None);
    lemma_ipv6_characters(host, ']');
    lemma_ipv6_characters(host, '%');
    crate::text_laws::law_decimal_spellings(digits, 0xffff, port as nat);
    let close: int = 1 + (host.len() + scope.len()) as int;
    let inside = host + scope;
    let mark: int = host.len() as int;
    if scope.len() > 0 {
        let more = choose|more: Seq<char>| #[trigger]
            only(more, '0') && scope == seq!['%'] + more + crate::text::decimal(scope_id as nat);
        let number = more + crate::text::decimal(scope_id as nat);
        assert(scope =~= seq!['%'] + number);
        crate::text_laws::law_decimal_spellings(number, 0xffff_ffff, scope_id as nat);
        assert(inside.skip(mark + 1) =~= number);
        assert forall|i: int| 0 <= i < scope.len() implies #[trigger] scope[i] != ']' by {
            if i > 0 {
                assert(scope[i] == number[i - 1]);
                assert(crate::text::digit_of(number[i - 1]) is Some);
            }
        }
        assert(inside[mark] == '%');
    }
    assert(inside.take(mark) =~= host);
    crate::text::lemma_position_is(inside, '%', mark);
    assert forall|i: int| 0 <= i < close implies #[trigger] text.take(close)[i] != ']' by {
        if 1 <= i < 1 + host.len() {
            assert(text[i] == host[i - 1]);
        } else if i > host.len() {
            assert(text[i] == scope[i - 1 - host.len()]);
        }
    }
    crate::text::lemma_position_is(text, ']', close);
    assert(text.subrange(1, close) =~= inside);
    assert(text.skip(close + 2) =~= digits);
}

// ---------------------------------------------------------------------------
// Case
// ---------------------------------------------------------------------------
/// Two texts are the same but for the case of ASCII letters exactly where they are of one
/// length, and characters that differ are a letter and its counterpart.
pub proof fn law_same_ignoring_ascii_case(a: Seq<char>, b: Seq<char>)
    ensures
        crate::text::same_ignoring_ascii_case(a, b) <==> a.len() == b.len() && forall|i: int|
            0 <= i < a.len() ==> {
                ||| #[trigger] a[i] == b[i]
                ||| 'A' <= a[i] <= 'Z' && b[i] as int == a[i] as int + 32
                ||| 'A' <= b[i] <= 'Z' && a[i] as int == b[i] as int + 32
            },
{
    if crate::text::same_ignoring_ascii_case(a, b) {
        assert forall|i: int| 0 <= i < a.len() implies {
            ||| #[trigger] a[i] == b[i]
            ||| 'A' <= a[i] <= 'Z' && b[i] as int == a[i] as int + 32
            ||| 'A' <= b[i] <= 'Z' && a[i] as int == b[i] as int + 32
        } by {
            assert(crate::text::ascii_lower(a[i]) == crate::text::ascii_lower(b[i]));
            lemma_lower(a[i]);
            lemma_lower(b[i]);
        }
    }
    if a.len() == b.len() && forall|i: int|
        0 <= i < a.len() ==> {
            ||| #[trigger] a[i] == b[i]
            ||| 'A' <= a[i] <= 'Z' && b[i] as int == a[i] as int + 32
            ||| 'A' <= b[i] <= 'Z' && a[i] as int == b[i] as int + 32
        } {
        assert forall|i: int| 0 <= i < a.len() implies crate::text::ascii_lower(#[trigger] a[i])
            == crate::text::ascii_lower(b[i]) by {
            lemma_lower(a[i]);
            lemma_lower(b[i]);
        }
    }
}

proof fn lemma_lower(c: char)
    ensures
        'A' <= c <= 'Z' ==> crate::text::ascii_lower(c) as int == c as int + 32,
        !('A' <= c <= 'Z') ==> crate::text::ascii_lower(c) == c,
{
}

/// A character that is no letter stands in one of the texts where it stands in the other.
proof fn lemma_same_mark(a: Seq<char>, b: Seq<char>, i: int, c: char)
    requires
        crate::text::same_ignoring_ascii_case(a, b),
        0 <= i < a.len(),
        !('A' <= c <= 'Z') && !('a' <= c <= 'z'),
    ensures
        a[i] == c <==> b[i] == c,
{
    assert(crate::text::ascii_lower(a[i]) == crate::text::ascii_lower(b[i]));
    lemma_lower(a[i]);
    lemma_lower(b[i]);
}

proof fn lemma_same_part(a: Seq<char>, b: Seq<char>, from: int, to: int)
    requires
        crate::text::same_ignoring_ascii_case(a, b),
        0 <= from <= to <= a.len(),
    ensures
        crate::text::same_ignoring_ascii_case(a.subrange(from, to), b.subrange(from, to)),
{
    let c = a.subrange(from, to);
    let d = b.subrange(from, to);
    assert forall|i: int| 0 <= i < c.len() implies crate::text::ascii_lower(#[trigger] c[i])
        == crate::text::ascii_lower(d[i]) by {
        assert(c[i] == a[from + i] && d[i] == b[from + i]);
    }
}

proof fn lemma_same_position(a: Seq<char>, b: Seq<char>, c: char)
    requires
        crate::text::same_ignoring_ascii_case(a, b),
        !('A' <= c <= 'Z') && !('a' <= c <= 'z'),
    ensures
        crate::text::position(a, c) == crate::text::position(b, c),
{
    crate::text::lemma_position(a, c);
    let p: int = crate::text::position(a, c);
    assert forall|i: int| 0 <= i < p implies #[trigger] b.take(p)[i] != c by {
        lemma_same_mark(a, b, i, c);
        assert(a.take(p)[i] != c);
    }
    if p < a.len() {
        lemma_same_mark(a, b, p, c);
    }
    crate::text::lemma_position_is(b, c, p);
}

proof fn lemma_same_gap(a: Seq<char>, b: Seq<char>)
    requires
        crate::text::same_ignoring_ascii_case(a, b),
    ensures
        crate::address_text::gap_position(a) == crate::address_text::gap_position(b),
    decreases a.len(),
{
    if a.len() >= 2 {
        lemma_same_mark(a, b, 0, ':');
        lemma_same_mark(a, b, 1, ':');
        lemma_same_part(a, b, 1, a.len() as int);
        assert(a.subrange(1, a.len() as int) =~= a.drop_first());
        assert(b.subrange(1, b.len() as int) =~= b.drop_first());
        lemma_same_gap(a.drop_first(), b.drop_first());
    }
}

proof fn lemma_same_split(a: Seq<char>, b: Seq<char>, sep: char)
    requires
        crate::text::same_ignoring_ascii_case(a, b),
        !('A' <= sep <= 'Z') && !('a' <= sep <= 'z'),
    ensures
        crate::text::split(a, sep).len() == crate::text::split(b, sep).len(),
        crate::text::split(a, sep).len() > 0,
        forall|i: int|
            0 <= i < crate::text::split(a, sep).len() ==> crate::text::same_ignoring_ascii_case(
                #[trigger] crate::text::split(a, sep)[i],
                crate::text::split(b, sep)[i],
            ),
    decreases a.len(),
{
    lemma_same_position(a, b, sep);
    crate::text::lemma_position(a, sep);
    let p: int = crate::text::position(a, sep);
    if p < a.len() {
        let n: int = a.len() as int;
        lemma_same_part(a, b, 0, p);
        lemma_same_part(a, b, p + 1, n);
        assert(a.subrange(0, p) =~= a.take(p) && b.subrange(0, p) =~= b.take(p));
        assert(a.subrange(p + 1, n) =~= a.skip(p + 1) && b.subrange(p + 1, n) =~= b.skip(p + 1));
        lemma_same_split(a.skip(p + 1), b.skip(p + 1), sep);
        let x = crate::text::split(a, sep);
        let y = crate::text::split(b, sep);
        assert forall|i: int| 0 <= i < x.len() implies crate::text::same_ignoring_ascii_case(
            #[trigger] x[i],
            y[i],
        ) by {
            if i > 0 {
                assert(x[i] == crate::text::split(a.skip(p + 1), sep)[i - 1]);
                assert(y[i] == crate::text::split(b.skip(p + 1), sep)[i - 1]);
            }
        }
    }
}

proof fn lemma_same_number(a: Seq<char>, b: Seq<char>, radix: nat, max: nat)
    requires
        crate::text::same_ignoring_ascii_case(a, b),
    ensures
        crate::text::number_of(a, radix, max) == crate::text::number_of(b, radix, max),
{
    assert forall|i: int| 0 <= i < a.len() implies crate::text::digit_of(#[trigger] a[i])
        == crate::text::digit_of(b[i]) by {
        lemma_same_digit(a, b, i);
    }
    lemma_same_value(a, b, radix);
    if crate::text::all_digits(a, radix) {
        assert forall|i: int| 0 <= i < b.len() implies (#[trigger] crate::text::digit_of(
            b[i],
        ) matches Some(d) && d < radix) by {
            assert(crate::text::digit_of(a[i]) is Some);
        }
    }
    if crate::text::all_digits(b, radix) {
        assert forall|i: int| 0 <= i < a.len() implies (#[trigger] crate::text::digit_of(
            a[i],
        ) matches Some(d) && d < radix) by {
            assert(crate::text::digit_of(b[i]) is Some);
        }
    }
}

proof fn lemma_same_digit(a: Seq<char>, b: Seq<char>, i: int)
    requires
        crate::text::same_ignoring_ascii_case(a, b),
        0 <= i < a.len(),
    ensures
        crate::text::digit_of(a[i]) == crate::text::digit_of(b[i]),
{
    assert(crate::text::ascii_lower(a[i]) == crate::text::ascii_lower(b[i]));
    lemma_lower(a[i]);
    lemma_lower(b[i]);
}

proof fn lemma_same_value(a: Seq<char>, b: Seq<char>, radix: nat)
    requires
        crate::text::same_ignoring_ascii_case(a, b),
    ensures
        crate::text::value_of(a, radix) == crate::text::value_of(b, radix),
    decreases a.len(),
{
    if a.len() > 0 {
        let n: int = a.len() as int;
        lemma_same_digit(a, b, n - 1);
        lemma_same_part(a, b, 0, n - 1);
        assert(a.subrange(0, n - 1) =~= a.drop_last() && b.subrange(0, n - 1) =~= b.drop_last());
        lemma_same_value(a.drop_last(), b.drop_last(), radix);
    }
}

proof fn lemma_same_octet(a: Seq<char>, b: Seq<char>)
    requires
        crate::text::same_ignoring_ascii_case(a, b),
    ensures
        crate::address_text::octet_of(a) == crate::address_text::octet_of(b),
{
    lemma_same_number(a, b, 10, 255);
    if a.len() > 0 {
        lemma_same_mark(a, b, 0, '0');
    }
}

proof fn lemma_same_ipv4(a: Seq<char>, b: Seq<char>)
    requires
        crate::text::same_ignoring_ascii_case(a, b),
    ensures
        crate::address_text::ipv4_of(a) == crate::address_text::ipv4_of(b),
{
    lemma_same_split(a, b, '.');
    let x = crate::text::split(a, '.');
    let y = crate::text::split(b, '.');
    assert forall|i: int| 0 <= i < x.len() implies crate::address_text::octet_of(#[trigger] x[i])
        == crate::address_text::octet_of(y[i]) by {
        lemma_same_octet(x[i], y[i]);
    }
    if crate::address_text::ipv4_of(a) is Some {
        assert forall|i: int| 0 <= i < 4 implies crate::address_text::octet_of(#[trigger] y[i])
            is Some by {
            assert(crate::address_text::octet_of(x[i]) is Some);
        }
        assert(crate::address_text::ipv4_of(a)->0 =~= crate::address_text::ipv4_of(b)->0);
    } else if crate::address_text::ipv4_of(b) is Some {
        assert forall|i: int| 0 <= i < 4 implies crate::address_text::octet_of(#[trigger] x[i])
            is Some by {
            assert(crate::address_text::octet_of(y[i]) is Some);
        }
    }
}

proof fn lemma_same_groups(x: Seq<Seq<char>>, y: Seq<Seq<char>>)
    requires
        x.len() == y.len(),
        forall|i: int|
            0 <= i < x.len() ==> crate::text::same_ignoring_ascii_case(#[trigger] x[i], y[i]),
    ensures
        crate::address_text::groups_of(x) == crate::address_text::groups_of(y),
{
    assert forall|i: int| 0 <= i < x.len() implies crate::address_text::group_of(#[trigger] x[i])
        == crate::address_text::group_of(y[i]) by {
        lemma_same_number(x[i], y[i], 16, 0xffff);
    }
    if crate::address_text::groups_of(x) is Some {
        assert forall|i: int| 0 <= i < y.len() implies crate::address_text::group_of(
            #[trigger] y[i],
        ) is Some by {
            assert(crate::address_text::group_of(x[i]) is Some);
        }
        assert(crate::address_text::groups_of(x)->0 =~= crate::address_text::groups_of(y)->0);
    } else if crate::address_text::groups_of(y) is Some {
        assert forall|i: int| 0 <= i < x.len() implies crate::address_text::group_of(
            #[trigger] x[i],
        ) is Some by {
            assert(crate::address_text::group_of(y[i]) is Some);
        }
    }
}

proof fn lemma_same_mixed(a: Seq<char>, b: Seq<char>)
    requires
        crate::text::same_ignoring_ascii_case(a, b),
    ensures
        crate::address_text::mixed_groups_of(crate::text::split(a, ':'))
            == crate::address_text::mixed_groups_of(crate::text::split(b, ':')),
        crate::address_text::groups_of(crate::text::split(a, ':'))
            == crate::address_text::groups_of(crate::text::split(b, ':')),
{
    lemma_same_split(a, b, ':');
    let x = crate::text::split(a, ':');
    let y = crate::text::split(b, ':');
    assert(crate::text::same_ignoring_ascii_case(x[x.len() - 1], y[y.len() - 1]));
    lemma_same_ipv4(x.last(), y.last());
    lemma_same_groups(x, y);
    assert forall|i: int| 0 <= i < x.drop_last().len() implies crate::text::same_ignoring_ascii_case(
        #[trigger] x.drop_last()[i],
        y.drop_last()[i],
    ) by {
        assert(crate::text::same_ignoring_ascii_case(x[i], y[i]));
    }
    lemma_same_groups(x.drop_last(), y.drop_last());
}

proof fn lemma_same_ipv6(a: Seq<char>, b: Seq<char>)
    requires
        crate::text::same_ignoring_ascii_case(a, b),
    ensures
        crate::address_text::ipv6_of(a) == crate::address_text::ipv6_of(b),
{
    lemma_same_gap(a, b);
    lemma_gap_found(a);
    let p = crate::address_text::gap_position(a);
    let n: int = a.len() as int;
    if p >= a.len() {
        lemma_same_mixed(a, b);
    } else {
        lemma_same_part(a, b, 0, p);
        lemma_same_part(a, b, p + 2, n);
        assert(a.subrange(0, p) =~= a.take(p) && b.subrange(0, p) =~= b.take(p));
        assert(a.subrange(p + 2, n) =~= a.skip(p + 2) && b.subrange(p + 2, n) =~= b.skip(p + 2));
        lemma_same_mixed(a.take(p), b.take(p));
        lemma_same_mixed(a.skip(p + 2), b.skip(p + 2));
    }
}

/// Reading an address does not depend on the case of its letters.
pub proof fn law_address_ignores_case(a: Seq<char>, b: Seq<char>)
    requires
        a.len() == b.len(),
        forall|i: int|
            0 <= i < a.len() ==> {
                ||| #[trigger] a[i] == b[i]
                ||| 'A' <= a[i] <= 'Z' && b[i] as int == a[i] as int + 32
                ||| 'A' <= b[i] <= 'Z' && a[i] as int == b[i] as int + 32
            },
    ensures
        crate::address_text::address_of(a) == crate::address_text::address_of(b),
{
    law_same_ignoring_ascii_case(a, b);
    let n: int = a.len() as int;
    lemma_same_position(a, b, ':');
    crate::text::lemma_position(a, ':');
    let colon: int = crate::text::position(a, ':');
    if colon < n {
        lemma_same_part(a, b, 0, colon);
        lemma_same_part(a, b, colon + 1, n);
        assert(a.subrange(0, colon) =~= a.take(colon) && b.subrange(0, colon) =~= b.take(colon));
        assert(a.subrange(colon + 1, n) =~= a.skip(colon + 1) && b.subrange(colon + 1, n)
            =~= b.skip(colon + 1));
        lemma_same_ipv4(a.take(colon), b.take(colon));
        lemma_same_number(a.skip(colon + 1), b.skip(colon + 1), 10, 0xffff);
    }
    assert(crate::address_text::address_v4_of(a) == crate::address_text::address_v4_of(b));
    lemma_same_position(a, b, ']');
    crate::text::lemma_position(a, ']');
    let close: int = crate::text::position(a, ']');
    if n > 0 {
        lemma_same_mark(a, b, 0, '[');
    }
    if close + 1 < n {
        lemma_same_mark(a, b, close + 1, ':');
    }
    if n > 0 && a[0] == '[' && close + 1 < n && a[close + 1] == ':' {
        assert(close > 0);
        let x = a.subrange(1, close);
        let y = b.subrange(1, close);
        lemma_same_part(a, b, 1, close);
        lemma_same_part(a, b, close + 2, n);
        assert(a.subrange(close + 2, n) =~= a.skip(close + 2) && b.subrange(close + 2, n)
            =~= b.skip(close + 2));
        lemma_same_number(a.skip(close + 2), b.skip(close + 2), 10, 0xffff);
        lemma_same_position(x, y, '%');
        crate::text::lemma_position(x, '%');
        let mark: int = crate::text::position(x, '%');
        lemma_same_part(x, y, 0, mark);
        assert(x.subrange(0, mark) =~= x.take(mark) && y.subrange(0, mark) =~= y.take(mark));
        lemma_same_ipv6(x.take(mark), y.take(mark));
        if mark < x.len() {
            let m: int = x.len() as int;
            lemma_same_part(x, y, mark + 1, m);
            assert(x.subrange(mark + 1, m) =~= x.skip(mark + 1) && y.subrange(mark + 1, m)
                =~= y.skip(mark + 1));
            lemma_same_number(x.skip(mark + 1), y.skip(mark + 1), 10, 0xffff_ffff);
        }
    }
}

// ---------------------------------------------------------------------------
// The text that is written
// ---------------------------------------------------------------------------
/// The text of an IPv4 socket address is its octets in decimal, with dots between them, a colon
/// and the port.
pub proof fn law_address_v4_text(octets: Seq<u8>, port: u16)
    requires
        octets.len() == 4,
    ensures
        crate::address_text::address_text(Address::V4 { octets, port }) == crate::text::decimal(
            octets[0] as nat,
        ) + seq!['.'] + crate::text::decimal(octets[1] as nat) + seq!['.'] + crate::text::decimal(
            octets[2] as nat,
        ) + seq!['.'] + crate::text::decimal(octets[3] as nat) + seq![':'] + crate::text::decimal(
            port as nat,
        ),
{
    reveal_strlit(":");
    let parts = Seq::new(octets.len(), |i: int| crate::text::decimal(octets[i] as nat));
    lemma_join_four(parts, '.');
    assert(":"@ =~= seq![':']);
}

/// The text of an IPv6 socket address is the address in brackets, with a scope other than zero
/// behind a percent sign, a colon and the port. The flow label is not written.
pub proof fn law_address_v6_text(segments: Seq<u16>, port: u16, flowinfo: u32, scope_id: u32)
    ensures
        crate::address_text::address_text(Address::V6 { segments, port, flowinfo, scope_id })
            == seq!['['] + crate::address_text::ipv6_text(segments) + (if scope_id == 0 {
            Seq::empty()
        } else {
            seq!['%'] + crate::text::decimal(scope_id as nat)
        }) + seq![']', ':'] + crate::text::decimal(port as nat),
{
    reveal_strlit("[");
    reveal_strlit("]:");
    reveal_strlit("%");
    assert("["@ =~= seq!['[']);
    assert("]:"@ =~= seq![']', ':']);
    assert("%"@ =~= seq!['%']);
}

/// Segments are written in hexadecimal, one by one, with colons between them.
pub proof fn law_groups_text(front: Seq<u16>, back: Seq<u16>)
    ensures
        crate::address_text::groups_text(Seq::empty()) == Seq::<char>::empty(),
        front.len() == 1 ==> crate::address_text::groups_text(front) == crate::text::hexadecimal(
            front[0] as nat,
        ),
        front.len() > 0 && back.len() > 0 ==> crate::address_text::groups_text(front + back)
            == crate::address_text::groups_text(front) + seq![':']
            + crate::address_text::groups_text(back),
{
    let x = Seq::new(front.len(), |i: int| crate::text::hexadecimal(front[i] as nat));
    let y = Seq::new(back.len(), |i: int| crate::text::hexadecimal(back[i] as nat));
    let both = front + back;
    let z = Seq::new(both.len(), |i: int| crate::text::hexadecimal(both[i] as nat));
    assert(z =~= x + y);
    crate::text_laws::law_join_of_parts(x, y, ':');
}

/// An address in which an IPv4 address is mapped is written with that address in dotted form.
pub proof fn law_mapped_address_text(segments: Seq<u16>)
    requires
        segments.len() == 8,
    ensures
        (segments[0] == 0 && segments[1] == 0 && segments[2] == 0 && segments[3] == 0
            && segments[4] == 0 && segments[5] == 0xffff) ==> crate::address_text::ipv6_text(
            segments,
        ) == seq![':', ':', 'f', 'f', 'f', 'f', ':'] + crate::text::decimal(
            (segments[6] / 256) as nat,
        ) + seq!['.'] + crate::text::decimal((segments[6] % 256) as nat) + seq!['.']
            + crate::text::decimal((segments[7] / 256) as nat) + seq!['.']
            + crate::text::decimal((segments[7] % 256) as nat),
{
    reveal_strlit("::ffff:");
    assert("::ffff:"@ =~= seq![':', ':', 'f', 'f', 'f', 'f', ':']);
    if segments[0] == 0 && segments[1] == 0 && segments[2] == 0 && segments[3] == 0 && segments[4]
        == 0 && segments[5] == 0xffff {
        assert(crate::address_text::is_ipv4_mapped(segments));
        let octets = crate::address_text::last_octets(segments);
        let parts = Seq::new(octets.len(), |i: int| crate::text::decimal(octets[i] as nat));
        lemma_join_four(parts, '.');
        let wanted = seq![':', ':', 'f', 'f', 'f', 'f', ':'] + parts[0] + seq!['.'] + parts[1]
            + seq!['.'] + parts[2] + seq!['.'] + parts[3];
        assert(crate::address_text::ipv6_text(segments) =~= wanted);
    }
}

/// Any other address is written in groups. Where a run of two or more zero segments is longer
/// than every run before it and as long as every run behind it, `::` stands for it; and where
/// no two zero segments stand side by side, every segment is written.
pub proof fn law_other_address_text(segments: Seq<u16>, start: int, len: int)
    requires
        segments.len() == 8,
        !(segments[0] == 0 && segments[1] == 0 && segments[2] == 0 && segments[3] == 0
            && segments[4] == 0 && segments[5] == 0xffff),
    ensures
        (forall|i: int, j: int|
            0 <= i < 8 && 0 <= j < 8 && j == i + 1 ==> !(#[trigger] segments[i] == 0
                && #[trigger] segments[j] == 0)) ==> crate::address_text::ipv6_text(segments)
            == crate::address_text::groups_text(segments),
        ({
            &&& 0 <= start
            &&& 2 <= len
            &&& start + len <= 8
            &&& segments.subrange(start, start + len) == Seq::new(len as nat, |i: int| 0u16)
            &&& forall|s: int, l: int|
                0 <= s && 0 < l && s + l <= 8 && #[trigger] segments.subrange(s, s + l) == Seq::new(
                    l as nat,
                    |i: int| 0u16,
                ) ==> l < len || l == len && start <= s
        }) ==> crate::address_text::ipv6_text(segments) == crate::address_text::groups_text(
            segments.take(start),
        ) + seq![':', ':'] + crate::address_text::groups_text(segments.skip(start + len)),
{
    reveal_strlit("::");
    assert("::"@ =~= seq![':', ':']);
    crate::address_laws::lemma_longest_zero_run_exists(segments);
    let (s, l) = choose|s: int, l: int|
        crate::address_text::is_longest_zero_run(segments, s, l);
    if forall|i: int, j: int|
        0 <= i < 8 && 0 <= j < 8 && j == i + 1 ==> !(#[trigger] segments[i] == 0
            && #[trigger] segments[j] == 0) {
        if l > 1 {
            assert(segments[s] == 0 && segments[s + 1] == 0);
        }
    }
    if ({
        &&& 0 <= start
        &&& 2 <= len
        &&& start + len <= 8
        &&& segments.subrange(start, start + len) == Seq::new(len as nat, |i: int| 0u16)
        &&& forall|a: int, b: int|
            0 <= a && 0 < b && a + b <= 8 && #[trigger] segments.subrange(a, a + b) == Seq::new(
                b as nat,
                |i: int| 0u16,
            ) ==> b < len || b == len && start <= a
    }) {
        let run = segments.subrange(start, start + len);
        assert forall|i: int| start <= i < start + len implies #[trigger] segments[i] == 0 by {
            assert(run[i - start] == 0);
        }
        assert(crate::address_text::is_zero_run(segments, start, len));
        assert forall|a: int, b: int| #[trigger]
            crate::address_text::is_zero_run(segments, a, b) implies b <= len && (b == len && b > 0
            ==> start <= a) by {
            if b > 0 {
                assert(segments.subrange(a, a + b) =~= Seq::new(b as nat, |i: int| 0u16));
            }
        }
        assert(crate::address_text::is_longest_zero_run(segments, start, len));
        crate::address_text::lemma_longest_zero_run_unique(segments, start, len, s, l);
    }
}

} // verus!
