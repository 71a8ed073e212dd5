//! The text of an address reads back as that address.
use vstd::prelude::*;

use crate::socket_addr::Address;

verus! {

/// A numeral lacks every character that is no digit.
pub proof fn lemma_numeral_lacks(n: nat, radix: nat, c: char)
    requires
        2 <= radix <= 16,
        crate::text::digit_of(c) is None,
    ensures
        crate::text::lacks(crate::text::numeral(n, radix), c),
{
    crate::text::lemma_numeral(n, radix);
    let s = crate::text::numeral(n, radix);
    assert forall|i: int| 0 <= i < s.len() implies #[trigger] s[i] != c by {
        assert(crate::text::digit_of(s[i]) is Some);
    }
}

/// Joined pieces lack every character that they and the separator lack.
pub proof fn lemma_join_lacks(parts: Seq<Seq<char>>, sep: char, c: char)
    requires
        sep != c,
        forall|i: int| 0 <= i < parts.len() ==> crate::text::lacks(#[trigger] parts[i], c),
    ensures
        crate::text::lacks(crate::text::join(parts, sep), c),
    decreases parts.len(),
{
    if parts.len() > 0 {
        assert(crate::text::lacks(parts[0], c));
        let rest = parts.drop_first();
        assert forall|i: int| 0 <= i < rest.len() implies crate::text::lacks(
            #[trigger] rest[i],
            c,
        ) by {
            assert(rest[i] == parts[i + 1]);
        }
        lemma_join_lacks(rest, sep, c);
    }
}

// ---------------------------------------------------------------------------
// IPv4
// ---------------------------------------------------------------------------
/// The decimal pieces of an IPv4 address.
spec fn octet_parts(octets: Seq<u8>) -> Seq<Seq<char>> {
    Seq::new(octets.len(), |i: int| crate::text::decimal(octets[i] as nat))
}

proof fn lemma_octet(octet: u8)
    ensures
        crate::address_text::octet_of(crate::text::decimal(octet as nat)) == Some(octet),
{
    crate::text::lemma_numeral(octet as nat, 10);
    crate::text::lemma_decimal_len(octet as nat);
}

/// The text of an IPv4 address reads back, and holds only digits and dots.
proof fn lemma_ipv4(octets: Seq<u8>)
    requires
        octets.len() == 4,
    ensures
        crate::address_text::ipv4_of(crate::address_text::ipv4_text(octets)) == Some(octets),
        crate::text::lacks(crate::address_text::ipv4_text(octets), ':'),
        crate::text::lacks(crate::address_text::ipv4_text(octets), ']'),
        crate::text::lacks(crate::address_text::ipv4_text(octets), '%'),
        crate::address_text::ipv4_text(octets).len() > 0,
        crate::text::digit_of(crate::address_text::ipv4_text(octets)[0]) is Some,
{
    let parts = octet_parts(octets);
    let text = crate::address_text::ipv4_text(octets);
    assert forall|i: int, c: char|
        0 <= i < 4 && crate::text::digit_of(c) is None implies #[trigger] crate::text::lacks(
        parts[i],
        c,
    ) by {
        lemma_numeral_lacks(octets[i] as nat, 10, c);
    }
    assert(crate::text::digit_of('.') is None);
    assert(crate::text::digit_of(':') is None);
    assert(crate::text::digit_of(']') is None);
    assert(crate::text::digit_of('%') is None);
    assert(forall|i: int| 0 <= i < 4 ==> crate::text::lacks(#[trigger] parts[i], '.'));
    crate::text::lemma_split_join(parts, '.');
    assert(forall|i: int| 0 <= i < 4 ==> crate::text::lacks(#[trigger] parts[i], ':'));
    lemma_join_lacks(parts, '.', ':');
    assert(forall|i: int| 0 <= i < 4 ==> crate::text::lacks(#[trigger] parts[i], ']'));
    lemma_join_lacks(parts, '.', ']');
    assert(forall|i: int| 0 <= i < 4 ==> crate::text::lacks(#[trigger] parts[i], '%'));
    lemma_join_lacks(parts, '.', '%');
    assert forall|i: int| 0 <= i < 4 implies crate::address_text::octet_of(#[trigger] parts[i])
        == Some(octets[i]) by {
        lemma_octet(octets[i]);
    }
    assert(crate::address_text::ipv4_of(text) is Some);
    assert(crate::address_text::ipv4_of(text)->0 =~= octets);
    crate::text::lemma_numeral(octets[0] as nat, 10);
    assert(text[0] == parts[0][0]);
}

// ---------------------------------------------------------------------------
// IPv6
// ---------------------------------------------------------------------------
/// The hexadecimal pieces of some segments.
spec fn group_parts(segments: Seq<u16>) -> Seq<Seq<char>> {
    Seq::new(segments.len(), |i: int| crate::text::hexadecimal(segments[i] as nat))
}

/// Whether `::` stands at `i`.
pub open spec fn gap_at(s: Seq<char>, i: int) -> bool {
    s[i] == ':' && s[i + 1] == ':'
}

/// Whether `::` stands nowhere before `end`.
pub open spec fn no_gap_before(s: Seq<char>, end: int) -> bool {
    forall|i: int| 0 <= i < end && i + 1 < s.len() ==> !#[trigger] gap_at(s, i)
}

/// The gap is where it first occurs.
pub proof fn lemma_gap_is(s: Seq<char>, p: int)
    requires
        0 <= p <= s.len(),
        no_gap_before(s, p),
        p < s.len() ==> p + 1 < s.len() && gap_at(s, p),
    ensures
        crate::address_text::gap_position(s) == p,
    decreases s.len(),
{
    if s.len() >= 2 && p > 0 {
        let t = s.drop_first();
        assert(!gap_at(s, 0));
        assert forall|i: int| 0 <= i < p - 1 && i + 1 < t.len() implies !#[trigger] gap_at(
            t,
            i,
        ) by {
            assert(!gap_at(s, i + 1));
        }
        lemma_gap_is(t, p - 1);
    }
}

/// Joined pieces that are not empty and lack colons hold no gap, and no colon at an end.
pub proof fn lemma_join_no_gap(parts: Seq<Seq<char>>)
    requires
        parts.len() > 0,
        forall|i: int|
            0 <= i < parts.len() ==> crate::text::lacks(#[trigger] parts[i], ':') && parts[i].len()
                > 0,
    ensures
        ({
            let s = crate::text::join(parts, ':');
            &&& s.len() > 0
            &&& s[0] != ':'
            &&& s.last() != ':'
            &&& no_gap_before(s, s.len() as int)
        }),
    decreases parts.len(),
{
    let s = crate::text::join(parts, ':');
    let first = parts[0];
    assert(crate::text::lacks(first, ':'));
    if parts.len() > 1 {
        let rest = parts.drop_first();
        assert forall|i: int| 0 <= i < rest.len() implies crate::text::lacks(#[trigger] rest[i], ':')
            && rest[i].len() > 0 by {
            assert(rest[i] == parts[i + 1]);
        }
        lemma_join_no_gap(rest);
        let t = crate::text::join(rest, ':');
        let n: int = first.len() as int;
        assert(s.len() == n + 1 + t.len());
        assert(s[0] == first[0]);
        assert(s.last() == t.last());
        assert forall|i: int| 0 <= i < s.len() && i + 1 < s.len() implies !#[trigger] gap_at(
            s,
            i,
        ) by {
            if i < n {
                assert(s[i] == first[i]);
            } else if i == n {
                assert(s[i + 1] == t[0]);
            } else {
                assert(!gap_at(t, i - n - 1));
                assert(s[i] == t[i - n - 1]);
                assert(s[i + 1] == t[i - n]);
            }
        }
    }
}

/// The text of some segments reads back, and holds only hexadecimal digits and colons.
proof fn lemma_groups(segments: Seq<u16>)
    requires
        segments.len() > 0,
    ensures
        ({
            let text = crate::address_text::groups_text(segments);
            &&& crate::address_text::groups_of(crate::text::split(text, ':')) == Some(segments)
            &&& crate::address_text::mixed_groups_of(crate::text::split(text, ':')) == Some(
                segments,
            )
            &&& crate::text::lacks(text, ']')
            &&& crate::text::lacks(text, '%')
            &&& text.len() > 0
            &&& text[0] != ':'
            &&& text.last() != ':'
            &&& no_gap_before(text, text.len() as int)
        }),
{
    let parts = group_parts(segments);
    let text = crate::address_text::groups_text(segments);
    assert(crate::text::digit_of(':') is None);
    assert(crate::text::digit_of('.') is None);
    assert(crate::text::digit_of(']') is None);
    assert(crate::text::digit_of('%') is None);
    assert forall|i: int| 0 <= i < parts.len() implies crate::text::lacks(#[trigger] parts[i], ':')
        && parts[i].len() > 0 by {
        lemma_numeral_lacks(segments[i] as nat, 16, ':');
        crate::text::lemma_numeral(segments[i] as nat, 16);
    }
    assert forall|i: int| 0 <= i < parts.len() implies crate::text::lacks(
        #[trigger] parts[i],
        ']',
    ) by {
        lemma_numeral_lacks(segments[i] as nat, 16, ']');
    }
    assert forall|i: int| 0 <= i < parts.len() implies crate::text::lacks(
        #[trigger] parts[i],
        '%',
    ) by {
        lemma_numeral_lacks(segments[i] as nat, 16, '%');
    }
    crate::text::lemma_split_join(parts, ':');
    lemma_join_lacks(parts, ':', ']');
    lemma_join_lacks(parts, ':', '%');
    lemma_join_no_gap(parts);
    assert forall|i: int| 0 <= i < parts.len() implies crate::address_text::group_of(
        #[trigger] parts[i],
    ) == Some(segments[i]) by {
        crate::text::lemma_numeral(segments[i] as nat, 16);
        crate::text::lemma_hexadecimal_len(segments[i] as nat);
    }
    assert(crate::address_text::groups_of(parts)->0 =~= segments);
    lemma_numeral_lacks(segments.last() as nat, 16, '.');
    lemma_no_dot_no_ipv4(parts.last());
}

/// Text without a dot is no IPv4 address.
pub proof fn lemma_no_dot_no_ipv4(text: Seq<char>)
    requires
        crate::text::lacks(text, '.'),
    ensures
        crate::address_text::ipv4_of(text) is None,
{
    assert(text.take(text.len() as int) =~= text);
    crate::text::lemma_position_is(text, '.', text.len() as int);
    assert(crate::text::split(text, '.').len() == 1);
}

/// The text of an IPv6 address reads back, and lacks the marks that end it.
proof fn lemma_ipv6(segments: Seq<u16>)
    requires
        segments.len() == 8,
    ensures
        crate::address_text::ipv6_of(crate::address_text::ipv6_text(segments)) == Some(segments),
        crate::text::lacks(crate::address_text::ipv6_text(segments), ']'),
        crate::text::lacks(crate::address_text::ipv6_text(segments), '%'),
{
    if crate::address_text::is_ipv4_mapped(segments) {
        lemma_ipv6_mapped(segments);
    } else {
        let (start, len) = choose|start: int, len: int|
            crate::address_text::is_longest_zero_run(segments, start, len);
        let text = crate::address_text::ipv6_text(segments);
        lemma_longest_zero_run_exists(segments);
        if len > 1 {
            lemma_ipv6_gap(segments, start, len);
        } else {
            lemma_groups(segments);
            lemma_gap_is(text, text.len() as int);
        }
    }
}

/// There is a longest run of zeros.
pub proof fn lemma_longest_zero_run_exists(segments: Seq<u16>)
    ensures
        exists|start: int, len: int|
            crate::address_text::is_longest_zero_run(segments, start, len),
{
    lemma_longest_zero_run_below(segments, segments.len() as int);
}

/// The same, of runs whose length is at most `bound`.
proof fn lemma_longest_zero_run_below(segments: Seq<u16>, bound: int)
    requires
        0 <= bound,
        forall|s: int, l: int| #[trigger]
            crate::address_text::is_zero_run(segments, s, l) ==> l <= bound,
    ensures
        exists|start: int, len: int|
            crate::address_text::is_longest_zero_run(segments, start, len),
    decreases bound,
{
    if bound == 0 {
        assert(crate::address_text::is_zero_run(segments, 0, 0));
        assert(crate::address_text::is_longest_zero_run(segments, 0, 0));
    } else if exists|s: int| crate::address_text::is_zero_run(segments, s, bound) {
        let s = choose|s: int| crate::address_text::is_zero_run(segments, s, bound);
        lemma_first_zero_run(segments, s, bound);
    } else {
        assert forall|s: int, l: int| #[trigger]
            crate::address_text::is_zero_run(segments, s, l) implies l <= bound - 1 by {
            if l == bound {
                assert(crate::address_text::is_zero_run(segments, s, bound));
            }
        }
        lemma_longest_zero_run_below(segments, bound - 1);
    }
}

/// The first run of the greatest length is the longest run.
proof fn lemma_first_zero_run(segments: Seq<u16>, start: int, len: int)
    requires
        len > 0,
        crate::address_text::is_zero_run(segments, start, len),
        forall|s: int, l: int| #[trigger]
            crate::address_text::is_zero_run(segments, s, l) ==> l <= len,
    ensures
        exists|s: int, l: int| crate::address_text::is_longest_zero_run(segments, s, l),
    decreases start,
{
    if exists|s: int| s < start && crate::address_text::is_zero_run(segments, s, len) {
        let s = choose|s: int| s < start && crate::address_text::is_zero_run(segments, s, len);
        lemma_first_zero_run(segments, s, len);
    } else {
        assert(crate::address_text::is_longest_zero_run(segments, start, len));
    }
}

/// An address written with `::` reads back.
#[verifier::rlimit(40)]
proof fn lemma_ipv6_gap(segments: Seq<u16>, start: int, len: int)
    requires
        segments.len() == 8,
        crate::address_text::is_zero_run(segments, start, len),
        len > 1,
    ensures
        ({
            let text = crate::address_text::groups_text(segments.take(start)) + "::"@
                + crate::address_text::groups_text(segments.skip(start + len));
            &&& crate::address_text::ipv6_of(text) == Some(segments)
            &&& crate::text::lacks(text, ']')
            &&& crate::text::lacks(text, '%')
        }),
{
    reveal_strlit("::");
    let head = segments.take(start);
    let tail = segments.skip(start + len);
    let before = crate::address_text::groups_text(head);
    let after = crate::address_text::groups_text(tail);
    let text = before + "::"@ + after;
    if head.len() > 0 {
        lemma_groups(head);
    }
    if tail.len() > 0 {
        lemma_groups(tail);
    }
    let p: int = before.len() as int;
    assert(text[p] == ':' && text[p + 1] == ':');
    assert forall|i: int| 0 <= i < p && i + 1 < text.len() implies !#[trigger] gap_at(text, i) by {
        assert(text[i] == before[i]);
        if i + 1 < p {
            assert(text[i + 1] == before[i + 1]);
            assert(!gap_at(before, i));
        }
    }
    lemma_gap_is(text, p);
    assert(text.take(p) =~= before);
    assert(text.skip(p + 2) =~= after);
    assert(crate::address_text::filled(head, tail) =~= segments);
    if head.len() == 0 {
        assert(head =~= Seq::empty());
    }
    if tail.len() == 0 {
        assert(tail =~= Seq::empty());
    }
}

/// An IPv4-mapped address reads back.
proof fn lemma_ipv6_mapped(segments: Seq<u16>)
    requires
        segments.len() == 8,
        crate::address_text::is_ipv4_mapped(segments),
    ensures
        ({
            let text = crate::address_text::ipv6_text(segments);
            &&& crate::address_text::ipv6_of(text) == Some(segments)
            &&& crate::text::lacks(text, ']')
            &&& crate::text::lacks(text, '%')
        }),
{
    reveal_strlit("::ffff:");
    let octets = crate::address_text::last_octets(segments);
    let dotted = crate::address_text::ipv4_text(octets);
    let text = crate::address_text::ipv6_text(segments);
    lemma_ipv4(octets);
    lemma_gap_is(text, 0);
    assert(text.take(0) =~= Seq::empty());
    let ffff = seq!['f', 'f', 'f', 'f'];
    let parts = seq![ffff, dotted];
    let after = text.skip(2);
    assert(parts.drop_first() =~= seq![dotted]);
    assert(crate::text::join(parts.drop_first(), ':') == dotted);
    assert(after =~= crate::text::join(parts, ':'));
    assert(crate::text::lacks(ffff, ':'));
    crate::text::lemma_split_join(parts, ':');
    assert(parts.last() == dotted);
    assert(parts.drop_last() =~= seq![ffff]);
    assert(crate::text::value_of(ffff, 16) == 0xffff) by {
        assert(ffff.drop_last() =~= seq!['f', 'f', 'f']);
        assert(ffff.drop_last().drop_last() =~= seq!['f', 'f']);
        assert(ffff.drop_last().drop_last().drop_last() =~= seq!['f']);
        reveal_with_fuel(crate::text::value_of, 5);
    }
    assert(crate::address_text::group_of(ffff) == Some(0xffffu16));
    let front = seq![0xffffu16];
    assert(crate::address_text::groups_of(parts.drop_last())->0 =~= front);
    let tail = front + crate::address_text::embedded(octets);
    assert(crate::address_text::mixed_groups_of(parts) == Some(tail));
    assert(tail =~= seq![0xffffu16, segments[6], segments[7]]);
    assert(crate::address_text::filled(Seq::empty(), tail) =~= segments);
}

// ---------------------------------------------------------------------------
// Socket addresses
// ---------------------------------------------------------------------------
proof fn lemma_port(port: u16)
    ensures
        crate::address_text::port_of(crate::text::decimal(port as nat)) == Some(port),
{
    crate::text::lemma_numeral(port as nat, 10);
}

/// Text that starts with a bracket is no IPv4 address.
pub proof fn lemma_bracket_no_ipv4(text: Seq<char>)
    requires
        text.len() > 0,
        text[0] == '[',
    ensures
        crate::address_text::ipv4_of(text) is None,
{
    crate::text::lemma_position(text, '.');
    let p: int = crate::text::position(text, '.');
    let parts = crate::text::split(text, '.');
    assert(parts[0][0] == '[');
    assert(crate::text::digit_of(parts[0][0]) is None);
    assert(crate::address_text::octet_of(parts[0]) is None);
}

/// The text that stands for an address reads back as that address. Only the flow label,
/// which the text does not carry, comes back as zero.
#[verifier::rlimit(40)]
pub proof fn law_address_text_reads_back(address: Address)
    requires
        address.well_formed(),
    ensures
        crate::address_text::address_of(crate::address_text::address_text(address)) == Some(
            address.without_flow(),
        ),
{
    let text = crate::address_text::address_text(address);
    match address {
        Address::V4 { octets, port } => {
            let host = crate::address_text::ipv4_text(octets);
            reveal_strlit(":");
            lemma_ipv4(octets);
            lemma_port(port);
            let p: int = host.len() as int;
            assert(text.take(p) =~= host);
            crate::text::lemma_position_is(text, ':', p);
            assert(text.skip(p + 1) =~= crate::text::decimal(port as nat));
        },
        Address::V6 { segments, port, scope_id, .. } => {
            let host = crate::address_text::ipv6_text(segments);
            let scope = crate::address_text::scope_text(scope_id);
            let digits = crate::text::decimal(port as nat);
            reveal_strlit("[");
            reveal_strlit("]:");
            reveal_strlit("%");
            lemma_ipv6(segments);
            lemma_port(port);
            // No IPv4 address starts with a bracket.
            crate::text::lemma_position(text, ':');
            let colon: int = crate::text::position(text, ':');
            if colon < text.len() {
                assert(text.take(colon)[0] == '[');
                lemma_bracket_no_ipv4(text.take(colon));
            }
            assert(crate::address_text::address_v4_of(text) is None);
            // The bracket closes behind the scope.
            crate::text::lemma_numeral(scope_id as nat, 10);
            assert(crate::text::digit_of(']') is None);
            lemma_numeral_lacks(scope_id as nat, 10, ']');
            let close: int = (1 + host.len() + scope.len()) as int;
            assert forall|i: int| 0 <= i < close implies #[trigger] text.take(close)[i] != ']' by {
                if 1 <= i < 1 + host.len() {
                    assert(text[i] == host[i - 1]);
                } else if i > host.len() {
                    assert(text[i] == scope[i - 1 - host.len()]);
                    if i > host.len() + 1 {
                        assert(scope[i - 1 - host.len()] == crate::text::decimal(
                            scope_id as nat,
                        )[i - 2 - host.len()]);
                    }
                }
            }
            crate::text::lemma_position_is(text, ']', close);
            let inside = text.subrange(1, close);
            assert(inside =~= host + scope);
            let mark: int = host.len() as int;
            assert(inside.take(mark) =~= host);
            crate::text::lemma_position_is(inside, '%', mark);
            if scope_id != 0 {
                assert(inside.skip(mark + 1) =~= crate::text::decimal(scope_id as nat));
            }
            assert(text.skip(close + 2) =~= digits);
        },
    }
}

} // verus!
