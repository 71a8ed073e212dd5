//! Laws of the rule grammar.
use vstd::prelude::*;

use crate::port_mapping::{PortMapping, Rule};
use crate::socket_addr::Address;
use crate::text_laws::{blank, only};

verus! {

/// A numeral has no white space and no colon, and is no flag.
proof fn lemma_decimal(n: nat)
    ensures
        crate::text::trim(crate::text::decimal(n)) == crate::text::decimal(n),
        crate::text::lacks(crate::text::decimal(n), ':'),
        crate::text::decimal(n).len() > 0,
        '0' <= crate::text::decimal(n)[0] <= '9',
        '0' <= crate::text::decimal(n).last() <= '9',
        !crate::text::same_ignoring_ascii_case(crate::text::decimal(n), "no_pp"@),
{
    reveal_strlit("no_pp");
    crate::text::lemma_numeral(n, 10);
    let s = crate::text::decimal(n);
    assert(crate::text::digit_of(s[0]) is Some);
    assert(crate::text::digit_of(s[s.len() - 1]) is Some);
    assert forall|i: int| 0 <= i < s.len() implies #[trigger] s[i] != ':' by {
        assert(crate::text::digit_of(s[i]) is Some);
    }
    if crate::text::same_ignoring_ascii_case(s, "no_pp"@) {
        assert(crate::text::ascii_lower(s[0]) == crate::text::ascii_lower("no_pp"@[0]));
    }
}

/// The text of an address has no white space at its ends, and what stands behind its last
/// colon is the port.
proof fn lemma_address_text_ends(address: Address)
    requires
        address.well_formed(),
    ensures
        ({
            let text = crate::address_text::address_text(address);
            &&& crate::text::trim(text) == text
            &&& !crate::port_mapping::has_no_pp(text)
        }),
{
    let text = crate::address_text::address_text(address);
    let digits = crate::text::decimal(address.port() as nat);
    lemma_decimal(address.port() as nat);
    let colon: int = text.len() - digits.len() - 1;
    reveal_strlit(":");
    reveal_strlit("]:");
    reveal_strlit("[");
    match address {
        Address::V4 { octets, port } => {
            let parts = Seq::new(
                octets.len(),
                |i: int| crate::text::decimal(octets[i] as nat),
            );
            lemma_decimal(octets[0] as nat);
            assert(text[0] == parts[0][0]);
        },
        Address::V6 { .. } => {
            assert(text[0] == '[');
        },
    }
    assert(text.last() == digits.last());
    assert(text[colon] == ':');
    assert(text.skip(colon + 1) =~= digits);
    crate::text::lemma_last_position_is(text, ':', colon);
    crate::text::lemma_trim_keeps(text);
}

/// The text that stands for a rule reads back as that rule. Only the flow label of an IPv6
/// destination, which the text does not carry, comes back as zero.
#[verifier::rlimit(40)]
pub proof fn law_rule_text_reads_back(rule: Rule)
    requires
        rule.writable(),
    ensures
        crate::port_mapping::rule_of(crate::port_mapping::rule_text(rule)) == Ok::<Rule, Seq<char>>(
            rule.without_flow(),
        ),
{
    let text = crate::port_mapping::rule_text(rule);
    let source = crate::text::decimal(rule.source_port as nat);
    let address = crate::address_text::address_text(rule.dest);
    let flag = if rule.proxy_protocol {
        Seq::empty()
    } else {
        ":no_pp"@
    };
    reveal_strlit(":");
    reveal_strlit(":no_pp");
    lemma_decimal(rule.source_port as nat);
    lemma_address_text_ends(rule.dest);
    crate::address_laws::law_address_text_reads_back(rule.dest);
    assert(crate::port_mapping::source_port_of(source) == Some(rule.source_port)) by {
        crate::text::lemma_numeral(rule.source_port as nat, 10);
    }
    assert(text =~= source + seq![':'] + (address + flag));
    assert(rule_spelling(text, rule.without_flow(), source, address, flag));
    law_rule_spellings(text, rule.without_flow());
}

/// What is read from the text of a rule is that rule, down to the last field: where both its
/// ports count from one, and an IPv6 destination carries no flow label.
pub proof fn law_mapping_reads_back(mapping: PortMapping, again: PortMapping)
    requires
        mapping.source_port != 0,
        mapping.dest_addr@.port() != 0,
        mapping.dest_addr@.without_flow() == mapping.dest_addr@,
        crate::port_mapping::rule_of(crate::port_mapping::rule_text(mapping@)) == Ok::<
            Rule,
            Seq<char>,
        >(again@),
    ensures
        again == mapping,
{
    mapping.dest_addr.lemma_well_formed();
    law_rule_text_reads_back(mapping@);
    crate::socket_addr::lemma_same_view(mapping.dest_addr, again.dest_addr);
}

/// Every rule that is read can be written: its ports are not zero, its addresses are whole
/// and carry no flow label.
pub proof fn law_read_rule_is_writable(text: Seq<char>)
    requires
        crate::port_mapping::rule_of(text) is Ok,
    ensures
        ({
            let rule = crate::port_mapping::rule_of(text)->Ok_0;
            &&& rule.writable()
            &&& rule.without_flow() == rule
        }),
{
    let rest = text.skip(crate::text::position(text, ':') + 1);
    lemma_read_address(crate::text::trim(crate::port_mapping::without_no_pp(rest)));
}

/// An address that is read is whole and has no flow label.
proof fn lemma_read_address(text: Seq<char>)
    ensures
        crate::address_text::address_of(text) matches Some(address) ==> address.well_formed()
            && address.without_flow() == address,
{
}

/// Reading a rule, writing it and reading it again gives the same rule.
pub proof fn law_rule_survives_rewriting(text: Seq<char>)
    requires
        crate::port_mapping::rule_of(text) is Ok,
    ensures
        crate::port_mapping::rule_of(
            crate::port_mapping::rule_text(crate::port_mapping::rule_of(text)->Ok_0),
        ) == crate::port_mapping::rule_of(text),
{
    law_read_rule_is_writable(text);
    law_rule_text_reads_back(crate::port_mapping::rule_of(text)->Ok_0);
}

/// Putting `:no_pp` behind a rule that forwards the header gives the same rule without it.
pub proof fn law_no_pp_suffix_strips_header(text: Seq<char>)
    requires
        crate::port_mapping::rule_of(text) is Ok,
        crate::port_mapping::rule_of(text)->Ok_0.proxy_protocol,
    ensures
        crate::port_mapping::rule_of(text + ":no_pp"@) == Ok::<Rule, Seq<char>>(
            Rule { proxy_protocol: false, ..crate::port_mapping::rule_of(text)->Ok_0 },
        ),
{
    reveal_strlit(":no_pp");
    reveal_strlit("no_pp");
    let longer = text + ":no_pp"@;
    let colon: int = crate::text::position(text, ':');
    crate::text::lemma_position(text, ':');
    assert(longer.take(colon) =~= text.take(colon));
    crate::text::lemma_position_is(longer, ':', colon);
    let rest = text.skip(colon + 1);
    let longer_rest = longer.skip(colon + 1);
    assert(longer_rest =~= rest + ":no_pp"@);
    let last: int = rest.len() as int;
    assert(longer_rest.skip(last + 1) =~= "no_pp"@);
    crate::text::lemma_last_position_is(longer_rest, ':', last);
    assert(longer_rest.take(last) =~= rest);
    assert(crate::port_mapping::has_no_pp(longer_rest));
}

// ---------------------------------------------------------------------------
// Spellings
// ---------------------------------------------------------------------------
/// A text writes a source port exactly where it is the decimal digits of the port, behind any
/// number of zeros, and perhaps a `+` in front of all.
pub proof fn law_source_port_spellings(text: Seq<char>, port: u16)
    ensures
        crate::port_mapping::source_port_of(text) == Some(port) <==> exists|zeros: Seq<char>|
            #[trigger] only(zeros, '0') && (text == zeros + crate::text::decimal(port as nat)
                || text == seq!['+'] + zeros + crate::text::decimal(port as nat)),
{
    let number = crate::text::decimal(port as nat);
    lemma_decimal(port as nat);
    let digits = if text.len() > 0 && text[0] == '+' {
        text.skip(1)
    } else {
        text
    };
    crate::text_laws::law_decimal_spellings(digits, 0xffff, port as nat);
    if crate::port_mapping::source_port_of(text) == Some(port) {
        let zeros = choose|zeros: Seq<char>| #[trigger]
            only(zeros, '0') && digits == zeros + number;
        if text.len() > 0 && text[0] == '+' {
            assert(text =~= seq!['+'] + digits);
            assert(text =~= seq!['+'] + zeros + number);
        }
    }
    if exists|zeros: Seq<char>| #[trigger]
        only(zeros, '0') && (text == zeros + number || text == seq!['+'] + zeros + number) {
        let zeros = choose|zeros: Seq<char>| #[trigger]
            only(zeros, '0') && (text == zeros + number || text == seq!['+'] + zeros + number);
        if text == zeros + number {
            if zeros.len() > 0 {
                assert(text[0] == zeros[0]);
            } else {
                assert(text[0] == number[0]);
            }
            assert(digits == zeros + number);
        } else {
            assert(text[0] == '+');
            assert(digits =~= zeros + number);
        }
    }
}

/// Whether `flag` is `:no_pp`, in any case.
pub open spec fn is_no_pp(flag: Seq<char>) -> bool {
    &&& flag.len() == 6
    &&& flag[0] == ':'
    &&& flag[1] == 'n' || flag[1] == 'N'
    &&& flag[2] == 'o' || flag[2] == 'O'
    &&& flag[3] == '_'
    &&& flag[4] == 'p' || flag[4] == 'P'
    &&& flag[5] == 'p' || flag[5] == 'P'
}

/// The flag that strips the header is seen exactly where a text ends in `:no_pp`, in any case;
/// what stands in front of it is left.
pub proof fn law_no_pp_is_a_suffix(rest: Seq<char>)
    ensures
        crate::port_mapping::has_no_pp(rest) <==> rest.len() >= 6 && is_no_pp(
            rest.skip(rest.len() - 6),
        ),
        crate::port_mapping::has_no_pp(rest) ==> crate::port_mapping::without_no_pp(rest)
            == rest.take(rest.len() - 6),
        !crate::port_mapping::has_no_pp(rest) ==> crate::port_mapping::without_no_pp(rest) == rest,
{
    reveal_strlit("no_pp");
    crate::text::lemma_last_position(rest, ':');
    let n: int = rest.len() as int;
    let colon: int = crate::text::last_position(rest, ':');
    let tail = rest.skip(colon + 1);
    crate::spelling_laws::law_same_ignoring_ascii_case(tail, "no_pp"@);
    if crate::port_mapping::has_no_pp(rest) {
        assert(colon == n - 6);
        let flag = rest.skip(n - 6);
        assert(tail[0] == flag[1] && tail[1] == flag[2] && tail[2] == flag[3] && tail[3] == flag[4]
            && tail[4] == flag[5]);
        assert(is_no_pp(flag));
    }
    if n >= 6 && is_no_pp(rest.skip(n - 6)) {
        let flag = rest.skip(n - 6);
        let end = rest.skip(n - 5);
        assert(end.len() == 5);
        assert(end[0] == flag[1] && end[1] == flag[2] && end[2] == flag[3] && end[3] == flag[4]
            && end[4] == flag[5]);
        assert(rest[n - 6] == flag[0]);
        crate::text::lemma_last_position_is(rest, ':', n - 6);
        crate::spelling_laws::law_same_ignoring_ascii_case(end, "no_pp"@);
    }
}

/// The two sides of the first colon.
proof fn lemma_first_colon(source: Seq<char>, rest: Seq<char>)
    requires
        !source.contains(':'),
    ensures
        ({
            let text = source + seq![':'] + rest;
            &&& crate::text::position(text, ':') == source.len()
            &&& text.take(source.len() as int) == source
            &&& text.skip(source.len() as int + 1) == rest
            &&& text.len() > source.len()
        }),
{
    let text = source + seq![':'] + rest;
    let n: int = source.len() as int;
    assert(text.take(n) =~= source);
    assert(text.skip(n + 1) =~= rest);
    assert forall|i: int| 0 <= i < n implies #[trigger] text.take(n)[i] != ':' by {
        assert(text.take(n)[i] == source[i]);
        assert(source.contains(source[i]));
    }
    crate::text::lemma_position_is(text, ':', n);
}

/// Whether `text` spells `rule`: a source port, a colon, the destination and the flag, where
/// there is one. White space may stand around the source port and around the destination.
pub open spec fn rule_spelling(
    text: Seq<char>,
    rule: Rule,
    source: Seq<char>,
    dest: Seq<char>,
    flag: Seq<char>,
) -> bool {
    &&& text == source + seq![':'] + (dest + flag)
    &&& crate::port_mapping::source_port_of(crate::text::trim(source)) == Some(rule.source_port)
    &&& rule.source_port != 0
    &&& crate::address_text::address_of(crate::text::trim(dest)) == Some(rule.dest)
    &&& match rule.dest {
        Address::V4 { port, .. } => port != 0,
        Address::V6 { port, .. } => port != 0,
    }
    &&& rule.proxy_protocol ==> flag.len() == 0
    &&& !rule.proxy_protocol ==> is_no_pp(flag)
}

/// A source port holds no colon, whatever white space stands around it.
proof fn lemma_source_has_no_colon(source: Seq<char>)
    requires
        crate::port_mapping::source_port_of(crate::text::trim(source)) is Some,
    ensures
        !source.contains(':'),
        crate::text::trim(source).len() > 0,
{
    let t = crate::text::trim(source);
    let (before, after) = crate::text_laws::lemma_trim_parts(source);
    assert forall|i: int| 0 <= i < source.len() implies source[i] != ':' by {
        if i < before.len() {
            assert(source[i] == before[i]);
        } else if i < before.len() + t.len() {
            let j: int = i - before.len();
            assert(source[i] == t[j]);
            if t[0] == '+' {
                if j > 0 {
                    assert(crate::text::digit_of(t.skip(1)[j - 1]) is Some);
                }
            } else {
                assert(crate::text::digit_of(t[j]) is Some);
            }
        } else {
            assert(source[i] == after[i - before.len() - t.len()]);
        }
    }
}

/// What is read as an address ends in a digit.
proof fn lemma_address_ends_in_digit(text: Seq<char>)
    requires
        crate::address_text::address_of(text) is Some,
    ensures
        text.len() > 0,
        '0' <= text.last() <= '9',
{
    match crate::address_text::address_v4_of(text) {
        Some(_) => {
            crate::text::lemma_position(text, ':');
            let digits = text.skip(crate::text::position(text, ':') + 1);
            assert(crate::text::digit_of(digits[digits.len() - 1]) is Some);
            assert(digits[digits.len() - 1] == text.last());
        },
        None => {
            crate::text::lemma_position(text, ']');
            let digits = text.skip(crate::text::position(text, ']') + 2);
            assert(crate::text::digit_of(digits[digits.len() - 1]) is Some);
            assert(digits[digits.len() - 1] == text.last());
        },
    }
}

/// A destination does not end in the flag.
proof fn lemma_dest_has_no_flag(dest: Seq<char>)
    requires
        crate::address_text::address_of(crate::text::trim(dest)) is Some,
    ensures
        !crate::port_mapping::has_no_pp(dest),
{
    let t = crate::text::trim(dest);
    let (before, after) = crate::text_laws::lemma_trim_parts(dest);
    lemma_address_ends_in_digit(t);
    law_no_pp_is_a_suffix(dest);
    if crate::port_mapping::has_no_pp(dest) {
        let n: int = dest.len() as int;
        assert(dest.skip(n - 6)[5] == dest[n - 1]);
        if after.len() > 0 {
            assert(dest[n - 1] == after[after.len() - 1]);
        } else {
            assert(dest[n - 1] == t.last());
        }
    }
}

/// A text is read as a rule exactly where it spells that rule.
#[verifier::rlimit(40)]
pub proof fn law_rule_spellings(text: Seq<char>, rule: Rule)
    ensures
        crate::port_mapping::rule_of(text) == Ok::<Rule, Seq<char>>(rule) <==> exists|
            source: Seq<char>,
            dest: Seq<char>,
            flag: Seq<char>,
        |
            rule_spelling(text, rule, source, dest, flag),
{
    if crate::port_mapping::rule_of(text) == Ok::<Rule, Seq<char>>(rule) {
        crate::text::lemma_position(text, ':');
        let colon: int = crate::text::position(text, ':');
        let source = text.take(colon);
        let rest = text.skip(colon + 1);
        law_no_pp_is_a_suffix(rest);
        let dest = crate::port_mapping::without_no_pp(rest);
        let flag = rest.skip(dest.len() as int);
        assert(rest =~= dest + flag);
        assert(text =~= source + seq![':'] + rest);
        assert(rule_spelling(text, rule, source, dest, flag));
    }
    if exists|source: Seq<char>, dest: Seq<char>, flag: Seq<char>|
        rule_spelling(text, rule, source, dest, flag) {
        let (source, dest, flag) = choose|source: Seq<char>, dest: Seq<char>, flag: Seq<char>|
            rule_spelling(text, rule, source, dest, flag);
        let rest = dest + flag;
        lemma_source_has_no_colon(source);
        lemma_first_colon(source, rest);
        law_no_pp_is_a_suffix(rest);
        if rule.proxy_protocol {
            assert(rest =~= dest);
            lemma_dest_has_no_flag(dest);
        } else {
            assert(rest.skip(rest.len() - 6) =~= flag);
            assert(rest.take(rest.len() - 6) =~= dest);
        }
    }
}

/// A rule whose source port is written in plain digits is for the port of that number.
pub proof fn law_source_port_is_the_number_in_front(digits: Seq<char>, rest: Seq<char>)
    requires
        digits.len() > 0,
        forall|i: int| 0 <= i < digits.len() ==> '0' <= #[trigger] digits[i] <= '9',
        crate::port_mapping::rule_of(digits + seq![':'] + rest) is Ok,
    ensures
        crate::port_mapping::rule_of(digits + seq![':'] + rest)->Ok_0.source_port as nat
            == crate::text::value_of(digits, 10),
{
    lemma_first_colon(digits, rest);
    assert(!crate::text::is_white_space(digits[0]));
    assert(!crate::text::is_white_space(digits[digits.len() - 1]));
    crate::text::lemma_trim_keeps(digits);
}

/// One digit more in front of the colon gives the rule for ten times the port and that digit,
/// and no rule where there is no such port.
#[verifier::rlimit(40)]
pub proof fn law_source_port_grows_by_digits(digits: Seq<char>, c: char, rest: Seq<char>)
    requires
        forall|i: int| 0 <= i < digits.len() ==> '0' <= #[trigger] digits[i] <= '9',
        '0' <= c <= '9',
        crate::port_mapping::rule_of(digits + seq![':'] + rest) is Ok,
    ensures
        ({
            let rule = crate::port_mapping::rule_of(digits + seq![':'] + rest)->Ok_0;
            let next: int = 10 * rule.source_port + (c as int - '0' as int);
            let longer = crate::port_mapping::rule_of(digits.push(c) + seq![':'] + rest);
            if next <= 65535 {
                longer == Ok::<Rule, Seq<char>>(Rule { source_port: next as u16, ..rule })
            } else {
                longer is Err
            }
        }),
{
    lemma_first_colon(digits, rest);
    let longer = digits.push(c);
    assert forall|i: int| 0 <= i < longer.len() implies '0' <= #[trigger] longer[i] <= '9' by {
        if i < digits.len() {
            assert(longer[i] == digits[i]);
        }
    }
    lemma_first_colon(longer, rest);
    if digits.len() == 0 {
        crate::text::lemma_trim_keeps(digits);
    }
    assert(!crate::text::is_white_space(digits[0]));
    assert(!crate::text::is_white_space(digits[digits.len() - 1]));
    crate::text::lemma_trim_keeps(digits);
    assert(longer[0] == digits[0]);
    crate::text::lemma_trim_keeps(longer);
    crate::text_laws::law_decimal_digit_counts(digits, c);
    assert forall|i: int| 0 <= i < longer.len() implies (#[trigger] crate::text::digit_of(
        longer[i],
    ) matches Some(d) && d < 10) by {
        assert('0' <= longer[i] <= '9');
    }
}

/// The source port of a rule depends on what stands in front of the first colon alone, and the
/// destination and the flag on what stands behind it.
pub proof fn law_source_and_destination_are_apart(
    source: Seq<char>,
    rest: Seq<char>,
    other_source: Seq<char>,
    other_rest: Seq<char>,
)
    requires
        !source.contains(':'),
        !other_source.contains(':'),
        crate::port_mapping::rule_of(source + seq![':'] + rest) is Ok,
        crate::port_mapping::rule_of(other_source + seq![':'] + other_rest) is Ok,
    ensures
        ({
            let one = crate::port_mapping::rule_of(source + seq![':'] + rest)->Ok_0;
            let other = crate::port_mapping::rule_of(
                other_source + seq![':'] + other_rest,
            )->Ok_0;
            crate::port_mapping::rule_of(source + seq![':'] + other_rest) == Ok::<Rule, Seq<char>>(
                Rule { source_port: one.source_port, ..other },
            )
        }),
{
    lemma_first_colon(source, rest);
    lemma_first_colon(other_source, other_rest);
    lemma_first_colon(source, other_rest);
}

/// The text of a rule is the decimal digits of its source port, a colon and its destination,
/// and `:no_pp` behind that where the header is stripped.
pub proof fn law_rule_text(rule: Rule)
    ensures
        rule.proxy_protocol ==> crate::port_mapping::rule_text(rule) == crate::text::decimal(
            rule.source_port as nat,
        ) + seq![':'] + crate::address_text::address_text(rule.dest),
        !rule.proxy_protocol ==> crate::port_mapping::rule_text(rule)
            == crate::port_mapping::rule_text(Rule { proxy_protocol: true, ..rule }) + seq![
            ':',
            'n',
            'o',
            '_',
            'p',
            'p',
        ],
{
    reveal_strlit(":");
    reveal_strlit(":no_pp");
    let front = crate::text::decimal(rule.source_port as nat) + ":"@
        + crate::address_text::address_text(rule.dest);
    assert(":"@ =~= seq![':']);
    assert(":no_pp"@ =~= seq![':', 'n', 'o', '_', 'p', 'p']);
    assert(front + Seq::empty() =~= front);
}

/// The characters in front of the first colon of the text of a rule are decimal digits, which
/// write its source port.
pub proof fn law_rule_text_starts_with_its_port(rule: Rule)
    ensures
        ({
            let text = crate::port_mapping::rule_text(rule);
            exists|colon: int| #![trigger text.take(colon)]
                {
                    &&& 0 < colon < text.len()
                    &&& text[colon] == ':'
                    &&& forall|i: int| 0 <= i < colon ==> '0' <= #[trigger] text[i] <= '9'
                    &&& crate::text::value_of(text.take(colon), 10) == rule.source_port
                }
        }),
{
    reveal_strlit(":");
    let digits = crate::text::decimal(rule.source_port as nat);
    let text = crate::port_mapping::rule_text(rule);
    crate::text::lemma_numeral(rule.source_port as nat, 10);
    let colon: int = digits.len() as int;
    assert(text.take(colon) =~= digits);
    assert forall|i: int| 0 <= i < colon implies '0' <= #[trigger] text[i] <= '9' by {
        assert(text[i] == digits[i]);
        assert(crate::text::digit_of(digits[i]) is Some);
    }
}

// ---------------------------------------------------------------------------
// Refusals
// ---------------------------------------------------------------------------
/// Without a colon there is no destination.
pub proof fn law_missing_destination(text: Seq<char>)
    requires
        !text.contains(':'),
    ensures
        crate::port_mapping::rule_of(text) == Err::<Rule, Seq<char>>("missing destination address"@),
{
    crate::text::lemma_position(text, ':');
}

/// With nothing but white space in front of the first colon there is no source port.
pub proof fn law_missing_source(source: Seq<char>, rest: Seq<char>)
    requires
        blank(source),
        !source.contains(':'),
    ensures
        crate::port_mapping::rule_of(source + seq![':'] + rest) == Err::<Rule, Seq<char>>(
            "missing source port"@,
        ),
{
    lemma_first_colon(source, rest);
    let none = Seq::<char>::empty();
    assert(source =~= source + none + none);
    crate::text_laws::lemma_trim_is(source, none, none);
}

/// What stands in front of the first colon, without the white space around it, has to be a
/// source port, and not zero; the reason quotes what is none.
pub proof fn law_invalid_source(before: Seq<char>, source: Seq<char>, after: Seq<char>, rest: Seq<char>)
    requires
        blank(before),
        blank(after),
        source.len() > 0,
        !source.contains(':'),
        !crate::text::is_white_space(source[0]),
        !crate::text::is_white_space(source[source.len() - 1]),
    ensures
        ({
            let text = before + source + after + seq![':'] + rest;
            match crate::port_mapping::source_port_of(source) {
                None => crate::port_mapping::rule_of(text) == Err::<Rule, Seq<char>>(
                    "invalid source port `"@ + source + "` (must be 1-65535)"@,
                ),
                Some(port) => port == 0 ==> crate::port_mapping::rule_of(text) == Err::<
                    Rule,
                    Seq<char>,
                >("source port must not be 0"@),
            }
        }),
{
    let front = before + source + after;
    assert forall|i: int| 0 <= i < front.len() implies front[i] != ':' by {
        if i < before.len() {
            assert(front[i] == before[i]);
        } else if i < before.len() + source.len() {
            assert(front[i] == source[i - before.len()]);
            assert(source.contains(source[i - before.len()]));
        } else {
            assert(front[i] == after[i - before.len() - source.len()]);
        }
    }
    lemma_first_colon(front, rest);
    crate::text_laws::lemma_trim_is(before, source, after);
}

/// Behind the first colon, and in front of the flag where there is one, there has to be an
/// address, whose port is not zero; the reason quotes what is none.
pub proof fn law_invalid_destination(source: Seq<char>, dest: Seq<char>, flag: Seq<char>)
    requires
        crate::port_mapping::source_port_of(crate::text::trim(source)) is Some,
        crate::port_mapping::source_port_of(crate::text::trim(source)) != Some(0u16),
        is_no_pp(flag) || flag.len() == 0 && !(dest.len() >= 6 && is_no_pp(
            dest.skip(dest.len() - 6),
        )),
    ensures
        ({
            let text = source + seq![':'] + (dest + flag);
            let refused = Err::<Rule, Seq<char>>("destination port must not be 0"@);
            match crate::address_text::address_of(crate::text::trim(dest)) {
                None => crate::port_mapping::rule_of(text) == Err::<Rule, Seq<char>>(
                    "invalid destination address `"@ + dest
                        + "` (IPv6 must be bracketed, e.g. [::1]:8443)"@,
                ),
                Some(Address::V4 { port, .. }) => port == 0 ==> crate::port_mapping::rule_of(text)
                    == refused,
                Some(Address::V6 { port, .. }) => port == 0 ==> crate::port_mapping::rule_of(text)
                    == refused,
            }
        }),
{
    let rest = dest + flag;
    lemma_source_has_no_colon(source);
    lemma_first_colon(source, rest);
    law_no_pp_is_a_suffix(rest);
    if is_no_pp(flag) {
        assert(rest.skip(rest.len() - 6) =~= flag);
        assert(rest.take(rest.len() - 6) =~= dest);
    } else {
        assert(rest =~= dest);
    }
}

/// A rule denotes its own fields, each as it is.
pub proof fn law_mapping_denotes_its_fields(mapping: PortMapping)
    ensures
        mapping@.source_port == mapping.source_port,
        mapping@.dest == mapping.dest_addr@,
        mapping@.proxy_protocol == mapping.proxy_protocol,
{
}

} // verus!
