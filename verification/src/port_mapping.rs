//! Forwarding rules and their text form.
use vstd::prelude::*;

use crate::socket_addr::{Address, SocketAddr};
use crate::text::{characters, eq_ignore_ascii_case, find, number, push_characters, push_number};
use crate::text::{rfind, trimmed};

verus! {

/// A single forwarding rule: `<source_port>:<dest_addr>[:no_pp]`
///
/// The destination is a full socket address, so IPv6 must be bracketed:
///   `443:10.0.0.5:8443`          IPv4 dest, PP forwarded
///   `443:10.0.0.5:8443:no_pp`    IPv4 dest, PP stripped
///   `443:[2001:db8::5]:8443`     IPv6 dest
///   `443:[::1]:8443:no_pp`       IPv6 dest, PP stripped
#[derive(Debug, Clone, Copy, PartialEq, Eq)]
pub struct PortMapping {
    pub source_port: u16,
    pub dest_addr: SocketAddr,
    /// Whether to forward the PROXY protocol header to the backend.
    /// `false` when the `no_pp` suffix is present.
    pub proxy_protocol: bool,
}

/// What a [`PortMapping`] denotes.
pub struct Rule {
    pub source_port: u16,
    pub dest: Address,
    pub proxy_protocol: bool,
}

impl View for PortMapping {
    type V = Rule;

    open spec fn view(&self) -> Rule {
        Rule {
            source_port: self.source_port,
            dest: self.dest_addr@,
            proxy_protocol: self.proxy_protocol,
        }
    }
}

impl Rule {
    /// A rule that some text can write: both ports count from one.
    pub open spec fn writable(self) -> bool {
        &&& self.source_port != 0
        &&& self.dest.port() != 0
        &&& self.dest.well_formed()
    }

    /// The rule with the flow label of its destination dropped.
    pub open spec fn without_flow(self) -> Rule {
        Rule { dest: self.dest.without_flow(), ..self }
    }
}

/// Why a text is no rule.
#[derive(Debug, Clone, PartialEq, Eq)]
pub struct PortMappingParseError(String);

impl View for PortMappingParseError {
    type V = Seq<char>;

    /// The reason, in words.
    closed spec fn view(&self) -> Seq<char> {
        self.0@
    }
}

impl PortMappingParseError {
    /// The reason, and the form that was expected.
    pub fn to_string(&self) -> (r: String)
        ensures
            r@ == self@
                + " (expected <source_port>:<dest_addr>[:no_pp], e.g. 443:10.0.0.5:8443 or 443:[::1]:8443:no_pp)"@,
    {
        let mut out: String = self.0.clone();
        out.append(
            " (expected <source_port>:<dest_addr>[:no_pp], e.g. 443:10.0.0.5:8443 or 443:[::1]:8443:no_pp)",
        );
        out
    }
}

// ---------------------------------------------------------------------------
// Grammar
// ---------------------------------------------------------------------------
/// The source port: decimal digits, at most 65535, perhaps with a `+` in front.
pub open spec fn source_port_of(text: Seq<char>) -> Option<u16> {
    let digits = if text.len() > 0 && text[0] == '+' {
        text.skip(1)
    } else {
        text
    };
    match crate::text::number_of(digits, 10, 0xffff) {
        Some(n) => Some(n as u16),
        None => None,
    }
}

/// Whether `rest` ends in the flag that strips the header: `:no_pp`, in any case.
pub open spec fn has_no_pp(rest: Seq<char>) -> bool {
    let colon: int = crate::text::last_position(rest, ':');
    colon >= 0 && crate::text::same_ignoring_ascii_case(rest.skip(colon + 1), "no_pp"@)
}

/// `rest` without that flag.
pub open spec fn without_no_pp(rest: Seq<char>) -> Seq<char> {
    if has_no_pp(rest) {
        rest.take(crate::text::last_position(rest, ':'))
    } else {
        rest
    }
}

/// The rule that `text` writes, or the reason why it writes none.
pub open spec fn rule_of(text: Seq<char>) -> Result<Rule, Seq<char>> {
    let colon: int = crate::text::position(text, ':');
    let source = crate::text::trim(text.take(colon));
    let rest = text.skip(colon + 1);
    let dest = without_no_pp(rest);
    if colon >= text.len() {
        Err("missing destination address"@)
    } else if source.len() == 0 {
        Err("missing source port"@)
    } else {
        match source_port_of(source) {
            None => Err("invalid source port `"@ + source + "` (must be 1-65535)"@),
            Some(source_port) => if source_port == 0 {
                Err("source port must not be 0"@)
            } else {
                match crate::address_text::address_of(crate::text::trim(dest)) {
                    None => Err(
                        "invalid destination address `"@ + dest
                            + "` (IPv6 must be bracketed, e.g. [::1]:8443)"@,
                    ),
                    Some(address) => if address.port() == 0 {
                        Err("destination port must not be 0"@)
                    } else {
                        Ok(
                            Rule {
                                source_port,
                                dest: address,
                                proxy_protocol: !has_no_pp(rest),
                            },
                        )
                    },
                }
            },
        }
    }
}

/// The text that stands for `rule`.
pub open spec fn rule_text(rule: Rule) -> Seq<char> {
    crate::text::decimal(rule.source_port as nat) + ":"@ + crate::address_text::address_text(
        rule.dest,
    ) + (if rule.proxy_protocol {
        Seq::empty()
    } else {
        ":no_pp"@
    })
}

// ---------------------------------------------------------------------------
// Reader and writer
// ---------------------------------------------------------------------------
/// The reason `before` + `quoted` + `after`.
fn quoting(before: &str, quoted: &[char], after: &str) -> (r: PortMappingParseError)
    ensures
        r@ == before@ + quoted@ + after@,
{
    let mut reason: String = before.to_owned();
    push_characters(&mut reason, quoted);
    reason.append(after);
    PortMappingParseError(reason)
}

/// Reads a source port.
fn read_source_port(text: &[char]) -> (r: Option<u16>)
    ensures
        r == source_port_of(text@),
{
    let from: usize = if text.len() > 0 && text[0] == '+' {
        1
    } else {
        0
    };
    let digits: &[char] = vstd::slice::slice_subrange(text, from, text.len());
    assert(digits@ =~= text@.skip(from as int));
    assert(text@.skip(0) =~= text@);
    match number(digits, 10, 0xffff) {
        Some(n) => Some(n as u16),
        None => None,
    }
}

/// Splits the flag off, and says whether it was absent.
fn split_no_pp(rest: &[char]) -> (r: (&[char], bool))
    ensures
        r.0@ == without_no_pp(rest@),
        r.1 == !has_no_pp(rest@),
{
    if let Some(colon) = rfind(rest, ':') {
        let flag: Vec<char> = characters("no_pp");
        let tail: &[char] = vstd::slice::slice_subrange(rest, colon + 1, rest.len());
        assert(tail@ =~= rest@.skip(colon + 1));
        if eq_ignore_ascii_case(tail, flag.as_slice()) {
            let head: &[char] = vstd::slice::slice_subrange(rest, 0, colon);
            assert(head@ =~= rest@.take(colon as int));
            return (head, false);
        }
    }
    (rest, true)
}

impl std::str::FromStr for PortMapping {
    type Err = PortMappingParseError;

    /// Reads the rule that `s` writes.
    fn from_str(s: &str) -> (r: Result<PortMapping, PortMappingParseError>)
        ensures
            match r {
                Ok(mapping) => rule_of(s@) == Ok::<Rule, Seq<char>>(mapping@),
                Err(error) => rule_of(s@) == Err::<Rule, Seq<char>>(error@),
            },
            r matches Ok(mapping) ==> {
                &&& rule_of(s@) matches Ok(rule)
                &&& mapping.source_port == rule.source_port
                &&& mapping.dest_addr@ == rule.dest
                &&& mapping.proxy_protocol == rule.proxy_protocol
            },
    {
        let text: Vec<char> = characters(s);
        // Everything behind the first colon may hold colons of its own.
        let colon: usize = find(text.as_slice(), ':');
        if colon >= text.len() {
            return Err(PortMappingParseError("missing destination address".to_owned()));
        }
        let front: &[char] = vstd::slice::slice_subrange(text.as_slice(), 0, colon);
        let rest: &[char] = vstd::slice::slice_subrange(text.as_slice(), colon + 1, text.len());
        assert(front@ =~= s@.take(colon as int));
        assert(rest@ =~= s@.skip(colon + 1));
        let source: &[char] = trimmed(front);
        if source.len() == 0 {
            return Err(PortMappingParseError("missing source port".to_owned()));
        }
        let source_port: u16 = match read_source_port(source) {
            Some(port) => port,
            None => return Err(quoting("invalid source port `", source, "` (must be 1-65535)")),
        };
        if source_port == 0 {
            return Err(PortMappingParseError("source port must not be 0".to_owned()));
        }
        let (dest, proxy_protocol) = split_no_pp(rest);
        let dest_addr: SocketAddr = match SocketAddr::read(trimmed(dest)) {
            Some(addr) => addr,
            None => return Err(
                quoting(
                    "invalid destination address `",
                    dest,
                    "` (IPv6 must be bracketed, e.g. [::1]:8443)",
                ),
            ),
        };
        if dest_addr.port() == 0 {
            return Err(PortMappingParseError("destination port must not be 0".to_owned()));
        }
        Ok(PortMapping { source_port, dest_addr, proxy_protocol })
    }
}

impl PortMapping {
    /// The text of the rule.
    pub fn to_string(&self) -> (r: String)
        ensures
            r@ == rule_text(self@),
    {
        let mut out: String = String::new();
        push_number(&mut out, self.source_port as u32, 10);
        out.append(":");
        let dest: String = self.dest_addr.to_string();
        out.append(dest.as_str());
        if !self.proxy_protocol {
            out.append(":no_pp");
        }
        assert(out@ =~= rule_text(self@));
        out
    }
}

} // verus!
