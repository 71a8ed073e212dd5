use sock_it_forward::port_mapping::PortMapping;
use sock_it_forward::socket_addr::{
    Ipv4Addr, Ipv6Addr, SocketAddr, SocketAddrV4, SocketAddrV6,
};

fn v4(a: u8, b: u8, c: u8, d: u8, port: u16) -> SocketAddr {
    SocketAddr::V4(SocketAddrV4 {
        ip: Ipv4Addr::new(a, b, c, d),
        port,
    })
}

fn v6(segments: [u16; 8], port: u16) -> SocketAddr {
    SocketAddr::V6(SocketAddrV6 {
        ip: Ipv6Addr { segments },
        port,
        flowinfo: 0,
        scope_id: 0,
    })
}

fn reason(text: &str) -> String {
    text.parse::<PortMapping>().unwrap_err().to_string()
}

const EXPECTED: &str = " (expected <source_port>:<dest_addr>[:no_pp], e.g. 443:10.0.0.5:8443 or 443:[::1]:8443:no_pp)";

#[test]
fn parses_ipv4_dest() {
    let m: PortMapping = "443:10.0.0.5:8443".parse().unwrap();
    assert_eq!(m.source_port, 443);
    assert_eq!(m.dest_addr, v4(10, 0, 0, 5, 8443));
    assert!(m.proxy_protocol);
}

#[test]
fn parses_ipv4_dest_no_pp() {
    let m: PortMapping = "443:10.0.0.5:8443:no_pp".parse().unwrap();
    assert!(!m.proxy_protocol);
    let m: PortMapping = "443:10.0.0.5:8443:NO_PP".parse().unwrap();
    assert!(!m.proxy_protocol);
}

#[test]
fn parses_ipv6_dest() {
    let m: PortMapping = "443:[2001:db8::5]:8443".parse().unwrap();
    assert_eq!(
        m.dest_addr,
        v6([0x2001, 0xdb8, 0, 0, 0, 0, 0, 5], 8443)
    );
    assert!(m.proxy_protocol);

    let m: PortMapping = "443:[::1]:8443:no_pp".parse().unwrap();
    assert_eq!(m.dest_addr, v6([0, 0, 0, 0, 0, 0, 0, 1], 8443));
    assert!(!m.proxy_protocol);
}

#[test]
fn rejects_bad_input() {
    assert!("443".parse::<PortMapping>().is_err()); // no dest
    assert!(":10.0.0.5:8443".parse::<PortMapping>().is_err()); // empty source
    assert!("0:10.0.0.5:8443".parse::<PortMapping>().is_err()); // source port 0
    assert!("443:10.0.0.5:0".parse::<PortMapping>().is_err()); // dest port 0
    assert!("70000:10.0.0.5:80".parse::<PortMapping>().is_err()); // src out of range
    assert!("443:10.0.0.5".parse::<PortMapping>().is_err()); // dest missing port
    assert!("443:2001:db8::5:8443".parse::<PortMapping>().is_err()); // unbracketed v6
    assert!("443:example.com:8443".parse::<PortMapping>().is_err()); // hostname
    assert!("443:10.0.0.5:8443:nope".parse::<PortMapping>().is_err()); // unknown flag
}

#[test]
fn no_pp_not_confused_with_dest() {
    // A dest that merely *ends* in text should fail as an address, not be
    // silently treated as a flag.
    assert!("443:10.0.0.5:no_pp".parse::<PortMapping>().is_err());
}

#[test]
fn display_test() {
    for s in [
        "443:10.0.0.5:8443",
        "80:10.0.0.5:8080:no_pp",
        "443:[2001:db8::5]:8443",
        "80:[::1]:8080:no_pp",
    ] {
        let m: PortMapping = s.parse().unwrap();
        assert_eq!(m.to_string(), s);
    }
}

#[test]
fn every_reason_is_given() {
    assert_eq!(reason("443"), format!("missing destination address{EXPECTED}"));
    assert_eq!(reason(""), format!("missing destination address{EXPECTED}"));
    assert_eq!(reason(":10.0.0.5:8443"), format!("missing source port{EXPECTED}"));
    assert_eq!(reason(" \u{3000}\t:1.2.3.4:5"), format!("missing source port{EXPECTED}"));
    assert_eq!(
        reason(" 70000 :10.0.0.5:80"),
        format!("invalid source port `70000` (must be 1-65535){EXPECTED}")
    );
    assert_eq!(
        reason("-1:10.0.0.5:80"),
        format!("invalid source port `-1` (must be 1-65535){EXPECTED}")
    );
    assert_eq!(
        reason("+:10.0.0.5:80"),
        format!("invalid source port `+` (must be 1-65535){EXPECTED}")
    );
    assert_eq!(reason("000:10.0.0.5:80"), format!("source port must not be 0{EXPECTED}"));
    assert_eq!(
        reason("443: 10.0.0.5 :no_pp"),
        format!("invalid destination address ` 10.0.0.5 ` (IPv6 must be bracketed, e.g. [::1]:8443){EXPECTED}")
    );
    assert_eq!(
        reason("443:10.0.0.5:8443:no_pp:no_pp"),
        format!("invalid destination address `10.0.0.5:8443:no_pp` (IPv6 must be bracketed, e.g. [::1]:8443){EXPECTED}")
    );
    assert_eq!(
        reason("443:10.0.0.5:0:no_pp"),
        format!("destination port must not be 0{EXPECTED}")
    );
}

#[test]
fn ends_may_be_padded() {
    let m: PortMapping = "\u{a0} +0443 : 10.0.0.5:008443\n:No_Pp".parse().unwrap();
    assert_eq!(m.source_port, 443);
    assert_eq!(m.dest_addr, v4(10, 0, 0, 5, 8443));
    assert!(!m.proxy_protocol);
    // The flag itself is not trimmed.
    assert!("443:10.0.0.5:8443:no_pp ".parse::<PortMapping>().is_err());
}

#[test]
fn source_ports_read_as_integers_do() {
    for text in [
        "1", "65535", "65536", "+1", "++1", "-1", "1_0", "00001", "0x1", "1.0", "1 1", "+",
        "99999999999999999999", "\u{663}",
    ] {
        let whole = format!("{text}:10.0.0.5:80");
        let read = whole.parse::<PortMapping>().ok().map(|m| m.source_port);
        assert_eq!(read, text.parse::<u16>().ok(), "{text}");
    }
}

#[test]
fn rules_survive_rewriting() {
    for text in [
        " 443 :10.0.0.5:08443:NO_PP",
        "1:[0:0:0:0:0:0:0:0]:1",
        "65535:[::ffff:1.2.3.4]:65535:no_pp",
        "7:[FE80::1%9]:80",
        "7:[1:0:0:2:0:0:0:3]:80",
    ] {
        let m: PortMapping = text.parse().unwrap();
        let again: PortMapping = m.to_string().parse().unwrap();
        assert_eq!(m, again);
    }
    let m: PortMapping = "7:[FE80::1%9]:80".parse().unwrap();
    assert_eq!(m.to_string(), "7:[fe80::1%9]:80");
}

#[test]
fn no_pp_suffix_strips_the_header() {
    let plain: PortMapping = "80:[::1]:8080".parse().unwrap();
    let stripped: PortMapping = "80:[::1]:8080:no_pp".parse().unwrap();
    assert_eq!(
        stripped,
        PortMapping {
            proxy_protocol: false,
            ..plain
        }
    );
}
