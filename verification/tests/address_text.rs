use proxy_protocol::version2::ProxyAddresses;
use sock_it_forward::socket_addr::{Ipv4Addr, Ipv6Addr, SocketAddr, SocketAddrV4, SocketAddrV6};
use sock_it_forward::text;

/// The address that the library reads, in its own text.
fn read(text: &str) -> Option<String> {
    let chars: Vec<char> = text.chars().collect();
    SocketAddr::read(&chars).map(|addr| addr.to_string())
}

/// The address that the standard library reads, in its own text.
fn standard(text: &str) -> Option<String> {
    if let Ok(source) = text.parse() {
        let both = ProxyAddresses::Ipv4 {
            source,
            destination: source,
        };
        if let ProxyAddresses::Ipv4 { source, .. } = both {
            return Some(source.to_string());
        }
    }
    if let Ok(source) = text.parse() {
        let both = ProxyAddresses::Ipv6 {
            source,
            destination: source,
        };
        if let ProxyAddresses::Ipv6 { source, .. } = both {
            return Some(source.to_string());
        }
    }
    None
}

/// Calls `check` with every text of up to `max` of the given letters.
fn texts(letters: &[&str], max: usize, check: &mut dyn FnMut(&str)) {
    let mut stack: Vec<(String, usize)> = vec![(String::new(), 0)];
    while let Some((text, n)) = stack.pop() {
        check(&text);
        if n < max {
            for letter in letters {
                stack.push((format!("{text}{letter}"), n + 1));
            }
        }
    }
}

#[test]
fn reads_what_the_standard_library_reads_in_brackets() {
    let mut found: usize = 0;
    texts(&["0", "1a", ":", "::", "1.2.3.4"], 6, &mut |inside| {
        let text = format!("[{inside}]:80");
        assert_eq!(read(&text), standard(&text), "{text}");
        found += read(&text).is_some() as usize;
    });
    assert!(found > 100);
}

#[test]
fn reads_full_groups_as_the_standard_library_does() {
    let mut found: usize = 0;
    texts(&["1:", "fFfF:", "::", "0", "255.0.10.1"], 7, &mut |inside| {
        for extra in ["", "2:3:4:5:", "2:3:4:5:6:"] {
            let text = format!("[{extra}{inside}]:80");
            assert_eq!(read(&text), standard(&text), "{text}");
            found += read(&text).is_some() as usize;
        }
    });
    assert!(found > 100);
}

#[test]
fn reads_dotted_addresses_as_the_standard_library_does() {
    let mut found: usize = 0;
    texts(&["0", "25", "5", ".", "1.2."], 7, &mut |host| {
        let text = format!("{host}:8080");
        assert_eq!(read(&text), standard(&text), "{text}");
        found += read(&text).is_some() as usize;
    });
    assert!(found > 100);
}

#[test]
fn reads_ports_and_scopes_as_the_standard_library_does() {
    let mut found: usize = 0;
    texts(&["0", "65535", "4294967295", "%", "]", ":", "["], 5, &mut |rest| {
        for start in ["1.2.3.4", "1.2.3.4:", "[::1", "[::1%", "[::1]:", ""] {
            let text = format!("{start}{rest}");
            assert_eq!(read(&text), standard(&text), "{text}");
            found += read(&text).is_some() as usize;
        }
    });
    assert!(found > 10);
}

#[test]
fn writes_what_the_standard_library_writes() {
    let values: [u16; 4] = [0, 1, 0xffff, 0x0a0b];
    let mut n: usize = 0;
    while n < 65536 {
        let mut segments = [0u16; 8];
        let mut rest = n;
        for segment in segments.iter_mut() {
            *segment = values[rest % 4];
            rest /= 4;
        }
        let full: Vec<String> = segments.iter().map(|s| format!("{s:x}")).collect();
        let text = format!("[{}]:443", full.join(":"));
        let addr = SocketAddr::V6(SocketAddrV6 {
            ip: Ipv6Addr { segments },
            port: 443,
            flowinfo: 0,
            scope_id: 0,
        });
        assert_eq!(Some(addr.to_string()), standard(&text));
        assert_eq!(read(&addr.to_string()), Some(addr.to_string()));
        n += 1;
    }
}

#[test]
fn exact_texts() {
    let v4 = SocketAddr::V4(SocketAddrV4 {
        ip: Ipv4Addr::new(10, 0, 200, 5),
        port: 8443,
    });
    assert_eq!(v4.to_string(), "10.0.200.5:8443");
    assert_eq!(v4.port(), 8443);
    let mut v6 = SocketAddrV6 {
        ip: Ipv6Addr::new(0x2001, 0xdb8, 0, 0, 1, 0, 0, 5),
        port: 1,
        flowinfo: 77,
        scope_id: 0,
    };
    assert_eq!(v6.to_string(), "[2001:db8::1:0:0:5]:1");
    v6.scope_id = 12;
    assert_eq!(SocketAddr::V6(v6).to_string(), "[2001:db8::1:0:0:5%12]:1");
    let mapped = SocketAddrV6 {
        ip: Ipv6Addr::new(0, 0, 0, 0, 0, 0xffff, 0x0102, 0x0304),
        port: 0,
        flowinfo: 0,
        scope_id: 0,
    };
    assert_eq!(mapped.to_string(), "[::ffff:1.2.3.4]:0");
    assert_eq!(SocketAddr::V6(mapped).port(), 0);
}

#[test]
fn only_the_flow_label_is_lost_in_text() {
    let addr = SocketAddrV6 {
        ip: Ipv6Addr::new(0xfe80, 0, 0, 0, 0, 0, 0, 1),
        port: 80,
        flowinfo: 5,
        scope_id: 4,
    };
    let chars: Vec<char> = addr.to_string().chars().collect();
    assert_eq!(
        SocketAddr::read(&chars),
        Some(SocketAddr::V6(SocketAddrV6 {
            flowinfo: 0,
            ..addr
        }))
    );
}

#[test]
fn white_space_is_unicode_white_space() {
    let mut n: u32 = 0;
    while n <= 0x10ffff {
        if let Some(c) = char::from_u32(n) {
            assert_eq!(text::white_space(c), c.is_whitespace(), "{n:x}");
        }
        n += 1;
    }
}

#[test]
fn letters_compare_without_ascii_case() {
    let a: Vec<char> = "No_PP".chars().collect();
    let b: Vec<char> = "nO_pp".chars().collect();
    let c: Vec<char> = "no-pp".chars().collect();
    assert!(text::eq_ignore_ascii_case(&a, &b));
    assert!(!text::eq_ignore_ascii_case(&a, &c));
    assert!(!text::eq_ignore_ascii_case(&['\u{e9}'], &['\u{c9}']));
    assert!(!text::eq_ignore_ascii_case(&a, &a[1..]));
}

#[test]
fn numbers_in_both_bases() {
    let digits: Vec<char> = "00fF".chars().collect();
    assert_eq!(text::number(&digits, 16, 0xffff), Some(255));
    assert_eq!(text::number(&digits, 16, 254), None);
    assert_eq!(text::number(&digits, 10, 0xffff), None);
    assert_eq!(text::number(&[], 10, 9), None);
    let mut out = String::from("x");
    text::push_number(&mut out, 0, 10);
    text::push_number(&mut out, 65535, 16);
    text::push_number(&mut out, 4294967295, 10);
    assert_eq!(out, "x0ffff4294967295");
}

#[test]
fn pieces_and_ends() {
    let chars: Vec<char> = ":a::b".chars().collect();
    let parts: Vec<String> = text::pieces(&chars, ':')
        .iter()
        .map(|p| p.iter().collect())
        .collect();
    assert_eq!(parts, ["", "a", "", "b"]);
    assert_eq!(text::find(&chars, ':'), 0);
    assert_eq!(text::find(&chars, 'z'), 5);
    assert_eq!(text::rfind(&chars, ':'), Some(3));
    assert_eq!(text::rfind(&chars, 'z'), None);
    let padded: Vec<char> = "\t a b\u{2003}".chars().collect();
    assert_eq!(text::trimmed(&padded), ['a', ' ', 'b']);
    assert!(text::trimmed(&[' ', ' ']).is_empty());
    assert_eq!(text::characters("\u{e9}x"), ['\u{e9}', 'x']);
}
