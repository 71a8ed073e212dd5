# sock-it-forward

Public to private TCP socket forwarding, with [iroh](https://www.iroh.computer/) moving the
bytes securely between the two hosts.

The public side listens on public addresses. For every connection that it accepts it opens a
stream to the private side, and puts a PROXY protocol header in front. The private side reads
that header and connects to the upstream that a rule names for the port:

```
443:10.0.0.5:8443          IPv4 upstream, header forwarded
443:10.0.0.5:8443:no_pp    IPv4 upstream, header stripped
443:[2001:db8::5]:8443     IPv6 upstream
443:[::1]:8443:no_pp       IPv6 upstream, header stripped
```

An upstream is an address and a port; host names are not resolved.

## Layout

- `src/` is the library, verified with [Verus](https://github.com/verus-lang/verus). It holds
  what the program decides and computes, each function with its contract:
  - `port_mapping`: the rules and their grammar; `socket_addr`, `address_text` and `text`: the
    addresses in them;
  - `public_side`: the header, and what becomes of a connection and of a private side that
    knocks; `listener`: the sockets;
  - `private_side`: reading the header, routing, keeping the link up;
  - `keys`: keys and the key file; `error`: the error of reading a stream;
  - `rule_laws`, `address_laws`, `forwarding_laws`: what holds of these together.
- `app/` is the program: arguments, files, sockets and the iroh endpoint.
- `tests/` runs the library.

## What is trusted

Four calls into other crates and one into the standard library have contracts that are not
proved: `proxy_protocol::encode`, `num_cpus::get`, the generation of an `iroh` secret key and
the derivation of its public key, and `String::push`.
