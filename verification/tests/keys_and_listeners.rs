use sock_it_forward::error::ErrorKind;
use sock_it_forward::keys::{load_secret_key, KeyError, SecretKey};
use sock_it_forward::listener::{Listeners, Round, RoundAction, TcpListener};
use sock_it_forward::socket_addr::SocketAddr;

fn addr(text: &str) -> SocketAddr {
    let chars: Vec<char> = text.chars().collect();
    SocketAddr::read(&chars).unwrap()
}

fn bytes(hex: &str) -> Vec<u8> {
    let mut out = Vec::new();
    let mut i: usize = 0;
    while i < hex.len() {
        out.push(u8::from_str_radix(&hex[i..i + 2], 16).unwrap());
        i += 2;
    }
    out
}

#[test]
fn stored_key_is_loaded_with_its_public_key() {
    // First test vector of RFC 8032, section 7.1.
    let secret = bytes("9d61b19deffd5a60ba844af492ec2cc44449c5697b326919703bac031cae7f60");
    let public = bytes("d75a980182b10ab7d54bfed3c964073a0ee172f3daa62325af021a68f707511a");
    let loaded = load_secret_key(Some(&secret)).ok().unwrap();
    assert_eq!(loaded.secret_key.bytes.to_vec(), secret);
    assert_eq!(loaded.public_key.bytes.to_vec(), public);
    assert!(!loaded.generated);
}

#[test]
fn file_of_another_length_holds_no_key() {
    for n in [0, 31, 33, 64] {
        let contents = vec![1u8; n];
        assert_eq!(load_secret_key(Some(&contents)).err(), Some(KeyError::WrongLength));
        assert!(SecretKey::decode(&contents).is_err());
    }
}

#[test]
fn new_key_loads_back() {
    let first = load_secret_key(None).ok().unwrap();
    assert!(first.generated);
    let second = load_secret_key(Some(&first.secret_key.bytes)).ok().unwrap();
    assert_eq!(second.secret_key.bytes, first.secret_key.bytes);
    assert_eq!(second.public_key, first.public_key);
    assert!(!second.generated);
    // Two new keys are not the same.
    assert!(load_secret_key(None).ok().unwrap().secret_key.bytes != first.secret_key.bytes);
    assert!(SecretKey::generate().public() != first.public_key);
    assert!(first.public_key.same_as(&second.public_key));
    assert!(first.public_key.bytes != first.secret_key.bytes);
}

#[test]
fn listeners_keep_their_order() {
    let results = vec![
        TcpListener::bind(addr("0.0.0.0:443"), Ok::<char, String>('a')),
        TcpListener::bind(addr("[::]:80"), Ok::<char, String>('b')),
    ];
    let listeners = Listeners::new(results).ok().unwrap();
    assert_eq!(listeners.addrs(), [addr("0.0.0.0:443"), addr("[::]:80")]);
    assert_eq!(listeners.listeners[1].listener, 'b');
    let none: Vec<Result<TcpListener<char>, String>> = Vec::new();
    assert!(Listeners::new(none).ok().unwrap().addrs().is_empty());
}

#[test]
fn one_failed_bind_fails_all() {
    let results = vec![
        TcpListener::bind(addr("0.0.0.0:1"), Err::<char, String>("denied".to_string())),
        TcpListener::bind(addr("[::]:80"), Ok::<char, String>('b')),
        TcpListener::bind(addr("0.0.0.0:2"), Err::<char, String>("in use".to_string())),
    ];
    let error = Listeners::new(results).err().unwrap();
    assert_eq!(error.kind, ErrorKind::Other);
    assert_eq!(error.message, "denied\nin use\n");
    // A reason without words is a reason.
    let silent: Vec<Result<TcpListener<char>, String>> = vec![Err(String::new())];
    assert_eq!(Listeners::new(silent).err().unwrap().message, "\n");
}

#[test]
fn accepted_connection_knows_both_ends() {
    let listener = TcpListener {
        addr: addr("10.0.0.5:443"),
        listener: (),
    };
    let accepted: Result<_, u8> = listener.accept(Ok(('s', addr("1.2.3.4:5"))));
    let accepted = accepted.ok().unwrap();
    assert_eq!(accepted.stream, 's');
    assert_eq!(accepted.local_addr, addr("10.0.0.5:443"));
    assert_eq!(accepted.remote_addr, addr("1.2.3.4:5"));
    let failed: Result<_, u8> = listener.accept::<char, u8>(Err(9));
    assert_eq!(failed.err(), Some(9));
}

#[test]
fn rounds_go_on_until_a_connection() {
    let listeners: Listeners<()> = Listeners {
        listeners: Vec::new(),
    };
    let ready: Round<char, u8> = Round::Ready(Ok('c'));
    assert!(matches!(listeners.accept(ready), RoundAction::Return('c')));
    let failed: Round<char, u8> = Round::Ready(Err(1));
    assert!(matches!(listeners.accept(failed), RoundAction::Wait));
    let over: Round<char, u8> = Round::Over;
    assert!(matches!(listeners.accept(over), RoundAction::Restart));
}
