use cluster_client::addr::{check_ip_port, check_node_addr, classify_dial_addr, str_eq, DialTarget};
use cluster_client::connector::Addr;

#[test]
fn unix_prefixed_address_routes_to_unix_dial() {
    let t = classify_dial_addr("unix:/tmp/x.sock").unwrap();
    assert_eq!(t, DialTarget::Unix("/tmp/x.sock".to_string()));
}

#[test]
fn ip_port_address_routes_to_tcp_dial() {
    let t = classify_dial_addr("127.0.0.1:9001").unwrap();
    assert_eq!(t, DialTarget::Tcp("127.0.0.1:9001".to_string()));
}

#[test]
fn invalid_address_is_rejected_before_any_socket_call() {
    assert!(classify_dial_addr("not-an-address").is_err());
    assert!(classify_dial_addr("").is_err());
    assert!(classify_dial_addr("/tmp/x.sock").is_err());
}

#[test]
fn ip_port_grammar_accepts_and_rejects() {
    for good in [
        "0.0.0.0:0",
        "255.255.255.255:65535",
        "10.0.0.7:80",
        "127.0.0.1:000080",
        "1.2.3.4:0000000000065535",
    ] {
        assert!(check_ip_port(good), "rejected {:?}", good);
    }
    for bad in [
        "256.0.0.1:80",
        "1.2.3.4:65536",
        "1.2.3.4:0000000000065536",
        "00.1.2.3:80",
        "1.2.3.4",
        "1.2.3.4:",
        ":80",
        "1.2.3.4:80:81",
        "a.b.c.d:80",
    ] {
        assert!(!check_ip_port(bad), "accepted {:?}", bad);
    }
}

#[test]
fn ipv6_port_grammar_accepts_and_rejects() {
    for good in [
        "[::]:0",
        "[::1]:8080",
        "[2001:db8::1]:443",
        "[1:2:3:4:5:6:7:8]:80",
        "[fe80::]:80",
        "[::ab:CD]:9",
        "[1:2:3:4:5:6:7::]:80",
        "[::ffff:10.0.0.1]:9001",
        "[::1.2.3.4]:80",
        "[1:2:3:4:5:6:1.2.3.4]:80",
        "[fe80::1%1]:80",
        "[fe80::1%004294967295]:80",
        "[::%0]:9",
    ] {
        assert!(check_ip_port(good), "rejected {:?}", good);
    }
    for bad in [
        "[]:80",
        "[:::1]:80",
        "[1::2::3]:80",
        "[1:2:3:4:5:6:7]:80",
        "[1:2:3:4:5:6:7:8:9]:80",
        "[12345::]:80",
        "[g::1]:80",
        "[::1]",
        "[::1]:",
        "[::1]:65536",
        "[:1:2]:80",
        "[1:2:]:80",
        "::1:80",
        "[1.2.3.4]:80",
        "[1:2:3:4:5:6:7:1.2.3.4]:80",
        "[::ffff:1.2.3]:80",
        "[::ffff:256.1.1.1]:80",
        "[fe80::1%]:80",
        "[fe80::1%eth0]:80",
        "[fe80::1%4294967296]:80",
        "[%1]:80",
    ] {
        assert!(!check_ip_port(bad), "accepted {:?}", bad);
    }
}

#[test]
fn ipv6_address_routes_to_tcp_dial() {
    let t = classify_dial_addr("[::1]:9001").unwrap();
    assert_eq!(t, DialTarget::Tcp("[::1]:9001".to_string()));
}

#[test]
fn node_addr_grammar_covers_all_forms() {
    assert!(check_node_addr("10.0.0.7:80"));
    assert!(check_node_addr("unix:/run/x.sock"));
    assert!(check_node_addr("/run/x.sock"));
    assert!(check_node_addr("@abstract"));
    assert!(!check_node_addr(""));
    assert!(!check_node_addr("host:80"));
}

#[test]
fn str_eq_compares_by_characters() {
    assert!(str_eq("abc", "abc"));
    assert!(!str_eq("abc", "abd"));
    assert!(!str_eq("abc", "ab"));
    assert!(str_eq("", ""));
}

#[test]
fn addr_display_text_forms() {
    assert_eq!(Addr::Tcp("1.2.3.4:80".to_string()).to_text(), "1.2.3.4:80");
    assert_eq!(Addr::Unix(Some("/tmp/x".to_string())).to_text(), "unix:/tmp/x");
    assert_eq!(Addr::Unix(None).to_text(), "unix:<unnamed>");
}
