use quarry::net::{read_ip, read_port, Ipv4};

#[test]
fn addresses() {
    let ip = Ipv4 { a: 127, b: 0, c: 10, d: 255 };
    assert!(ip.is_loopback());
    assert_eq!(ip.text(), "127.0.10.255");
    assert!(!Ipv4 { a: 128, b: 0, c: 0, d: 1 }.is_loopback());
    assert_eq!(read_ip(&[9, 127, 0, 10, 255], 1), ip);
    assert_eq!(read_port(&[0x1F, 0x90], 0), 8080);
}
