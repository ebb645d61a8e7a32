use std::collections::HashSet;

use quarry::net::{Endpoint, Ipv4};
use quarry::redirect::{
    http_line, is_ipv6, open_error, ports_of, set_outbound, status_text, Pump, Redirect,
    RedirectConn, TcpRow,
};

const CLIENT: [u8; 4] = [192, 168, 0, 2];
const SERVER: [u8; 4] = [93, 184, 216, 34];

fn tcp(src: [u8; 4], dst: [u8; 4], sport: u16, dport: u16) -> Vec<u8> {
    let mut p: Vec<u8> = (0..60).map(|i| 100 + i as u8).collect();
    p[0] = 0x45;
    p[9] = 6;
    p[12..16].copy_from_slice(&src);
    p[16..20].copy_from_slice(&dst);
    p[20..22].copy_from_slice(&sport.to_be_bytes());
    p[22..24].copy_from_slice(&dport.to_be_bytes());
    p
}

fn redirect() -> Redirect {
    let mut r = Redirect::new(9999);
    r.set_ports(HashSet::from([5000u16]));
    r
}

#[test]
fn there_and_back() {
    let mut r = redirect();
    let mut flags = set_outbound(0, true);
    let mut forth = tcp(CLIENT, SERVER, 5000, 443);
    let before = forth.clone();
    assert!(r.pass(&mut forth, &mut flags));
    assert_eq!(flags, 1 << 17);
    assert_eq!(forth[16..20], CLIENT);
    assert_eq!(forth[22..24], 9999u16.to_be_bytes());
    assert_eq!(forth[..16], before[..16]);
    assert_eq!(forth[20..22], before[20..22]);
    assert_eq!(forth[24..], before[24..]);
    assert_eq!(r.redirected, 1);
    assert_eq!(
        r.original(5000),
        Some(Endpoint { ip: Ipv4 { a: 93, b: 184, c: 216, d: 34 }, port: 443 })
    );

    let mut back = tcp(CLIENT, CLIENT, 9999, 5000);
    assert!(r.pass(&mut back, &mut flags));
    assert_eq!(flags, 0);
    assert_eq!(back[12..16], SERVER);
    assert_eq!(back[20..22], 443u16.to_be_bytes());
    assert_eq!(back[16..20], CLIENT);
    assert_eq!(back[22..24], 5000u16.to_be_bytes());
}

#[test]
fn other_packets_pass() {
    let mut r = redirect();
    let mut cases = vec![
        tcp(CLIENT, SERVER, 5001, 443),
        tcp(CLIENT, [127, 0, 0, 1], 5000, 443),
        tcp(CLIENT, CLIENT, 9999, 6000),
    ];
    let mut udp = tcp(CLIENT, SERVER, 5000, 443);
    udp[9] = 17;
    cases.push(udp);
    cases.push(tcp(CLIENT, SERVER, 5000, 443)[..39].to_vec());
    cases.push(vec![0x45; 19]);
    for p in cases {
        let mut packet = p.clone();
        let mut flags = 7;
        assert!(!r.pass(&mut packet, &mut flags));
        assert_eq!((packet, flags), (p, 7));
    }
    let mut v6 = tcp(CLIENT, SERVER, 5000, 443);
    let mut flags = 1 << 20;
    assert!(is_ipv6(flags));
    assert!(!r.pass(&mut v6, &mut flags));
    assert_eq!(r.redirected, 0);
}

#[test]
fn flags_of_a_packet() {
    assert_eq!(set_outbound(u32::MAX, false), !(1 << 17));
    assert_eq!(set_outbound(u32::MAX, true), u32::MAX);
    assert_eq!(set_outbound(0, false), 0);
    assert!(!is_ipv6(!(1 << 20)));
}

#[test]
fn ports_of_a_process() {
    let rows = vec![
        TcpRow { pid: 7, local_port: 0xABCD_901F },
        TcpRow { pid: 8, local_port: 0x0100 },
        TcpRow { pid: 7, local_port: 0xBB01 },
    ];
    assert_eq!(ports_of(&rows, 7), HashSet::from([8080u16, 443]));
    assert!(ports_of(&rows, 9).is_empty());
}

#[test]
fn messages() {
    assert_eq!(open_error(5), "acesso negado ao WinDivert — rode o Quarry como Administrador.");
    assert_eq!(open_error(2), "WinDivert64.sys não encontrado (coloque-o junto do quarry.exe).");
    assert_eq!(open_error(3), open_error(2));
    assert_eq!(open_error(1275), "driver WinDivert bloqueado (provável anticheat/Driver Signature).");
    assert_eq!(open_error(87), "WinDivertOpen falhou (erro 87).");
    assert_eq!(status_text(4, 0), "redirecionando pid 4 (sem conexões TCP no momento)");
    assert_eq!(status_text(4, 12), "redirecionando pid 4 · 12 portas ativas");
}

#[test]
fn the_first_line_of_a_request() {
    assert_eq!(http_line(b"GET /x HTTP/1.1\r\nHost: h"), Some("GET /x HTTP/1.1".to_string()));
    assert_eq!(http_line(b"OPTIONS* HTTP/1.1"), Some("OPTIONS* HTTP/1.1".to_string()));
    assert_eq!(http_line(b"\x16\x03\x01"), None);
    assert_eq!(http_line(b"GETX"), None);
    let long = [b"POST ".to_vec(), vec![b'a'; 300]].concat();
    assert_eq!(http_line(&long).map(|l| l.len()), Some(120));
    assert_eq!(http_line(b"GET \xFF \r"), Some("GET \u{FFFD}".to_string()));
}

#[test]
fn a_connection() {
    let dst = Endpoint { ip: Ipv4 { a: 1, b: 2, c: 3, d: 4 }, port: 80 };
    let mut c = RedirectConn::new(5000, dst);
    assert_eq!((c.client_port, c.dst, c.bytes_up, c.bytes_down), (5000, dst, 0, 0));
    assert_eq!(c.http, "");
    c.note("HEAD / HTTP/1.0".to_string());
    assert_eq!(c.http, "HEAD / HTTP/1.0");
    c.finish(10, 20);
    assert_eq!((c.bytes_up, c.bytes_down), (10, 20));
}

#[test]
fn only_the_first_bytes_are_looked_at() {
    let mut up = Pump::new(true);
    assert_eq!(up.took(b"GET / HTTP/1.1\r\n"), Some("GET / HTTP/1.1".to_string()));
    up.sent(16);
    assert_eq!(up.took(b"GET / HTTP/1.1\r\n"), None);
    up.sent(4);
    assert_eq!(up, Pump { sniffing: false, count: 20 });
    assert_eq!(Pump::new(false).took(b"GET / HTTP/1.1\r\n"), None);
    let mut late = Pump::new(true);
    assert_eq!(late.took(b"\x16\x03"), None);
    assert_eq!(late.took(b"GET / HTTP/1.1\r\n"), None);
}
