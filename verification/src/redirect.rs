//! Transparent redirection of the TCP connections of one process through a
//! local listener. Outgoing packets are rewritten to reach the listener; what
//! the listener answers is rewritten to come from the original destination.
use crate::bytes;
use crate::net;
use crate::net::Endpoint;
use crate::net::Ipv4;
use crate::text;
use std::collections::HashMap;
use std::collections::HashSet;
use vstd::prelude::*;

verus! {

broadcast use vstd::std_specs::hash::group_hash_axioms;

// ---------------------------------------------------------------------------
// Flags of a diverted packet
// ---------------------------------------------------------------------------
/// The flags with the bit for outgoing packets switched on or off.
pub open spec fn with_outbound(flags: u32, on: bool) -> u32 {
    (flags - (flags / 0x2_0000) % 2 * 0x2_0000 + (if on {
        0x2_0000int
    } else {
        0
    })) as u32
}

/// Switches the bit for outgoing packets on or off.
pub fn set_outbound(flags: u32, on: bool) -> (r: u32)
    ensures
        r == with_outbound(flags, on),
{
    let bare: u32 = flags - (flags / 0x2_0000) % 2 * 0x2_0000;
    if on {
        bare + 0x2_0000
    } else {
        bare
    }
}

/// Whether the flags say that a packet is IPv6.
pub fn is_ipv6(flags: u32) -> (r: bool)
    ensures
        r == ((flags / 0x10_0000) % 2 == 1),
{
    (flags / 0x10_0000) % 2 == 1
}

// ---------------------------------------------------------------------------
// Rewriting
// ---------------------------------------------------------------------------
/// The state of a redirection.
pub struct Redirect {
    pub listen_port: u16,
    /// The original destination of each client port.
    pub nat: HashMap<u16, Endpoint>,
    /// The local ports of the target process.
    pub target_ports: HashSet<u16>,
    /// How many packets were redirected.
    pub redirected: u64,
}

/// The value of a `Redirect`.
#[verifier::ext_equal]
pub struct RedirectModel {
    pub listen_port: u16,
    pub nat: Map<u16, Endpoint>,
    pub target_ports: Set<u16>,
    pub redirected: u64,
}

/// A packet with an address written at an offset.
pub open spec fn with_ip(p: Seq<u8>, off: int, ip: Ipv4) -> Seq<u8> {
    p.update(off, ip.a).update(off + 1, ip.b).update(off + 2, ip.c).update(off + 3, ip.d)
}

/// A packet with a port written at an offset.
pub open spec fn with_port(p: Seq<u8>, off: int, port: u16) -> Seq<u8> {
    p.update(off, (port / 256) as u8).update(off + 1, (port % 256) as u8)
}

/// Whether a packet is TCP and has its whole header.
pub open spec fn is_tcp(p: Seq<u8>) -> bool {
    p[9] == 6 && p.len() >= net::header_len(p) + 20
}

/// What becomes of a packet.
pub enum Route {
    /// It is left alone.
    Pass,
    /// It comes from the listener: its sender becomes the original
    /// destination, and it goes in.
    Back(Endpoint),
    /// It goes from the target to a server: it is redirected to the listener.
    Forth,
}

/// Decides what becomes of a packet.
pub open spec fn route(s: RedirectModel, p: Seq<u8>) -> Route {
    let ihl = net::header_len(p);
    let src_port = net::port_at(p, ihl);
    let dst_port = net::port_at(p, ihl + 2);
    if !is_tcp(p) {
        Route::Pass
    } else if src_port == s.listen_port {
        if s.nat.dom().contains(dst_port) {
            Route::Back(s.nat[dst_port])
        } else {
            Route::Pass
        }
    } else if s.target_ports.contains(src_port) && net::ip_at(p, 16).a != 127 {
        Route::Forth
    } else {
        Route::Pass
    }
}

/// The packet, its flags and the state after rewriting, and whether the packet
/// was changed.
pub open spec fn rewritten(s: RedirectModel, p: Seq<u8>, flags: u32) -> (
    Seq<u8>,
    u32,
    RedirectModel,
    bool,
) {
    let ihl = net::header_len(p);
    match route(s, p) {
        Route::Pass => (p, flags, s, false),
        Route::Back(orig) => (
            with_port(with_ip(p, 12, orig.ip), ihl, orig.port),
            with_outbound(flags, false),
            s,
            true,
        ),
        Route::Forth => (
            with_port(with_ip(p, 16, net::ip_at(p, 12)), ihl + 2, s.listen_port),
            flags,
            RedirectModel {
                nat: s.nat.insert(
                    net::port_at(p, ihl),
                    Endpoint { ip: net::ip_at(p, 16), port: net::port_at(p, ihl + 2) },
                ),
                redirected: ((s.redirected + 1) % 0x1_0000_0000_0000_0000) as u64,
                ..s
            },
            true,
        ),
    }
}

/// Writes an address.
fn write_ip(pkt: &mut Vec<u8>, off: usize, ip: Ipv4)
    requires
        off + 4 <= old(pkt)@.len(),
    ensures
        final(pkt)@ == with_ip(old(pkt)@, off as int, ip),
{
    let n: usize = pkt.len();
    assert(off + 4 <= n);
    pkt.set(off, ip.a);
    pkt.set(off + 1, ip.b);
    pkt.set(off + 2, ip.c);
    pkt.set(off + 3, ip.d);
}

/// Writes a port, highest byte first.
fn write_port(pkt: &mut Vec<u8>, off: usize, port: u16)
    requires
        off + 2 <= old(pkt)@.len(),
    ensures
        final(pkt)@ == with_port(old(pkt)@, off as int, port),
{
    let n: usize = pkt.len();
    assert(off + 2 <= n);
    pkt.set(off, (port / 256) as u8);
    pkt.set(off + 1, (port % 256) as u8);
}

/// What becomes of any packet: one that is IPv6 or too short stays as it is.
pub open spec fn passed(m: RedirectModel, pkt: Seq<u8>, flags: u32) -> (
    Seq<u8>,
    u32,
    RedirectModel,
    bool,
) {
    if (flags / 0x10_0000) % 2 == 1 || pkt.len() < 20 {
        (pkt, flags, m, false)
    } else {
        rewritten(m, pkt, flags)
    }
}

impl Redirect {
    /// The value of the state.
    pub open spec fn model(self) -> RedirectModel {
        RedirectModel {
            listen_port: self.listen_port,
            nat: self.nat@,
            target_ports: self.target_ports@,
            redirected: self.redirected,
        }
    }

    /// A redirection to a listener, of which nothing is known yet.
    pub fn new(listen_port: u16) -> (r: Self)
        ensures
            r.model() == (RedirectModel {
                listen_port,
                nat: Map::empty(),
                target_ports: Set::empty(),
                redirected: 0,
            }),
    {
        Redirect { listen_port, nat: HashMap::new(), target_ports: HashSet::new(), redirected: 0 }
    }

    /// Replaces the local ports of the target.
    pub fn set_ports(&mut self, ports: HashSet<u16>)
        ensures
            final(self).model() == (RedirectModel {
                target_ports: ports@,
                ..old(self).model()
            }),
    {
        self.target_ports = ports;
    }

    /// The original destination of a client port.
    pub fn original(&self, port: u16) -> (r: Option<Endpoint>)
        ensures
            r == (if self.model().nat.dom().contains(port) {
                Some(self.model().nat[port])
            } else {
                None
            }),
    {
        match self.nat.get(&port) {
            Some(e) => Some(*e),
            None => None,
        }
    }

    /// Rewrites an IPv4 packet in place and says whether it was changed.
    pub fn rewrite_packet(&mut self, pkt: &mut Vec<u8>, flags: &mut u32) -> (r: bool)
        requires
            old(pkt)@.len() >= 20,
        ensures
            (final(pkt)@, *final(flags), final(self).model(), r) == rewritten(
                old(self).model(),
                old(pkt)@,
                *old(flags),
            ),
    {
        let ghost p = pkt@;
        let ihl: usize = (pkt[0] % 16) as usize * 4;
        let n: usize = pkt.len();
        if pkt[9] != 6 || n < ihl + 20 {
            return false;
        }
        let src_ip: Ipv4 = net::read_ip(pkt, 12);
        let dst_ip: Ipv4 = net::read_ip(pkt, 16);
        let src_port: u16 = net::read_port(pkt, ihl);
        let dst_port: u16 = net::read_port(pkt, ihl + 2);
        if src_port == self.listen_port {
            match self.original(dst_port) {
                Some(orig) => {
                    write_ip(pkt, 12, orig.ip);
                    write_port(pkt, ihl, orig.port);
                    *flags = set_outbound(*flags, false);
                    return true;
                },
                None => {
                    return false;
                },
            }
        }
        if !self.target_ports.contains(&src_port) || dst_ip.is_loopback() {
            return false;
        }
        self.nat.insert(src_port, Endpoint { ip: dst_ip, port: dst_port });
        self.redirected = self.redirected.wrapping_add(1);
        write_ip(pkt, 16, src_ip);
        write_port(pkt, ihl + 2, self.listen_port);
        true
    }

    /// Lets a packet pass: rewrites it where it is IPv4 and long enough, and
    /// says whether it was changed, so that its checksums are to be computed
    /// again.
    pub fn pass(&mut self, pkt: &mut Vec<u8>, flags: &mut u32) -> (r: bool)
        ensures
            (final(pkt)@, *final(flags), final(self).model(), r) == passed(
                old(self).model(),
                old(pkt)@,
                *old(flags),
            ),
    {
        if is_ipv6(*flags) || pkt.len() < 20 {
            return false;
        }
        self.rewrite_packet(pkt, flags)
    }
}

/// What the listener answers to a redirected client reaches the client as if
/// it came from the server: the answer's sender becomes the address and port
/// that the client had asked for, and the answer goes in. In between, other
/// packets may have been rewritten, as long as the client's port keeps its
/// destination.
pub proof fn lemma_reply_restores(
    s: RedirectModel,
    p: Seq<u8>,
    flags: u32,
    later: RedirectModel,
    q: Seq<u8>,
    reply_flags: u32,
)
    requires
        p.len() >= 20,
        q.len() >= 20,
        net::header_len(p) >= 20,
        net::header_len(q) >= 20,
        route(s, p) is Forth,
        later.listen_port == s.listen_port,
        later.nat.dom().contains(net::port_at(p, net::header_len(p))),
        later.nat[net::port_at(p, net::header_len(p))] == rewritten(s, p, flags).2.nat[net::port_at(
            p,
            net::header_len(p),
        )],
        is_tcp(q),
        net::port_at(q, net::header_len(q)) == s.listen_port,
        net::port_at(q, net::header_len(q) + 2) == net::port_at(p, net::header_len(p)),
    ensures
        ({
            let (r, back_flags, after, changed) = rewritten(later, q, reply_flags);
            let ihl = net::header_len(q);
            &&& changed
            &&& net::ip_at(r, 12) == net::ip_at(p, 16)
            &&& net::port_at(r, ihl) == net::port_at(p, net::header_len(p) + 2)
            &&& net::ip_at(r, 16) == net::ip_at(q, 16)
            &&& net::port_at(r, ihl + 2) == net::port_at(q, ihl + 2)
            &&& after == later
            &&& (back_flags / 0x2_0000) % 2 == 0
        }),
{
    lemma_port_roundtrip(net::port_at(p, net::header_len(p) + 2));
}

/// A redirected packet reaches the listener on the client's own address, from
/// the client's own address and port.
pub proof fn lemma_forth_reaches_listener(s: RedirectModel, p: Seq<u8>, flags: u32)
    requires
        p.len() >= 20,
        net::header_len(p) >= 20,
        route(s, p) is Forth,
    ensures
        ({
            let (r, out_flags, after, changed) = rewritten(s, p, flags);
            let ihl = net::header_len(p);
            &&& changed
            &&& r.len() == p.len()
            &&& net::header_len(r) == ihl
            &&& net::ip_at(r, 12) == net::ip_at(p, 12)
            &&& net::ip_at(r, 16) == net::ip_at(p, 12)
            &&& net::port_at(r, ihl) == net::port_at(p, ihl)
            &&& net::port_at(r, ihl + 2) == s.listen_port
            &&& out_flags == flags
            &&& after.nat[net::port_at(p, ihl)] == (Endpoint {
                ip: net::ip_at(p, 16),
                port: net::port_at(p, ihl + 2),
            })
        }),
{
    lemma_port_roundtrip(s.listen_port);
}

proof fn lemma_port_roundtrip(port: u16)
    ensures
        (((port / 256) as u8) * 256 + ((port % 256) as u8)) as u16 == port,
{
}

/// Rewriting changes nothing but addresses and ports: every byte outside the
/// addresses of the IP header and the ports of the TCP header stays.
pub proof fn lemma_payload_kept(s: RedirectModel, p: Seq<u8>, flags: u32, i: int)
    requires
        p.len() >= 20,
        0 <= i < p.len(),
        !(12 <= i < 20),
        !(net::header_len(p) <= i < net::header_len(p) + 4),
    ensures
        rewritten(s, p, flags).0.len() == p.len(),
        rewritten(s, p, flags).0[i] == p[i],
{
}

// ---------------------------------------------------------------------------
// Ports of the target
// ---------------------------------------------------------------------------
/// A row of the table of connections: the process and the local port, in
/// network order in its low word.
#[derive(Clone, Copy, Debug, PartialEq, Eq, Structural)]
pub struct TcpRow {
    pub pid: u32,
    pub local_port: u32,
}

/// The local port of a row.
pub open spec fn row_port(r: TcpRow) -> u16 {
    ((r.local_port % 256) * 256 + (r.local_port / 256) % 256) as u16
}

/// The local ports of a process among the first `n` rows.
pub open spec fn ports_until(rows: Seq<TcpRow>, pid: u32, n: int) -> Set<u16>
    decreases n,
{
    if n <= 0 {
        Set::empty()
    } else if rows[n - 1].pid == pid {
        ports_until(rows, pid, n - 1).insert(row_port(rows[n - 1]))
    } else {
        ports_until(rows, pid, n - 1)
    }
}

/// Collects the local ports of a process.
pub fn ports_of(rows: &Vec<TcpRow>, pid: u32) -> (r: HashSet<u16>)
    ensures
        r@ == ports_until(rows@, pid, rows@.len() as int),
{
    let mut out: HashSet<u16> = HashSet::new();
    for i in 0..rows.len()
        invariant
            out@ == ports_until(rows@, pid, i as int),
    {
        let row: TcpRow = rows[i];
        if row.pid == pid {
            let port: u16 = ((row.local_port % 256) * 256 + (row.local_port / 256) % 256) as u16;
            out.insert(port);
        }
    }
    out
}

// ---------------------------------------------------------------------------
// Messages
// ---------------------------------------------------------------------------
/// Why the driver could not be opened.
pub open spec fn open_message(code: u32) -> Seq<char> {
    if code == 5 {
        "acesso negado ao WinDivert — rode o Quarry como Administrador."@
    } else if code == 2 || code == 3 {
        "WinDivert64.sys não encontrado (coloque-o junto do quarry.exe)."@
    } else if code == 1275 {
        "driver WinDivert bloqueado (provável anticheat/Driver Signature)."@
    } else {
        "WinDivertOpen falhou (erro "@ + text::decimal(code as nat) + ")."@
    }
}

/// Says why the driver could not be opened.
pub fn open_error(code: u32) -> (r: String)
    ensures
        r@ == open_message(code),
{
    if code == 5 {
        "acesso negado ao WinDivert — rode o Quarry como Administrador.".to_owned()
    } else if code == 2 || code == 3 {
        "WinDivert64.sys não encontrado (coloque-o junto do quarry.exe).".to_owned()
    } else if code == 1275 {
        "driver WinDivert bloqueado (provável anticheat/Driver Signature).".to_owned()
    } else {
        let mut r: String = "WinDivertOpen falhou (erro ".to_owned();
        r.append(text::write_decimal(code as u64).as_str());
        r.append(").");
        r
    }
}

/// What is being redirected.
pub open spec fn status_message(pid: u32, ports: nat) -> Seq<char> {
    if ports == 0 {
        "redirecionando pid "@ + text::decimal(pid as nat) + " (sem conexões TCP no momento)"@
    } else {
        "redirecionando pid "@ + text::decimal(pid as nat) + " · "@ + text::decimal(ports)
            + " portas ativas"@
    }
}

/// Says what is being redirected.
pub fn status_text(pid: u32, ports: usize) -> (r: String)
    ensures
        r@ == status_message(pid, ports as nat),
{
    let mut r: String = "redirecionando pid ".to_owned();
    r.append(text::write_decimal(pid as u64).as_str());
    if ports == 0 {
        r.append(" (sem conexões TCP no momento)");
    } else {
        r.append(" · ");
        r.append(text::write_decimal(ports as u64).as_str());
        r.append(" portas ativas");
    }
    r
}

// ---------------------------------------------------------------------------
// Connections
// ---------------------------------------------------------------------------
/// A redirected connection.
#[derive(Debug)]
pub struct RedirectConn {
    pub client_port: u16,
    pub dst: Endpoint,
    pub bytes_up: u64,
    pub bytes_down: u64,
    /// The first line of a plain HTTP request, if there is one.
    pub http: String,
}

/// Whether bytes start with a text of ASCII characters.
pub open spec fn begins_with(b: Seq<u8>, t: Seq<char>) -> bool {
    b.len() >= t.len() && forall|i: int| 0 <= i < t.len() ==> #[trigger] b[i] as char == t[i]
}

/// Whether bytes start with the method of an HTTP request.
pub open spec fn is_http(b: Seq<u8>) -> bool {
    begins_with(b, "GET "@) || begins_with(b, "POST "@) || begins_with(b, "PUT "@) || begins_with(
        b,
        "HEAD "@,
    ) || begins_with(b, "DELETE "@) || begins_with(b, "PATCH "@) || begins_with(b, "OPTIONS"@)
}

/// The position of the first carriage return, or the length.
pub open spec fn first_return(b: Seq<u8>) -> int
    decreases b.len(),
{
    if b.len() == 0 || b[0] == 13 {
        0
    } else {
        1 + first_return(b.skip(1))
    }
}

/// The end of the first line: the first carriage return, else 120 bytes at
/// most.
pub open spec fn line_end(b: Seq<u8>) -> int {
    if first_return(b) < b.len() {
        first_return(b)
    } else if b.len() <= 120 {
        b.len() as int
    } else {
        120
    }
}

/// The first line of a plain HTTP request.
pub open spec fn request_line(b: Seq<u8>) -> Option<Seq<char>> {
    if is_http(b) {
        Some(text::trimmed(bytes::utf8_text(b.take(line_end(b)))))
    } else {
        None
    }
}

/// Compares the start of some bytes with a text.
fn starts(b: &[u8], t: &str) -> (r: bool)
    ensures
        r == begins_with(b@, t@),
{
    let chars: Vec<char> = text::chars_of(t);
    if b.len() < chars.len() {
        return false;
    }
    for i in 0..chars.len()
        invariant
            chars@ == t@,
            chars@.len() <= b@.len(),
            forall|j: int| 0 <= j < i ==> #[trigger] b@[j] as char == t@[j],
    {
        if b[i] as char != chars[i] {
            return false;
        }
    }
    true
}

/// Finds the first carriage return.
fn find_return(b: &[u8]) -> (r: usize)
    ensures
        r == first_return(b@),
        r <= b@.len(),
{
    let n: usize = b.len();
    let mut i: usize = 0;
    proof {
        assert(b@.skip(0) =~= b@);
    }
    while i < n && b[i] != 13
        invariant
            n == b@.len(),
            i <= n,
            first_return(b@) == i + first_return(b@.skip(i as int)),
        decreases n - i,
    {
        proof {
            assert(b@.skip(i as int).skip(1) =~= b@.skip(i + 1));
        }
        i = i + 1;
    }
    i
}

/// Reads the first line of a plain HTTP request.
pub fn http_line(buf: &[u8]) -> (r: Option<String>)
    ensures
        match r {
            Some(t) => request_line(buf@) == Some(t@),
            None => request_line(buf@) is None,
        },
{
    let method: bool = starts(buf, "GET ") || starts(buf, "POST ") || starts(buf, "PUT ") || starts(
        buf,
        "HEAD ",
    ) || starts(buf, "DELETE ") || starts(buf, "PATCH ") || starts(buf, "OPTIONS");
    if !method {
        return None;
    }
    let n: usize = buf.len();
    let at: usize = find_return(buf);
    let end: usize = if at < n {
        at
    } else if n <= 120 {
        n
    } else {
        120
    };
    let head: &[u8] = vstd::slice::slice_subrange(buf, 0, end);
    proof {
        assert(head@ =~= buf@.take(end as int));
    }
    let line: String = bytes::utf8_string(head);
    Some(text::string_of(text::trim(&text::chars_of(line.as_str()))))
}

impl RedirectConn {
    /// A connection of which nothing has been seen yet.
    pub fn new(client_port: u16, dst: Endpoint) -> (r: Self)
        ensures
            r.client_port == client_port,
            r.dst == dst,
            r.bytes_up == 0,
            r.bytes_down == 0,
            r.http@ == Seq::<char>::empty(),
    {
        RedirectConn { client_port, dst, bytes_up: 0, bytes_down: 0, http: String::new() }
    }

    /// Takes in the first line of the client's request.
    pub fn note(&mut self, line: String)
        ensures
            final(self).http@ == line@,
            final(self).client_port == old(self).client_port,
            final(self).dst == old(self).dst,
            final(self).bytes_up == old(self).bytes_up,
            final(self).bytes_down == old(self).bytes_down,
    {
        self.http = line;
    }

    /// Takes in the final counts.
    pub fn finish(&mut self, up: u64, down: u64)
        ensures
            final(self).bytes_up == up,
            final(self).bytes_down == down,
            final(self).client_port == old(self).client_port,
            final(self).dst == old(self).dst,
            final(self).http@ == old(self).http@,
    {
        self.bytes_up = up;
        self.bytes_down = down;
    }
}

/// One direction of a connection: whether its first bytes are still to come and
/// are looked at, and how many bytes went through.
#[derive(Clone, Copy, Debug, PartialEq, Eq, Structural)]
pub struct Pump {
    pub sniffing: bool,
    pub count: u64,
}

impl Pump {
    /// A direction through which nothing went yet.
    pub fn new(sniffing: bool) -> (r: Self)
        ensures
            r == (Pump { sniffing, count: 0 }),
    {
        Pump { sniffing, count: 0 }
    }

    /// Takes in some bytes; the first ones may begin an HTTP request, whose
    /// first line is returned.
    pub fn took(&mut self, chunk: &[u8]) -> (r: Option<String>)
        ensures
            *final(self) == (Pump { sniffing: false, ..*old(self) }),
            text::option_view(r) == (if old(self).sniffing {
                request_line(chunk@)
            } else {
                None
            }),
    {
        let first: bool = self.sniffing;
        self.sniffing = false;
        if first {
            http_line(chunk)
        } else {
            None
        }
    }

    /// Counts bytes that went through, modulo 2^64.
    pub fn sent(&mut self, n: usize)
        ensures
            *final(self) == (Pump {
                count: ((old(self).count + n) % 0x1_0000_0000_0000_0000) as u64,
                ..*old(self)
            }),
    {
        self.count = self.count.wrapping_add(n as u64);
    }
}

} // verus!
