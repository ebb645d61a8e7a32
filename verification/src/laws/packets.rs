//! Packets: which bytes are read, what is counted and what is rewritten.
use crate::bytes;
use crate::capture;
use crate::capture::{CaptureModel, Conversation, Packet};
use crate::laws::plain;
use crate::laws::texts;
use crate::net;
use crate::net::Ipv4;
use crate::redirect;
use crate::redirect::{RedirectModel, TcpRow};
use crate::text;
use vstd::prelude::*;

verus! {

/// A number of two bytes, the highest first.
pub open spec fn big(p: Seq<u8>, i: int) -> int {
    256 * p[i] + p[i + 1]
}

/// The length of the header: four bytes for each of the lower four bits of the first byte.
pub open spec fn header(p: Seq<u8>) -> int {
    4 * (p[0] % 16)
}

/// Whether an address is the four bytes at an offset.
pub open spec fn is_ip(ip: Ipv4, p: Seq<u8>, i: int) -> bool {
    ip.a == p[i] && ip.b == p[i + 1] && ip.c == p[i + 2] && ip.d == p[i + 3]
}

/// A packet is of version 4 and holds its whole header. Its length is at 2, its protocol
/// at 9, its sender at 12, its receiver at 16; the ports of TCP and UDP, the sender's
/// first, are the four bytes behind the header.
pub proof fn lemma_packet_fields(p: Seq<u8>)
    ensures
        capture::dissected(p) is Some <==> p.len() >= 20 && p[0] / 16 == 4 && 20 <= header(p)
            <= p.len(),
        capture::dissected(p) matches Some(q) ==> {
            let h = header(p);
            &&& q.proto == p[9]
            &&& is_ip(q.src, p, 12)
            &&& is_ip(q.dst, p, 16)
            &&& q.total_len == big(p, 2)
            &&& if (p[9] == 6 || p[9] == 17) && p.len() >= h + 4 {
                q.src_port == big(p, h) && q.dst_port == big(p, h + 2)
            } else {
                q.src_port == 0 && q.dst_port == 0
            }
        },
{
}

/// A packet belongs to the conversation of its remote end: the receiver of what this
/// interface sends, the sender of what it receives.
pub proof fn lemma_conversation_of(iface: Ipv4, p: Packet)
    ensures
        p.src == iface ==> is_talk(capture::key_for(iface, p), p.proto, p.src_port, p.dst, p.dst_port),
        p.src != iface && p.dst == iface ==> is_talk(
            capture::key_for(iface, p),
            p.proto,
            p.dst_port,
            p.src,
            p.src_port,
        ),
{
}

/// Whether a key is of a conversation.
pub open spec fn is_talk(
    k: capture::Key,
    proto: u8,
    local_port: u16,
    remote_ip: Ipv4,
    remote_port: u16,
) -> bool {
    k.proto == proto && k.local_port == local_port && k.remote_ip == remote_ip && k.remote_port
        == remote_port
}

/// Whether a conversation has a key.
pub open spec fn has_key(c: Conversation, k: capture::Key) -> bool {
    is_talk(k, c.proto, c.local_port, c.remote_ip, c.remote_port)
}

proof fn lemma_first(convs: Seq<Conversation>, k: capture::Key, i: int)
    requires
        0 <= i <= convs.len(),
        i < convs.len() ==> has_key(convs[i], k),
        forall|j: int| 0 <= j < i ==> !has_key(#[trigger] convs[j], k),
    ensures
        capture::conv_index(convs, k) == if i < convs.len() {
            Some(i)
        } else {
            None
        },
    decreases i,
{
    if i > 0 {
        assert(!has_key(convs[0], k));
        let rest = convs.skip(1);
        assert forall|j: int| 0 <= j < i - 1 implies !has_key(#[trigger] rest[j], k) by {
            assert(rest[j] == convs[j + 1]);
        }
        lemma_first(rest, k, i - 1);
    }
}

/// A packet of a known conversation adds one packet and its length to that conversation and
/// to the totals, and sets its time; every other conversation stays as it is.
pub proof fn lemma_known_conversation(
    s: CaptureModel,
    iface: Ipv4,
    pkt: Seq<u8>,
    ms: u64,
    i: int,
)
    requires
        capture::dissected(pkt) is Some,
        0 <= i < s.convs.len(),
        has_key(s.convs[i], capture::key_for(iface, capture::dissected(pkt)->0)),
        forall|j: int|
            0 <= j < i ==> !has_key(
                #[trigger] s.convs[j],
                capture::key_for(iface, capture::dissected(pkt)->0),
            ),
        s.convs[i].packets < u64::MAX,
        s.convs[i].bytes + 0xFFFF <= u64::MAX,
        s.total_packets < u64::MAX,
        s.total_bytes + 0xFFFF <= u64::MAX,
    ensures
        ({
            let after = capture::ingested(s, iface, pkt, ms);
            &&& after.convs.len() == s.convs.len()
            &&& forall|j: int|
                0 <= j < s.convs.len() && j != i ==> #[trigger] after.convs[j] == s.convs[j]
            &&& after.convs[i].packets == s.convs[i].packets + 1
            &&& after.convs[i].bytes == s.convs[i].bytes + big(pkt, 2)
            &&& after.convs[i].last_ms == ms
            &&& has_key(after.convs[i], capture::key_for(iface, capture::dissected(pkt)->0))
            &&& after.total_packets == s.total_packets + 1
            &&& after.total_bytes == s.total_bytes + big(pkt, 2)
        }),
{
    lemma_first(s.convs, capture::key_for(iface, capture::dissected(pkt)->0), i);
}

/// A packet of a new conversation begins it with one packet and its length, unless there
/// are four thousand already; the totals count it either way.
pub proof fn lemma_new_conversation(s: CaptureModel, iface: Ipv4, pkt: Seq<u8>, ms: u64)
    requires
        capture::dissected(pkt) is Some,
        forall|j: int|
            0 <= j < s.convs.len() ==> !has_key(
                #[trigger] s.convs[j],
                capture::key_for(iface, capture::dissected(pkt)->0),
            ),
        s.total_packets < u64::MAX,
        s.total_bytes + 0xFFFF <= u64::MAX,
    ensures
        ({
            let after = capture::ingested(s, iface, pkt, ms);
            let new = after.convs.last();
            &&& s.convs.len() >= 4000 ==> after.convs == s.convs
            &&& s.convs.len() < 4000 ==> {
                &&& after.convs.len() == s.convs.len() + 1
                &&& after.convs.drop_last() == s.convs
                &&& has_key(new, capture::key_for(iface, capture::dissected(pkt)->0))
                &&& new.packets == 1 && new.bytes == big(pkt, 2) && new.last_ms == ms
            }
            &&& after.total_packets == s.total_packets + 1
            &&& after.total_bytes == s.total_bytes + big(pkt, 2)
        }),
{
    lemma_first(s.convs, capture::key_for(iface, capture::dissected(pkt)->0), s.convs.len() as int);
    let after = capture::ingested(s, iface, pkt, ms);
    assert(s.convs.len() < 4000 ==> after.convs.drop_last() =~= s.convs);
}

/// The names of the protocols 6, 17 and 1.
pub proof fn lemma_protocols(proto: u8)
    ensures
        proto == 6 ==> capture::proto_text(proto) == "TCP"@,
        proto == 17 ==> capture::proto_text(proto) == "UDP"@,
        proto == 1 ==> capture::proto_text(proto) == "ICMP"@,
        proto != 6 && proto != 17 && proto != 1 ==> capture::proto_text(proto) == "IP"@,
{
}

/// Whether a packet is whole TCP over version 4: bit 20 of the flags says version 6.
pub open spec fn is_ours(p: Seq<u8>, flags: u32) -> bool {
    &&& p.len() >= 20
    &&& (flags / 0x10_0000) % 2 == 0
    &&& p[9] == 6
    &&& p.len() >= header(p) + 20
}

/// Nothing happens to a packet that is not whole TCP over version 4, that comes from the
/// listener to a port that is not known, or that comes from a port that is not the
/// target's or goes to this machine.
pub proof fn lemma_left_alone(s: RedirectModel, p: Seq<u8>, flags: u32)
    requires
        ({
            let h = header(p);
            ||| !is_ours(p, flags)
            ||| big(p, h) == s.listen_port && !s.nat.dom().contains(big(p, h + 2) as u16)
            ||| big(p, h) != s.listen_port && (!s.target_ports.contains(big(p, h) as u16) || p[16]
                == 127)
        }),
    ensures
        redirect::passed(s, p, flags) == (p, flags, s, false),
{
}

/// A packet of the target to a server is turned round to the listener: its receiver
/// becomes its own sender, its port the listener's, no other byte changes, and the
/// destination that it had is remembered under its port.
pub proof fn lemma_turned_to_listener(s: RedirectModel, p: Seq<u8>, flags: u32)
    requires
        is_ours(p, flags),
        header(p) >= 20,
        big(p, header(p)) != s.listen_port,
        s.target_ports.contains(big(p, header(p)) as u16),
        p[16] != 127,
    ensures
        ({
            let (r, out, after, changed) = redirect::passed(s, p, flags);
            let h = header(p);
            let port = big(p, h) as u16;
            &&& changed
            &&& out == flags
            &&& r.len() == p.len()
            &&& r[16] == p[12] && r[17] == p[13] && r[18] == p[14] && r[19] == p[15]
            &&& big(r, h + 2) == s.listen_port
            &&& forall|i: int|
                0 <= i < p.len() && !(16 <= i < 20) && !(h + 2 <= i < h + 4) ==> #[trigger] r[i]
                    == p[i]
            &&& after.nat.dom() == s.nat.dom().insert(port)
            &&& is_ip(after.nat[port].ip, p, 16)
            &&& after.nat[port].port == big(p, h + 2)
            &&& forall|k: u16| k != port && s.nat.dom().contains(k) ==> #[trigger] after.nat[k] == s.nat[k]
            &&& s.redirected < u64::MAX ==> after.redirected == s.redirected + 1
            &&& after.listen_port == s.listen_port && after.target_ports == s.target_ports
        }),
{
    let h = header(p);
    let l = s.listen_port;
    assert(256 * ((l / 256) as u8) + ((l % 256) as u8) == l);
}

/// A packet of the listener to a known port seems to come from the server: its sender is
/// the remembered destination, no other byte changes, and bit 17 of the flags says that it
/// comes in.
pub proof fn lemma_turned_back(s: RedirectModel, p: Seq<u8>, flags: u32)
    requires
        is_ours(p, flags),
        header(p) >= 20,
        big(p, header(p)) == s.listen_port,
        s.nat.dom().contains(big(p, header(p) + 2) as u16),
    ensures
        ({
            let (r, out, after, changed) = redirect::passed(s, p, flags);
            let h = header(p);
            let server = s.nat[big(p, h + 2) as u16];
            &&& changed
            &&& after == s
            &&& out == if (flags / 0x2_0000) % 2 == 1 {
                flags - 0x2_0000
            } else {
                flags as int
            }
            &&& r.len() == p.len()
            &&& is_ip(server.ip, r, 12)
            &&& big(r, h) == server.port
            &&& forall|i: int|
                0 <= i < p.len() && !(12 <= i < 16) && !(h <= i < h + 2) ==> #[trigger] r[i] == p[i]
        }),
{
    let h = header(p);
    let l = s.nat[big(p, h + 2) as u16].port;
    assert(256 * ((l / 256) as u8) + ((l % 256) as u8) == l);
}

/// The ports of a process are those of its rows; a row holds its port with the bytes
/// exchanged.
pub proof fn lemma_ports_of(rows: Seq<TcpRow>, pid: u32, n: int, port: u16)
    requires
        0 <= n <= rows.len(),
    ensures
        redirect::ports_until(rows, pid, n).contains(port) <==> exists|i: int|
            0 <= i < n && (#[trigger] rows[i]).pid == pid && rows[i].local_port % 0x1_0000 == (port
                % 256) * 256 + port / 256,
    decreases n,
{
    if n > 0 {
        lemma_ports_of(rows, pid, n - 1, port);
        let r = rows[n - 1];
        assert(redirect::row_port(r) == port <==> r.local_port % 0x1_0000 == (port % 256) * 256 + port
            / 256);
        if redirect::ports_until(rows, pid, n - 1).contains(port) {
            let i = choose|i: int|
                0 <= i < n - 1 && (#[trigger] rows[i]).pid == pid && rows[i].local_port % 0x1_0000
                    == (port % 256) * 256 + port / 256;
            assert(rows[i].pid == pid);
        }
    }
}

/// An address is written as its four numbers with points between them.
pub proof fn lemma_dotted(ip: Ipv4)
    ensures
        text::pieces(net::dotted(ip), '.') == seq![
            text::decimal(ip.a as nat),
            text::decimal(ip.b as nat),
            text::decimal(ip.c as nat),
            text::decimal(ip.d as nat),
        ],
{
    reveal_strlit(".");
    let a = text::decimal(ip.a as nat);
    let b = text::decimal(ip.b as nat);
    let c = text::decimal(ip.c as nat);
    let d = text::decimal(ip.d as nat);
    lemma_no_point(ip.a as nat);
    lemma_no_point(ip.b as nat);
    lemma_no_point(ip.c as nat);
    lemma_no_point(ip.d as nat);
    let o = seq!['.'];
    assert("."@ =~= o);
    assert(net::dotted(ip) =~= a + o + (b + o + (c + o + d)));
    text::lemma_pieces_first(a, b + o + (c + o + d), '.');
    text::lemma_pieces_first(b, c + o + d, '.');
    text::lemma_pieces_first(c, d, '.');
    text::lemma_first_in_is(d, text::Class::Is('.'), d.len() as int);
    assert(text::pieces(d, '.') =~= seq![d]);
    assert(seq![a] + (seq![b] + (seq![c] + seq![d])) =~= seq![a, b, c, d]);
}

proof fn lemma_no_point(n: nat)
    ensures
        !text::decimal(n).contains('.'),
        forall|i: int| 0 <= i < text::decimal(n).len() ==> #[trigger] text::decimal(n)[i] != '.',
{
    texts::lemma_decimal(n);
    assert forall|i: int| 0 <= i < text::decimal(n).len() implies #[trigger] text::decimal(n)[i]
        != '.' by {
        assert(plain::worth(text::decimal(n)[i]) is Some);
    }
    if text::decimal(n).contains('.') {
        let i = text::decimal(n).index_of('.');
        assert(text::decimal(n)[i] == '.');
    }
}

/// The first line of a request in plain HTTP is what stands before the first carriage
/// return; other bytes have none.
pub proof fn lemma_request_line(line: Seq<u8>, rest: Seq<u8>)
    requires
        forall|i: int| 0 <= i < line.len() ==> #[trigger] line[i] != 13,
        line.len() >= 4,
    ensures
        ({
            let b = line + seq![13u8] + rest;
            &&& line[0] == 71 && line[1] == 69 && line[2] == 84 && line[3] == 32
                ==> redirect::request_line(b) == Some(text::trimmed(bytes::utf8_text(line)))
            &&& line[0] == 22 ==> redirect::request_line(b) is None
        }),
{
    reveal_strlit("GET ");
    reveal_strlit("POST ");
    reveal_strlit("PUT ");
    reveal_strlit("HEAD ");
    reveal_strlit("DELETE ");
    reveal_strlit("PATCH ");
    reveal_strlit("OPTIONS");
    let b = line + seq![13u8] + rest;
    assert(b[0] == line[0] && b[1] == line[1] && b[2] == line[2] && b[3] == line[3]);
    assert("GET "@[0] == 'G' && "POST "@[0] == 'P' && "PUT "@[0] == 'P' && "HEAD "@[0] == 'H'
        && "DELETE "@[0] == 'D' && "PATCH "@[0] == 'P' && "OPTIONS"@[0] == 'O');
    if line[0] == 71 && line[1] == 69 && line[2] == 84 && line[3] == 32 {
        assert(redirect::begins_with(b, "GET "@)) by {
            assert("GET "@[1] == 'E' && "GET "@[2] == 'T' && "GET "@[3] == ' ');
        }
    }
    lemma_first_return(b, line.len() as int);
    assert(b.take(line.len() as int) =~= line);
}

proof fn lemma_first_return(b: Seq<u8>, n: int)
    requires
        0 <= n < b.len(),
        b[n] == 13,
        forall|i: int| 0 <= i < n ==> #[trigger] b[i] != 13,
    ensures
        redirect::first_return(b) == n,
    decreases n,
{
    if n > 0 {
        assert(b[0] != 13);
        let t = b.skip(1);
        assert forall|i: int| 0 <= i < n - 1 implies #[trigger] t[i] != 13 by {
            assert(t[i] == b[i + 1]);
        }
        lemma_first_return(t, n - 1);
    }
}

/// The reasons for which packets cannot be had, by their numbers.
pub proof fn lemma_open_errors(code: u32)
    ensures
        code == 5 ==> redirect::open_message(code)
            == "acesso negado ao WinDivert — rode o Quarry como Administrador."@,
        code == 2 || code == 3 ==> redirect::open_message(code)
            == "WinDivert64.sys não encontrado (coloque-o junto do quarry.exe)."@,
        code == 1275 ==> redirect::open_message(code)
            == "driver WinDivert bloqueado (provável anticheat/Driver Signature)."@,
        code != 5 && code != 2 && code != 3 && code != 1275 ==> redirect::open_message(code)
            == "WinDivertOpen falhou (erro "@ + text::decimal(code as nat) + ")."@,
{
}

/// Bit 17 of the flags says that a packet goes out; setting it changes no other bit.
pub proof fn lemma_outbound(flags: u32)
    ensures
        (flags / 0x2_0000) % 2 == 0 ==> redirect::with_outbound(flags, true) == flags + 0x2_0000
            && redirect::with_outbound(flags, false) == flags,
        (flags / 0x2_0000) % 2 == 1 ==> redirect::with_outbound(flags, true) == flags
            && redirect::with_outbound(flags, false) == flags - 0x2_0000,
{
}

} // verus!
