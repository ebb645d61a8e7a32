//! Passive capture of network metadata: addresses, ports, protocol and size of
//! each IPv4 packet, gathered per conversation. The contents are not looked at.
use crate::net;
use crate::net::Ipv4;
use vstd::prelude::*;

verus! {

/// The conversations that are kept at most.
pub const MAX_CONVS: usize = 4000;

/// The packets between a local port and a remote endpoint.
#[derive(Clone, Copy, Debug, PartialEq, Eq, Structural)]
pub struct Conversation {
    pub proto: u8,
    pub local_port: u16,
    pub remote_ip: Ipv4,
    pub remote_port: u16,
    pub packets: u64,
    pub bytes: u64,
    pub last_ms: u64,
}

/// The name of a protocol.
pub open spec fn proto_text(proto: u8) -> Seq<char> {
    if proto == 6 {
        "TCP"@
    } else if proto == 17 {
        "UDP"@
    } else if proto == 1 {
        "ICMP"@
    } else {
        "IP"@
    }
}

impl Conversation {
    /// The name of the protocol.
    pub fn proto_name(&self) -> (r: &'static str)
        ensures
            r@ == proto_text(self.proto),
    {
        match self.proto {
            6 => "TCP",
            17 => "UDP",
            1 => "ICMP",
            _ => "IP",
        }
    }
}

/// What identifies a conversation.
#[derive(Clone, Copy, Debug, PartialEq, Eq, Structural)]
pub struct Key {
    pub proto: u8,
    pub local_port: u16,
    pub remote_ip: Ipv4,
    pub remote_port: u16,
}

/// The key of a conversation.
pub open spec fn key_of(c: Conversation) -> Key {
    Key {
        proto: c.proto,
        local_port: c.local_port,
        remote_ip: c.remote_ip,
        remote_port: c.remote_port,
    }
}

/// What the headers of a packet say.
#[derive(Clone, Copy, Debug, PartialEq, Eq, Structural)]
pub struct Packet {
    pub proto: u8,
    pub src: Ipv4,
    pub dst: Ipv4,
    pub src_port: u16,
    pub dst_port: u16,
    pub total_len: u16,
}

/// Whether bytes are an IPv4 packet with a whole header.
pub open spec fn is_packet(p: Seq<u8>) -> bool {
    p.len() >= 20 && p[0] / 16 == 4 && 20 <= net::header_len(p) <= p.len()
}

/// The headers of an IPv4 packet. Only TCP and UDP have ports.
pub open spec fn dissected(p: Seq<u8>) -> Option<Packet> {
    let ihl = net::header_len(p);
    if !is_packet(p) {
        None
    } else {
        let has_ports = (p[9] == 6 || p[9] == 17) && p.len() >= ihl + 4;
        Some(
            Packet {
                proto: p[9],
                src: net::ip_at(p, 12),
                dst: net::ip_at(p, 16),
                src_port: if has_ports {
                    net::port_at(p, ihl)
                } else {
                    0
                },
                dst_port: if has_ports {
                    net::port_at(p, ihl + 2)
                } else {
                    0
                },
                total_len: net::port_at(p, 2),
            },
        )
    }
}

/// The conversation that a packet belongs to, seen from an interface: the
/// remote side is the sender of what arrives, else the receiver.
pub open spec fn key_for(iface: Ipv4, p: Packet) -> Key {
    if p.src != iface && p.dst == iface {
        Key {
            proto: p.proto,
            local_port: p.dst_port,
            remote_ip: p.src,
            remote_port: p.src_port,
        }
    } else {
        Key {
            proto: p.proto,
            local_port: p.src_port,
            remote_ip: p.dst,
            remote_port: p.dst_port,
        }
    }
}

/// Reads the headers of an IPv4 packet.
fn dissect(pkt: &[u8]) -> (r: Option<Packet>)
    ensures
        r == dissected(pkt@),
{
    let n: usize = pkt.len();
    if n < 20 {
        return None;
    }
    if pkt[0] / 16 != 4 {
        return None;
    }
    let ihl: usize = (pkt[0] % 16) as usize * 4;
    if ihl < 20 || n < ihl {
        return None;
    }
    let proto: u8 = pkt[9];
    let mut src_port: u16 = 0;
    let mut dst_port: u16 = 0;
    if (proto == 6 || proto == 17) && n - ihl >= 4 {
        src_port = net::read_port(pkt, ihl);
        dst_port = net::read_port(pkt, ihl + 2);
    }
    Some(
        Packet {
            proto,
            src: net::read_ip(pkt, 12),
            dst: net::read_ip(pkt, 16),
            src_port,
            dst_port,
            total_len: net::read_port(pkt, 2),
        },
    )
}

/// What has been gathered.
#[derive(Debug)]
pub struct CaptureShared {
    pub convs: Vec<Conversation>,
    pub total_packets: u64,
    pub total_bytes: u64,
}

/// The value of a `CaptureShared`.
#[verifier::ext_equal]
pub struct CaptureModel {
    pub convs: Seq<Conversation>,
    pub total_packets: u64,
    pub total_bytes: u64,
}

/// The sum modulo 2^64.
pub open spec fn plus(a: u64, b: int) -> u64 {
    ((a + b) % 0x1_0000_0000_0000_0000) as u64
}

/// The index of the conversation with a key.
pub open spec fn conv_index(convs: Seq<Conversation>, k: Key) -> Option<int>
    decreases convs.len(),
{
    if convs.len() == 0 {
        None
    } else if key_of(convs[0]) == k {
        Some(0)
    } else {
        match conv_index(convs.skip(1), k) {
            Some(i) => Some(i + 1),
            None => None,
        }
    }
}

/// The conversations after one more packet: the one with its key grows, else a
/// new one begins while there is room.
pub open spec fn counted(convs: Seq<Conversation>, k: Key, len: int, ms: u64) -> Seq<Conversation> {
    match conv_index(convs, k) {
        Some(i) => convs.update(
            i,
            Conversation {
                packets: plus(convs[i].packets, 1),
                bytes: plus(convs[i].bytes, len),
                last_ms: ms,
                ..convs[i]
            },
        ),
        None => if convs.len() < MAX_CONVS {
            convs.push(
                Conversation {
                    proto: k.proto,
                    local_port: k.local_port,
                    remote_ip: k.remote_ip,
                    remote_port: k.remote_port,
                    packets: 1,
                    bytes: len as u64,
                    last_ms: ms,
                },
            )
        } else {
            convs
        },
    }
}

/// What is gathered after some received bytes.
pub open spec fn ingested(s: CaptureModel, iface: Ipv4, pkt: Seq<u8>, ms: u64) -> CaptureModel {
    match dissected(pkt) {
        None => s,
        Some(p) => CaptureModel {
            convs: counted(s.convs, key_for(iface, p), p.total_len as int, ms),
            total_packets: plus(s.total_packets, 1),
            total_bytes: plus(s.total_bytes, p.total_len as int),
        },
    }
}

/// No two conversations have the same key, and there are not too many.
pub open spec fn well_formed(s: CaptureModel) -> bool {
    &&& s.convs.len() <= MAX_CONVS
    &&& forall|i: int, j: int|
        0 <= i < j < s.convs.len() ==> key_of(#[trigger] s.convs[i]) != key_of(
            #[trigger] s.convs[j],
        )
}

/// Finds the conversation with a key.
fn find_conv(convs: &Vec<Conversation>, k: Key) -> (r: Option<usize>)
    ensures
        match r {
            Some(i) => conv_index(convs@, k) == Some(i as int) && i < convs@.len(),
            None => conv_index(convs@, k) is None,
        },
{
    let n: usize = convs.len();
    let mut i: usize = 0;
    proof {
        assert(convs@.skip(0) =~= convs@);
    }
    while i < n
        invariant
            n == convs@.len(),
            i <= n,
            match conv_index(convs@.skip(i as int), k) {
                Some(j) => conv_index(convs@, k) == Some(j + i),
                None => conv_index(convs@, k) is None,
            },
        decreases n - i,
    {
        proof {
            assert(convs@.skip(i as int).skip(1) =~= convs@.skip(i + 1));
        }
        let c: Conversation = convs[i];
        if c.proto == k.proto && c.local_port == k.local_port && c.remote_ip == k.remote_ip
            && c.remote_port == k.remote_port {
            return Some(i);
        }
        i = i + 1;
    }
    None
}

impl CaptureShared {
    /// The value of what has been gathered.
    pub open spec fn model(self) -> CaptureModel {
        CaptureModel {
            convs: self.convs@,
            total_packets: self.total_packets,
            total_bytes: self.total_bytes,
        }
    }

    /// Nothing gathered yet.
    pub fn new() -> (r: Self)
        ensures
            r.model() == (CaptureModel { convs: Seq::empty(), total_packets: 0, total_bytes: 0 }),
            well_formed(r.model()),
    {
        CaptureShared { convs: Vec::new(), total_packets: 0, total_bytes: 0 }
    }

    /// Takes in the bytes received on an interface, `ms` after the start.
    pub fn ingest(&mut self, iface: Ipv4, pkt: &[u8], ms: u64)
        ensures
            final(self).model() == ingested(old(self).model(), iface, pkt@, ms),
            well_formed(old(self).model()) ==> well_formed(final(self).model()),
    {
        proof {
            lemma_ingest_keeps(self.model(), iface, pkt@, ms);
        }
        let p: Packet = match dissect(pkt) {
            Some(p) => p,
            None => {
                return;
            },
        };
        let k: Key = if p.src != iface && p.dst == iface {
            Key {
                proto: p.proto,
                local_port: p.dst_port,
                remote_ip: p.src,
                remote_port: p.src_port,
            }
        } else {
            Key {
                proto: p.proto,
                local_port: p.src_port,
                remote_ip: p.dst,
                remote_port: p.dst_port,
            }
        };
        let len: u64 = p.total_len as u64;
        self.total_packets = self.total_packets.wrapping_add(1);
        self.total_bytes = self.total_bytes.wrapping_add(len);
        match find_conv(&self.convs, k) {
            Some(i) => {
                let c: Conversation = self.convs[i];
                let next: Conversation = Conversation {
                    proto: c.proto,
                    local_port: c.local_port,
                    remote_ip: c.remote_ip,
                    remote_port: c.remote_port,
                    packets: c.packets.wrapping_add(1),
                    bytes: c.bytes.wrapping_add(len),
                    last_ms: ms,
                };
                self.convs.set(i, next);
            },
            None => {
                if self.convs.len() < MAX_CONVS {
                    self.convs.push(
                        Conversation {
                            proto: k.proto,
                            local_port: k.local_port,
                            remote_ip: k.remote_ip,
                            remote_port: k.remote_port,
                            packets: 1,
                            bytes: len,
                            last_ms: ms,
                        },
                    );
                }
            },
        }
    }
}

proof fn lemma_conv_index(convs: Seq<Conversation>, k: Key)
    ensures
        match conv_index(convs, k) {
            Some(i) => 0 <= i < convs.len() && key_of(convs[i]) == k,
            None => forall|i: int| 0 <= i < convs.len() ==> key_of(#[trigger] convs[i]) != k,
        },
    decreases convs.len(),
{
    if convs.len() > 0 && key_of(convs[0]) != k {
        lemma_conv_index(convs.skip(1), k);
        if conv_index(convs.skip(1), k) is None {
            assert forall|i: int| 0 <= i < convs.len() implies key_of(#[trigger] convs[i])
                != k by {
                if i > 0 {
                    assert(convs.skip(1)[i - 1] == convs[i]);
                }
            }
        }
    }
}

/// Every packet keeps the conversations distinct and within their limit.
pub proof fn lemma_ingest_keeps(s: CaptureModel, iface: Ipv4, pkt: Seq<u8>, ms: u64)
    ensures
        well_formed(s) ==> well_formed(ingested(s, iface, pkt, ms)),
{
    if let Some(p) = dissected(pkt) {
        lemma_conv_index(s.convs, key_for(iface, p));
    }
}

/// A packet and its answer belong to the same conversation, if the interface is
/// one of the two ends and not both, or the ends are the same.
pub proof fn lemma_both_directions(iface: Ipv4, p: Packet)
    requires
        (p.src == iface) != (p.dst == iface) || (p.src == p.dst && p.src_port == p.dst_port),
    ensures
        key_for(iface, p) == key_for(
            iface,
            Packet {
                src: p.dst,
                dst: p.src,
                src_port: p.dst_port,
                dst_port: p.src_port,
                ..p
            },
        ),
{
}

/// The packets of all conversations.
pub open spec fn packets_in(convs: Seq<Conversation>) -> int
    decreases convs.len(),
{
    if convs.len() == 0 {
        0
    } else {
        packets_in(convs.drop_last()) + convs.last().packets
    }
}

/// The bytes of all conversations.
pub open spec fn bytes_in(convs: Seq<Conversation>) -> int
    decreases convs.len(),
{
    if convs.len() == 0 {
        0
    } else {
        bytes_in(convs.drop_last()) + convs.last().bytes
    }
}

/// Every packet that finds its conversation, or room for a new one, keeps the
/// totals the sums over the conversations, as long as they do not overflow.
pub proof fn lemma_volume(s: CaptureModel, iface: Ipv4, pkt: Seq<u8>, ms: u64)
    requires
        packets_in(s.convs) == s.total_packets,
        bytes_in(s.convs) == s.total_bytes,
        dissected(pkt) matches Some(p) ==> {
            &&& s.convs.len() < MAX_CONVS || conv_index(s.convs, key_for(iface, p)) is Some
            &&& s.total_packets < u64::MAX
            &&& s.total_bytes + p.total_len <= u64::MAX
        },
    ensures
        packets_in(ingested(s, iface, pkt, ms).convs) == ingested(s, iface, pkt, ms).total_packets,
        bytes_in(ingested(s, iface, pkt, ms).convs) == ingested(s, iface, pkt, ms).total_bytes,
{
    if let Some(p) = dissected(pkt) {
        let k = key_for(iface, p);
        let after = counted(s.convs, k, p.total_len as int, ms);
        lemma_conv_index(s.convs, k);
        match conv_index(s.convs, k) {
            Some(i) => {
                lemma_updated(s.convs, i, after[i]);
            },
            None => {
                assert(after.drop_last() =~= s.convs);
            },
        }
    }
}

/// Whether the conversations hold no more than the totals, and all of them while
/// there is room for another one.
pub open spec fn tallied(s: CaptureModel) -> bool {
    &&& packets_in(s.convs) <= s.total_packets
    &&& bytes_in(s.convs) <= s.total_bytes
    &&& s.convs.len() < MAX_CONVS ==> packets_in(s.convs) == s.total_packets && bytes_in(s.convs)
        == s.total_bytes
}

/// Every packet keeps the sums over the conversations within the totals, and
/// equal to them while there is room, as long as the totals do not overflow.
pub proof fn lemma_tallied(s: CaptureModel, iface: Ipv4, pkt: Seq<u8>, ms: u64)
    requires
        tallied(s),
        dissected(pkt) matches Some(p) ==> s.total_packets < u64::MAX && s.total_bytes + p.total_len
            <= u64::MAX,
    ensures
        tallied(ingested(s, iface, pkt, ms)),
{
    if let Some(p) = dissected(pkt) {
        let k = key_for(iface, p);
        let after = counted(s.convs, k, p.total_len as int, ms);
        lemma_conv_index(s.convs, k);
        match conv_index(s.convs, k) {
            Some(i) => {
                lemma_updated(s.convs, i, after[i]);
            },
            None => {
                if s.convs.len() < MAX_CONVS {
                    assert(after.drop_last() =~= s.convs);
                }
            },
        }
    }
}

/// What is gathered from bytes received on an interface, each with its time.
pub open spec fn gathered(iface: Ipv4, received: Seq<(Seq<u8>, u64)>) -> CaptureModel
    decreases received.len(),
{
    if received.len() == 0 {
        CaptureModel { convs: Seq::empty(), total_packets: 0, total_bytes: 0 }
    } else {
        let (pkt, ms) = received.last();
        ingested(gathered(iface, received.drop_last()), iface, pkt, ms)
    }
}

/// The lengths that received packets say they have.
pub open spec fn volume(received: Seq<(Seq<u8>, u64)>) -> int
    decreases received.len(),
{
    if received.len() == 0 {
        0
    } else {
        volume(received.drop_last()) + (match dissected(received.last().0) {
            Some(p) => p.total_len as int,
            None => 0,
        })
    }
}

/// Whatever was received, the conversations are distinct and within their limit,
/// their sums are at most the totals and equal to them while there is room, and
/// the bytes are those of all packets, as long as the totals do not overflow.
pub proof fn lemma_gathered(iface: Ipv4, received: Seq<(Seq<u8>, u64)>)
    requires
        received.len() <= u64::MAX,
        volume(received) <= u64::MAX,
    ensures
        well_formed(gathered(iface, received)),
        tallied(gathered(iface, received)),
        gathered(iface, received).total_packets <= received.len(),
        gathered(iface, received).total_bytes == volume(received),
    decreases received.len(),
{
    if received.len() > 0 {
        let (pkt, ms) = received.last();
        let before = gathered(iface, received.drop_last());
        lemma_volume_grows(received.drop_last());
        lemma_gathered(iface, received.drop_last());
        lemma_ingest_keeps(before, iface, pkt, ms);
        lemma_tallied(before, iface, pkt, ms);
    }
}

/// What is no IPv4 packet with a whole header changes nothing.
pub proof fn lemma_no_packet(s: CaptureModel, iface: Ipv4, pkt: Seq<u8>, ms: u64)
    requires
        pkt.len() < 20 || pkt[0] / 16 != 4 || !(20 <= 4 * (pkt[0] % 16) <= pkt.len()),
    ensures
        ingested(s, iface, pkt, ms) == s,
{
}

proof fn lemma_volume_grows(received: Seq<(Seq<u8>, u64)>)
    ensures
        volume(received) >= 0,
    decreases received.len(),
{
    if received.len() > 0 {
        lemma_volume_grows(received.drop_last());
    }
}

proof fn lemma_updated(convs: Seq<Conversation>, i: int, c: Conversation)
    requires
        0 <= i < convs.len(),
    ensures
        convs[i].packets <= packets_in(convs),
        convs[i].bytes <= bytes_in(convs),
        packets_in(convs.update(i, c)) == packets_in(convs) - convs[i].packets + c.packets,
        bytes_in(convs.update(i, c)) == bytes_in(convs) - convs[i].bytes + c.bytes,
    decreases convs.len(),
{
    lemma_sums(convs.drop_last());
    if i == convs.len() - 1 {
        assert(convs.update(i, c).drop_last() =~= convs.drop_last());
    } else {
        lemma_updated(convs.drop_last(), i, c);
        assert(convs.update(i, c).drop_last() =~= convs.drop_last().update(i, c));
    }
}

proof fn lemma_sums(convs: Seq<Conversation>)
    ensures
        packets_in(convs) >= 0,
        bytes_in(convs) >= 0,
    decreases convs.len(),
{
    if convs.len() > 0 {
        lemma_sums(convs.drop_last());
    }
}

} // verus!
