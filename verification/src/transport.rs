//! Stripping link, network and transport headers off a captured packet.

use vstd::prelude::*;

verus! {

/// A TCP segment carried over IPv4.
pub struct TcpSegment {
    pub src_ip: [u8; 4],
    pub src_port: u16,
    pub dst_port: u16,
    pub tcp_seq: u32,
    pub data: Vec<u8>,
}

impl TcpSegment {
    pub open spec fn view(&self) -> (Seq<u8>, u16, u16, u32, Seq<u8>) {
        (self.src_ip@, self.src_port, self.dst_port, self.tcp_seq, self.data@)
    }
}

/// What `etherparse::SlicedPacket::from_ethernet` finds in an Ethernet frame
/// when it holds a TCP segment over IPv4: source address, ports, sequence
/// number and payload; `None` for anything else.
pub uninterp spec fn tcp_ipv4_segment(raw: Seq<u8>) -> Option<(Seq<u8>, u16, u16, u32, Seq<u8>)>;

/// Slices an Ethernet frame with `etherparse::SlicedPacket::from_ethernet`
/// and keeps the TCP-over-IPv4 case. What the slicer makes of the bytes is
/// named by `tcp_ipv4_segment`, not described.
#[verifier::external_body]
fn slice_tcp_ipv4(raw: &[u8]) -> (r: Option<TcpSegment>)
    ensures
        match tcp_ipv4_segment(raw@) {
            Some(t) => r matches Some(s) && s.view() == t,
            None => r is None,
        },
{
    let p = etherparse::SlicedPacket::from_ethernet(raw).ok()?;
    let src_ip = match p.net? {
        etherparse::NetSlice::Ipv4(ip) => ip.header().source(),
        _ => return None,
    };
    match p.transport? {
        etherparse::TransportSlice::Tcp(t) => Some(TcpSegment {
            src_ip,
            src_port: t.source_port(),
            dst_port: t.destination_port(),
            tcp_seq: t.sequence_number(),
            data: t.payload().to_vec(),
        }),
        _ => None,
    }
}

/// The application payload of a captured TCP/IPv4 packet, with its flow
/// coordinates; `None` for other packets and for empty payloads.
pub fn extract_payload(raw: &[u8]) -> (r: Option<TcpSegment>)
    ensures
        match tcp_ipv4_segment(raw@) {
            Some(t) => if t.4.len() == 0 { r is None } else { r matches Some(s) && s.view() == t },
            None => r is None,
        },
{
    let seg = slice_tcp_ipv4(raw)?;
    if seg.data.len() == 0 {
        return None;
    }
    Some(seg)
}

} // verus!
