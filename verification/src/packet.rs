//! What the routing tables read of a tunnelled packet.
use vstd::prelude::*;

verus! {

/// Length of an IPv4 header without options.
pub const IPV4_HEADER_LEN: usize = 20;

/// The traffic class that decides by which queue a packet leaves.
#[derive(Clone, Copy, Debug, PartialEq, Eq, Structural)]
pub enum PacketClass {
    Latency,
    Priority,
    Bulk,
}

/// The destination of an IPv4 packet: octets 16 to 19 of its header.
pub open spec fn dst_ipv4(packet: Seq<u8>) -> Option<Seq<u8>> {
    if packet.len() >= IPV4_HEADER_LEN && packet[0] / 16 == 4 {
        Some(packet.subrange(16, 20))
    } else {
        None
    }
}

/// Reads the destination address of an IPv4 packet.
pub fn extract_dst_ipv4(packet: &[u8]) -> (r: Option<[u8; 4]>)
    ensures
        match r {
            Some(ip) => dst_ipv4(packet@) == Some(ip@),
            None => dst_ipv4(packet@) is None,
        },
{
    if packet.len() >= IPV4_HEADER_LEN && packet[0] / 16 == 4 {
        let r = [packet[16], packet[17], packet[18], packet[19]];
        proof {
            assert(r@ =~= packet@.subrange(16, 20));
        }
        Some(r)
    } else {
        None
    }
}

/// The destination of a packet stands in bytes 16 to 19 of an IPv4 header; anything that is
/// too short or of another version has none.
pub proof fn law_destination_of_a_packet(packet: Seq<u8>)
    ensures
        packet.len() < 20 ==> dst_ipv4(packet) is None,
        packet.len() > 0 && (packet[0] < 0x40 || packet[0] > 0x4f) ==> dst_ipv4(packet) is None,
        packet.len() >= 20 && 0x40 <= packet[0] <= 0x4f ==> dst_ipv4(packet) == Some(
            seq![packet[16], packet[17], packet[18], packet[19]],
        ),
{
    if packet.len() >= 20 {
        assert(packet.subrange(16, 20) =~= seq![packet[16], packet[17], packet[18], packet[19]]);
    }
}

} // verus!
