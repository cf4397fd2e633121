//! The frames that carry proxied streams through the tunnel: a six-byte magic, a
//! kind, a stream number and a payload.
use vstd::prelude::*;
use crate::octets::{
    be_bytes, be_nat, bytes_start_with, has_prefix, lemma_be_bytes_of_nat, lemma_be_nat_of_bytes,
    lemma_pow256, push_be, push_bytes, read_be, sub_bytes,
};

verus! {

/// Length of what precedes the payload.
pub const HEADER_LEN: usize = 15;

/// Most payload bytes of a data frame.
pub const MAX_DATA: usize = 2000;

/// Asks for a stream to be opened.
pub const OPEN: u8 = 1;

/// Tells that a stream was opened.
pub const OPEN_OK: u8 = 2;

/// Tells that a stream could not be opened.
pub const OPEN_ERR: u8 = 3;

/// Carries bytes of a stream.
pub const DATA: u8 = 4;

/// Ends a stream.
pub const CLOSE: u8 = 5;

/// A frame taken apart.
#[derive(Debug)]
pub struct Frame {
    pub kind: u8,
    pub stream_id: u64,
    pub payload: Vec<u8>,
}

/// The wire form of a frame.
pub open spec fn frame_bytes(
    magic: Seq<u8>,
    kind: u8,
    stream_id: u64,
    payload: Seq<u8>,
) -> Seq<u8> {
    magic + seq![kind] + be_bytes(stream_id as nat, 8) + payload
}

/// Whether a packet is a frame under `magic`.
pub open spec fn frame_shaped(magic: Seq<u8>, packet: Seq<u8>) -> bool {
    packet.len() >= HEADER_LEN && has_prefix(packet, magic)
}

/// A packet is frame shaped if and only if it is the wire form of some frame, and
/// the parts of that frame can be read off it.
pub proof fn law_frame_shape(magic: Seq<u8>, packet: Seq<u8>)
    requires
        magic.len() == 6,
        frame_shaped(magic, packet),
    ensures
        packet == frame_bytes(
            magic,
            packet[6],
            be_nat(packet.subrange(7, 15)) as u64,
            packet.skip(15),
        ),
{
    let mid = packet.subrange(7, 15);
    lemma_be_bytes_of_nat(mid);
    lemma_pow256();
    let f = frame_bytes(magic, packet[6], be_nat(mid) as u64, packet.skip(15));
    assert(packet.take(6) == magic);
    assert forall|i: int| 0 <= i < packet.len() implies packet[i] == f[i] by {
        if i < 6 {
            assert(packet.take(6)[i] == packet[i]);
        } else if 7 <= i < 15 {
            assert(mid[i - 7] == packet[i]);
        }
    }
    assert(f =~= packet);
}

/// Every wire form is frame shaped, and its parts are determined by it: taking
/// apart what was put together gives the same kind, stream and payload.
pub proof fn law_frame_round_trip(magic: Seq<u8>, kind: u8, stream_id: u64, payload: Seq<u8>)
    requires
        magic.len() == 6,
    ensures
        ({
            let f = frame_bytes(magic, kind, stream_id, payload);
            &&& frame_shaped(magic, f)
            &&& f[6] == kind
            &&& be_nat(f.subrange(7, 15)) == stream_id
            &&& f.skip(15) == payload
            &&& f.len() == HEADER_LEN + payload.len()
        }),
{
    let f = frame_bytes(magic, kind, stream_id, payload);
    lemma_pow256();
    lemma_be_nat_of_bytes(stream_id as nat, 8);
    assert(f.take(6) =~= magic);
    assert(f.subrange(7, 15) =~= be_bytes(stream_id as nat, 8));
    assert(f.skip(15) =~= payload);
}

/// Whether a packet is a frame under `magic`.
pub fn is_frame_of(magic: &[u8; 6], packet: &[u8]) -> (r: bool)
    ensures
        r == frame_shaped(magic@, packet@),
{
    packet.len() >= HEADER_LEN && bytes_start_with(packet, magic.as_slice())
}

/// Takes a frame apart.
pub fn parse_frame_of(magic: &[u8; 6], packet: &[u8]) -> (r: Option<Frame>)
    ensures
        match r {
            Some(frame) => packet@ == frame_bytes(
                magic@,
                frame.kind,
                frame.stream_id,
                frame.payload@,
            ) && frame_shaped(magic@, packet@),
            None => !frame_shaped(magic@, packet@),
        },
{
    if !is_frame_of(magic, packet) {
        return None;
    }
    let stream_id = read_be(packet, 7, 15);
    let payload = sub_bytes(packet, HEADER_LEN, packet.len());
    proof {
        law_frame_shape(magic@, packet@);
        assert(payload@ =~= packet@.skip(15));
    }
    Some(Frame { kind: packet[6], stream_id, payload })
}

/// Puts a frame together.
pub fn encode_frame_of(magic: &[u8; 6], kind: u8, stream_id: u64, payload: &[u8]) -> (r: Vec<u8>)
    ensures
        r@ == frame_bytes(magic@, kind, stream_id, payload@),
        r@.len() == HEADER_LEN + payload@.len(),
{
    let mut frame: Vec<u8> = Vec::new();
    push_bytes(&mut frame, magic.as_slice());
    frame.push(kind);
    push_be(&mut frame, stream_id, 8);
    push_bytes(&mut frame, payload);
    proof {
        assert(frame@ =~= frame_bytes(magic@, kind, stream_id, payload@));
        law_frame_round_trip(magic@, kind, stream_id, payload@);
    }
    frame
}

} // verus!
