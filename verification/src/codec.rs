//! Wire-format encoding: big-endian sixteen-bit fields and the two header
//! shapes, a simple two-byte length header and an addressed six-byte header.

use vstd::prelude::*;

verus! {

/// Largest total frame size (header and payload together) that the two-byte
/// big-endian length field of the wire format can express.
pub const MAX_FRAME_LEN: usize = 65535;

/// The value that a big-endian pair of bytes stands for.
pub open spec fn be16(hi: u8, lo: u8) -> int {
    hi * 256 + lo
}

/// High byte of the low sixteen bits of a value.
pub open spec fn hi_byte(n: int) -> u8 {
    ((n / 256) % 256) as u8
}

/// Low byte of a value.
pub open spec fn lo_byte(n: int) -> u8 {
    (n % 256) as u8
}

/// A value below 65536 survives the trip through its two big-endian bytes.
pub proof fn lemma_be16_of_bytes(n: int)
    requires
        0 <= n < 65536,
    ensures
        be16(hi_byte(n), lo_byte(n)) == n,
{
    vstd::arithmetic::div_mod::lemma_fundamental_div_mod(n, 256);
}

/// The two header bytes of a simple frame decode back to its total length,
/// and stripping them yields the payload again.
pub proof fn lemma_simple_frame_header(p: Seq<u8>)
    requires
        p.len() + 2 <= MAX_FRAME_LEN,
    ensures
        simple_frame(p).len() == p.len() + 2,
        be16(simple_frame(p)[0], simple_frame(p)[1]) == p.len() + 2,
        simple_frame(p).skip(2) == p,
{
    lemma_be16_of_bytes(p.len() + 2 as int);
    assert(simple_frame(p).skip(2) =~= p);
}

/// The six-byte addressed header: sender id, message id and total frame
/// length, each sent as the two big-endian bytes of its low sixteen bits.
pub open spec fn addressed_header(from: int, id: int, size: int) -> Seq<u8> {
    seq![hi_byte(from), lo_byte(from), hi_byte(id), lo_byte(id), hi_byte(size), lo_byte(size)]
}

/// Wire form of a payload under the simple header: the total frame length
/// (payload plus the two header bytes), big-endian, then the payload.
pub open spec fn simple_frame(payload: Seq<u8>) -> Seq<u8> {
    seq![hi_byte(payload.len() + 2 as int), lo_byte(payload.len() + 2 as int)] + payload
}

/// Wire form of a payload under the addressed header: the six header bytes
/// (the length field counts them), then the payload.
pub open spec fn addressed_frame(from: int, id: int, payload: Seq<u8>) -> Seq<u8> {
    addressed_header(from, id, payload.len() + 6 as int) + payload
}

/// Builds the six-byte addressed header exactly as it goes on the wire.
pub fn get_header(from: u32, id: u32, size: u32) -> (header: [u8; 6])
    ensures
        header@ == addressed_header(from as int, id as int, size as int),
{
    let byte0 = ((from / 256) % 256) as u8;
    let byte1 = (from % 256) as u8;

    let byte2 = ((id / 256) % 256) as u8;
    let byte3 = (id % 256) as u8;

    let byte4 = ((size / 256) % 256) as u8;
    let byte5 = (size % 256) as u8;

    let header = [byte0, byte1, byte2, byte3, byte4, byte5];
    proof {
        assert(header@ =~= addressed_header(from as int, id as int, size as int));
    }
    header
}

/// Reads the connection id a peer announces: the first two bytes of its
/// greeting, big-endian.
pub fn get_id(response: &Vec<u8>) -> (id: u32)
    requires
        response@.len() >= 2,
    ensures
        id == be16(response@[0], response@[1]),
{
    (response[0] as u32) * 256 + (response[1] as u32)
}

/// Stamps the addressed header onto an outbound payload: the frame length it
/// declares is the payload length plus the six header bytes.
pub fn stamp_header(bytes: Vec<u8>, from: u32, id: u32) -> (framed: Vec<u8>)
    requires
        bytes@.len() + 6 <= u32::MAX,
    ensures
        framed@ == addressed_frame(from as int, id as int, bytes@),
{
    let size = (bytes.len() + 6) as u32;
    let header = get_header(from, id, size);
    let mut framed = vstd::slice::slice_to_vec(header.as_slice());
    let mut rest = bytes;
    framed.append(&mut rest);
    framed
}

} // verus!
