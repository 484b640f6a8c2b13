use vstd::prelude::*;

use crate::frame::{be_u32, lemma_u32_round_trip, push_u32_be, read_u32_be, u32_be};

verus! {

/// The stream type reserved for the heartbeat stream.
pub const HEARTBEAT_TYPE: u32 = 0xFFFF_FFFF;

/// Bytes of the type tag that opens every typed stream.
pub const TAG_LEN: usize = 4;

/// The tag a typed stream starts with: its type, big-endian.
pub fn encode_type(typ: u32) -> (r: Vec<u8>)
    ensures
        r@ == u32_be(typ),
{
    let mut r: Vec<u8> = Vec::with_capacity(TAG_LEN);
    push_u32_be(&mut r, typ);
    assert(r@ =~= u32_be(typ));
    r
}

/// The type named by the first four bytes of a stream, or `None` where
/// fewer than four arrived: such a stream is dropped.
pub fn decode_type(b: &[u8]) -> (r: Option<u32>)
    ensures
        b@.len() >= TAG_LEN ==> r == Some(be_u32(b@.take(4))),
        b@.len() < TAG_LEN ==> r.is_none(),
{
    if b.len() < TAG_LEN {
        return None;
    }
    let t = read_u32_be(b, 0);
    assert(b@.subrange(0, 4) =~= b@.take(4));
    Some(t)
}

/// The tag read back gives the type it was written from, whatever user
/// bytes follow it.
pub proof fn lemma_type_round_trip(typ: u32, rest: Seq<u8>)
    ensures
        be_u32((u32_be(typ) + rest).take(4)) == typ,
{
    assert((u32_be(typ) + rest).take(4) =~= u32_be(typ));
    lemma_u32_round_trip(typ);
}

} // verus!
