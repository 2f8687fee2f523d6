//! The preimage channel: the oracle a guest program talks to, the layout of a
//! cached preimage, and the framing of the hints a guest writes.

use crate::bits::{bytes_word, from_be_bytes, to_be_bytes, word_bytes};
use vstd::prelude::*;

verus! {

/// A source of preimages. `hint` tells it what a later lookup will ask for;
/// `get_preimage` returns the blob filed under a 32-byte key. Neither call is
/// constrained: the interpreter works with whatever comes back.
pub trait PreimageOracle {
    fn hint(&self, v: &[u8]);

    fn get_preimage(&self, k: [u8; 32]) -> Vec<u8>;
}

/// A preimage as it is cached: its length, big-endian in four bytes, then
/// the preimage. A length of 2^32 or more is recorded modulo 2^32.
pub open spec fn framed(data: Seq<u8>) -> Seq<u8> {
    word_bytes((data.len() % 0x1_0000_0000) as u32) + data
}

/// Whether `buf` is some preimage behind its length prefix.
pub open spec fn is_framed(buf: Seq<u8>) -> bool {
    buf.len() >= 4 && buf == framed(buf.skip(4))
}

/// How many bytes a read at `offset` finds: what is left of the buffer, at
/// most 32, and none at or past its end.
pub open spec fn available(buf: Seq<u8>, offset: u32) -> nat {
    if offset >= buf.len() {
        0
    } else if buf.len() - offset >= 32 {
        32
    } else {
        (buf.len() - offset) as nat
    }
}

/// The 32-byte window a read at `offset` returns: the available bytes, then zeros.
pub open spec fn chunk(buf: Seq<u8>, offset: u32) -> Seq<u8> {
    Seq::new(
        32,
        |i: int|
            if i < available(buf, offset) {
                buf[offset + i]
            } else {
                0u8
            },
    )
}

/// Puts the length prefix in front of a preimage.
pub fn frame_preimage(data: &Vec<u8>) -> (buf: Vec<u8>)
    ensures
        buf@ == framed(data@),
        is_framed(buf@),
{
    let len: u32 = (data.len() as u64 % 0x1_0000_0000) as u32;
    let prefix: [u8; 4] = to_be_bytes(len);
    let mut buf: Vec<u8> = Vec::new();
    buf.push(prefix[0]);
    buf.push(prefix[1]);
    buf.push(prefix[2]);
    buf.push(prefix[3]);
    let mut i: usize = 0;
    while i < data.len()
        invariant
            i <= data.len(),
            buf@ == word_bytes(len) + data@.subrange(0, i as int),
        decreases data.len() - i,
    {
        buf.push(data[i]);
        i = i + 1;
        assert(buf@ =~= word_bytes(len) + data@.subrange(0, i as int));
    }
    assert(buf@ =~= framed(data@));
    assert(buf@.skip(4) =~= data@);
    buf
}

/// Reads up to 32 bytes of a cached preimage starting at `offset`, and says
/// how many of them were there.
pub fn preimage_chunk(buf: &Vec<u8>, offset: u32) -> (r: ([u8; 32], u32))
    ensures
        r.0@ == chunk(buf@, offset),
        r.1 == available(buf@, offset),
{
    let mut data: [u8; 32] = [0u8; 32];
    let start: usize = offset as usize;
    let count: usize = if start >= buf.len() {
        0
    } else if buf.len() - start >= 32 {
        32
    } else {
        buf.len() - start
    };
    let mut i: usize = 0;
    while i < count
        invariant
            i <= count <= 32,
            count == available(buf@, offset),
            count > 0 ==> start + count <= buf@.len() <= usize::MAX,
            start == offset,
            forall|j: int| 0 <= j < i ==> data@[j] == buf@[offset + j],
            forall|j: int| i <= j < 32 ==> data@[j] == 0u8,
        decreases count - i,
    {
        data[i] = buf[start + i];
        i = i + 1;
    }
    assert(data@ =~= chunk(buf@, offset));
    (data, count as u32)
}

/// The payload length that the first four bytes of `buf` announce.
pub open spec fn record_len(buf: Seq<u8>) -> int
    recommends
        buf.len() >= 4,
{
    bytes_word(buf) as int
}

/// Whether `buf` starts with a whole record: a four-byte big-endian length
/// and that many payload bytes.
pub open spec fn has_record(buf: Seq<u8>) -> bool {
    buf.len() >= 4 && 4 + record_len(buf) <= buf.len()
}

/// The payloads of the whole records at the front of `buf`, in order.
pub open spec fn hint_payloads(buf: Seq<u8>) -> Seq<Seq<u8>>
    decreases buf.len(),
{
    if has_record(buf) {
        seq![buf.subrange(4, 4 + record_len(buf))] + hint_payloads(
            buf.skip(4 + record_len(buf)),
        )
    } else {
        Seq::empty()
    }
}

/// What is left of `buf` behind its whole records: an unfinished record, or nothing.
pub open spec fn hint_residue(buf: Seq<u8>) -> Seq<u8>
    decreases buf.len(),
{
    if has_record(buf) {
        hint_residue(buf.skip(4 + record_len(buf)))
    } else {
        buf
    }
}

spec fn pending(more: bool) -> int {
    if more {
        1
    } else {
        0
    }
}

/// The views of a list of byte vectors.
pub open spec fn payload_views(hints: Seq<Vec<u8>>) -> Seq<Seq<u8>> {
    Seq::new(hints.len(), |i: int| hints[i]@)
}

/// Takes every whole record off the front of the hint buffer and returns
/// the payloads in the order they were written. An unfinished record stays.
pub fn extract_hints(buf: &mut Vec<u8>) -> (hints: Vec<Vec<u8>>)
    ensures
        payload_views(hints@) == hint_payloads(old(buf)@),
        final(buf)@ == hint_residue(old(buf)@),
{
    let mut hints: Vec<Vec<u8>> = Vec::new();
    let total: usize = buf.len();
    let mut pos: usize = 0;
    let mut more: bool = true;
    proof {
        assert(buf@.skip(0) =~= buf@);
        assert(payload_views(hints@) + hint_payloads(buf@) =~= hint_payloads(buf@));
    }
    while more
        invariant
            pos <= total == buf@.len(),
            buf@ == old(buf)@,
            hint_payloads(buf@) == payload_views(hints@) + hint_payloads(buf@.skip(pos as int)),
            hint_residue(buf@) == hint_residue(buf@.skip(pos as int)),
            !more ==> !has_record(buf@.skip(pos as int)),
        decreases total - pos + pending(more),
    {
        let ghost rest: Seq<u8> = buf@.skip(pos as int);
        if total - pos < 4 {
            more = false;
        } else {
            let head: [u8; 4] = [buf[pos], buf[pos + 1], buf[pos + 2], buf[pos + 3]];
            let len: u32 = from_be_bytes(&head);
            assert(bytes_word(head@) == bytes_word(rest));
            if len as u64 > (total - pos - 4) as u64 {
                more = false;
            } else {
                let len: usize = len as usize;
                let mut payload: Vec<u8> = Vec::new();
                let mut j: usize = 0;
                while j < len
                    invariant
                        j <= len,
                        pos + 4 + len <= total == buf@.len(),
                        payload@ == buf@.subrange(pos + 4, pos + 4 + j),
                    decreases len - j,
                {
                    payload.push(buf[pos + 4 + j]);
                    j = j + 1;
                    assert(payload@ =~= buf@.subrange(pos + 4, pos + 4 + j));
                }
                assert(payload@ =~= rest.subrange(4, 4 + len));
                assert(rest.skip(4 + len) =~= buf@.skip(pos + 4 + len));
                assert(payload_views(hints@.push(payload)) =~= payload_views(hints@) + seq![
                    payload@,
                ]);
                hints.push(payload);
                pos = pos + 4 + len;
            }
        }
    }
    let rest: Vec<u8> = buf.split_off(pos);
    assert(rest@ =~= old(buf)@.skip(pos as int));
    *buf = rest;
    assert(hint_payloads(old(buf)@.skip(pos as int)) =~= Seq::<Seq<u8>>::empty());
    assert(payload_views(hints@) + Seq::<Seq<u8>>::empty() =~= payload_views(hints@));
    hints
}

} // verus!
