//! The wire format: length-prefixed frames, `[u32 big-endian length][payload]`, both ways.
//!
//! A frame to the host starts with a one-byte tag: `+` for success and `-` for an error, each
//! followed by text, and `.` for raw data.

use vstd::prelude::*;

verus! {

/// An inbound frame claiming to be larger than this is refused: a bad length must not turn into
/// a multi-megabyte allocation.
pub const MAX_FRAME: usize = 512 * 1024;

/// The tag of a reply that says a command succeeded.
pub const TAG_OK: u8 = 0x2b;

/// The tag of a reply that says a command failed.
pub const TAG_ERR: u8 = 0x2d;

/// The tag of a frame of data that precedes a reply.
pub const TAG_DATA: u8 = 0x2e;

/// The four bytes of a 32-bit number, most significant first.
pub open spec fn big_endian(n: int) -> Seq<u8> {
    seq![
        (n / 0x100_0000 % 0x100) as u8,
        (n / 0x1_0000 % 0x100) as u8,
        (n / 0x100 % 0x100) as u8,
        (n % 0x100) as u8,
    ]
}

/// The frame of a payload: its length, modulo the 32 bits there are for it, and the payload.
pub open spec fn framed(payload: Seq<u8>) -> Seq<u8> {
    big_endian(payload.len() as int % 0x1_0000_0000) + payload
}

/// The frame of a tag and the data behind it.
pub open spec fn tagged(tag: u8, data: Seq<u8>) -> Seq<u8> {
    framed(seq![tag] + data)
}

/// The length that the first four bytes of a buffer declare.
pub open spec fn declared_len(buf: Seq<u8>) -> int {
    buf[0] * 0x100_0000 + buf[1] * 0x1_0000 + buf[2] * 0x100 + buf[3]
}

/// What stands at the front of a buffer of inbound bytes.
pub enum Cut<B> {
    /// Less than a whole frame.
    Partial,
    /// A frame that claims to be larger than [`MAX_FRAME`].
    Oversize,
    /// A whole frame, with this payload.
    Whole(B),
}

/// What stands at the front of a buffer.
pub open spec fn front(buf: Seq<u8>) -> Cut<Seq<u8>> {
    if buf.len() < 4 {
        Cut::Partial
    } else if declared_len(buf) > MAX_FRAME {
        Cut::Oversize
    } else if buf.len() < 4 + declared_len(buf) {
        Cut::Partial
    } else {
        Cut::Whole(buf.subrange(4, 4 + declared_len(buf)))
    }
}

/// The buffer behind the whole frame at its front; all of it where there is none.
pub open spec fn behind(buf: Seq<u8>) -> Seq<u8> {
    if front(buf) is Whole {
        buf.skip(4 + declared_len(buf))
    } else {
        buf
    }
}

/// The payloads of the whole frames a buffer starts with.
pub open spec fn payloads(buf: Seq<u8>) -> Seq<Seq<u8>>
    decreases buf.len(),
{
    match front(buf) {
        Cut::Whole(payload) => seq![payload] + payloads(behind(buf)),
        _ => seq![],
    }
}

/// What is left of a buffer behind the whole frames it starts with.
pub open spec fn leftover(buf: Seq<u8>) -> Seq<u8>
    decreases buf.len(),
{
    if front(buf) is Whole {
        leftover(behind(buf))
    } else {
        buf
    }
}

/// The frames of a list of payloads, one after the other.
pub open spec fn stream(list: Seq<Seq<u8>>) -> Seq<u8>
    decreases list.len(),
{
    if list.len() == 0 {
        seq![]
    } else {
        framed(list[0]) + stream(list.skip(1))
    }
}

/// Appends bytes to a buffer.
pub fn push_bytes(v: &mut Vec<u8>, bytes: &[u8])
    ensures
        final(v)@ == old(v)@ + bytes@,
{
    let ghost start = v@;
    v.extend_from_slice(bytes);
    assert(v@ =~= start + bytes@);
}

/// A payload in a frame of its own.
pub fn frame(payload: &[u8]) -> (r: Vec<u8>)
    ensures
        r@ == framed(payload@),
{
    let l: u64 = payload.len() as u64 % 0x1_0000_0000;
    let mut v: Vec<u8> = Vec::new();
    v.push((l / 0x100_0000 % 0x100) as u8);
    v.push((l / 0x1_0000 % 0x100) as u8);
    v.push((l / 0x100 % 0x100) as u8);
    v.push((l % 0x100) as u8);
    assert(v@ =~= big_endian(l as int));
    push_bytes(&mut v, payload);
    v
}

/// A tag and the data behind it, in a frame of their own.
pub fn tagged_frame(tag: u8, data: &[u8]) -> (r: Vec<u8>)
    ensures
        r@ == tagged(tag, data@),
{
    let mut p: Vec<u8> = Vec::new();
    p.push(tag);
    push_bytes(&mut p, data);
    assert(p@ =~= seq![tag] + data@);
    frame(&p)
}

/// The length that the first four bytes of a buffer declare, if there are as many.
pub fn declared(buf: &[u8]) -> (r: Option<usize>)
    ensures
        match r {
            Some(len) => buf@.len() >= 4 && len == declared_len(buf@),
            None => buf@.len() < 4,
        },
{
    if buf.len() < 4 {
        return None;
    }
    Some(
        buf[0] as usize * 0x100_0000 + buf[1] as usize * 0x1_0000 + buf[2] as usize * 0x100
            + buf[3] as usize,
    )
}

/// Takes the frame at the front of a buffer of inbound bytes, if a whole one is there.
pub fn cut_frame(buf: &mut Vec<u8>) -> (r: Cut<Vec<u8>>)
    ensures
        match r {
            Cut::Partial => front(old(buf)@) is Partial,
            Cut::Oversize => front(old(buf)@) is Oversize,
            Cut::Whole(payload) => front(old(buf)@) == Cut::Whole(payload@),
        },
        final(buf)@ == behind(old(buf)@),
{
    let l: usize = match declared(buf) {
        Some(l) => l,
        None => return Cut::Partial,
    };
    if l > MAX_FRAME {
        return Cut::Oversize;
    }
    if buf.len() < 4 + l {
        return Cut::Partial;
    }
    let rest = buf.split_off(4 + l);
    let payload = buf.split_off(4);
    assert(payload@ =~= old(buf)@.subrange(4, 4 + l));
    assert(rest@ =~= old(buf)@.skip(4 + l));
    *buf = rest;
    Cut::Whole(payload)
}

/// A frame declares the length of its payload, for every payload that 32 bits can count.
pub proof fn law_a_frame_declares_its_length(payload: Seq<u8>)
    requires
        payload.len() < 0x1_0000_0000,
    ensures
        framed(payload).len() == 4 + payload.len(),
        declared_len(framed(payload)) == payload.len(),
        framed(payload).skip(4) == payload,
{
    assert(framed(payload).skip(4) =~= payload);
    lemma_four_bytes(payload.len() as int);
    assert(framed(payload).take(4) =~= big_endian(payload.len() as int));
    assert(declared_len(framed(payload)) == declared_len(framed(payload).take(4)));
}

/// A number of 32 bits is the sum of its four bytes, each in its place.
proof fn lemma_four_bytes(n: int)
    requires
        0 <= n < 0x1_0000_0000,
    ensures
        declared_len(big_endian(n)) == n,
{
    let q1 = n / 0x100;
    let q2 = q1 / 0x100;
    let q3 = q2 / 0x100;
    assert(n / 0x1_0000 == q2 && n / 0x100_0000 == q3 && 0 <= q3 < 0x100);
    assert(n == q1 * 0x100 + n % 0x100);
    assert(q1 == q2 * 0x100 + q1 % 0x100);
    assert(q2 == q3 * 0x100 + q2 % 0x100);
}

/// A frame is read back as its payload, and what follows it is left in the buffer, for every
/// payload the reader accepts.
pub proof fn law_a_frame_is_read_back(payload: Seq<u8>, more: Seq<u8>)
    requires
        payload.len() <= MAX_FRAME,
    ensures
        front(framed(payload) + more) == Cut::Whole(payload),
        behind(framed(payload) + more) == more,
{
    law_a_frame_declares_its_length(payload);
    let buf = framed(payload) + more;
    assert(declared_len(buf) == declared_len(framed(payload)));
    assert(buf.subrange(4, 4 + payload.len() as int) =~= payload);
    assert(buf.skip(4 + payload.len() as int) =~= more);
}

/// A stream of frames is read back as the list of its payloads, with nothing left over.
pub proof fn law_a_stream_is_read_back(list: Seq<Seq<u8>>)
    requires
        forall|i: int| 0 <= i < list.len() ==> (#[trigger] list[i]).len() <= MAX_FRAME,
    ensures
        payloads(stream(list)) == list,
        leftover(stream(list)) == Seq::<u8>::empty(),
    decreases list.len(),
{
    if list.len() == 0 {
        assert(payloads(stream(list)) =~= list);
    } else {
        let tail = list.skip(1);
        law_a_frame_is_read_back(list[0], stream(tail));
        assert forall|i: int| 0 <= i < tail.len() implies (#[trigger] tail[i]).len() <= MAX_FRAME by {
            assert(tail[i] == list[i + 1]);
        }
        law_a_stream_is_read_back(tail);
        assert(payloads(stream(list)) =~= seq![list[0]] + tail);
        assert(seq![list[0]] + tail =~= list);
    }
}

/// A stream of frames with less than a whole frame behind it is read back as the list of its
/// payloads, and the rest is left over.
pub proof fn law_a_stream_and_a_rest_are_read_back(list: Seq<Seq<u8>>, rest: Seq<u8>)
    requires
        forall|i: int| 0 <= i < list.len() ==> (#[trigger] list[i]).len() <= MAX_FRAME,
        front(rest) is Partial,
    ensures
        payloads(stream(list) + rest) == list,
        leftover(stream(list) + rest) == rest,
{
    law_a_stream_is_read_back(list);
    law_pieces_are_stitched_together(stream(list), rest);
    assert(leftover(stream(list)) + rest =~= rest);
    assert(list + payloads(rest) =~= list);
}

/// How the bytes are cut into pieces on their way does not matter: reading a first piece and then
/// the rest behind what it left over gives the payloads of the whole.
pub proof fn law_pieces_are_stitched_together(first: Seq<u8>, second: Seq<u8>)
    ensures
        payloads(first + second) == payloads(first) + payloads(leftover(first) + second),
        leftover(first + second) == leftover(leftover(first) + second),
    decreases first.len(),
{
    if front(first) is Whole {
        let l = declared_len(first);
        let all = first + second;
        assert(declared_len(all) == l);
        assert(all.subrange(4, 4 + l) =~= first.subrange(4, 4 + l));
        assert(all.skip(4 + l) =~= first.skip(4 + l) + second);
        law_pieces_are_stitched_together(behind(first), second);
        assert(payloads(all) =~= payloads(first) + payloads(leftover(first) + second));
    } else {
        assert(payloads(first) + payloads(first + second) =~= payloads(first + second));
    }
}

/// A frame is the length of its payload in four bytes, the most significant first, and the payload.
pub proof fn law_a_frame_is_a_length_and_a_payload(payload: Seq<u8>)
    requires
        payload.len() < 0x1_0000_0000,
    ensures
        framed(payload).len() == payload.len() + 4,
        framed(payload).skip(4) == payload,
        framed(payload)[0] * 16777216 + framed(payload)[1] * 65536 + framed(payload)[2] * 256
            + framed(payload)[3] == payload.len(),
{
    law_a_frame_declares_its_length(payload);
}

/// A tagged frame holds the tag and then the data, whatever they are.
pub proof fn law_a_tag_stands_before_its_data(tag: u8, data: Seq<u8>)
    requires
        data.len() < 0xffff_ffff,
    ensures
        tagged(tag, data).len() == data.len() + 5,
        tagged(tag, data)[4] == tag,
        tagged(tag, data).skip(5) == data,
        tagged(tag, data) == framed(seq![tag] + data),
{
    let payload = seq![tag] + data;
    law_a_frame_declares_its_length(payload);
    let f = tagged(tag, data);
    assert(f[4] == f.skip(4)[0]);
    assert(f.skip(5) =~= f.skip(4).skip(1));
    assert(payload.skip(1) =~= data);
}

/// What stands at the front of a buffer goes by the number that its first four bytes spell: over
/// half a megabyte is too much, and up to that as many bytes as it says are the payload, once they
/// are there.
pub proof fn law_a_buffer_is_cut_where_its_length_says(buf: Seq<u8>)
    ensures
        buf.len() < 4 ==> front(buf) is Partial && behind(buf) == buf,
        buf.len() >= 4 ==> {
            let l = buf[0] * 16777216 + buf[1] * 65536 + buf[2] * 256 + buf[3];
            if l > 524288 {
                front(buf) is Oversize && behind(buf) == buf
            } else if buf.len() < l + 4 {
                front(buf) is Partial && behind(buf) == buf
            } else {
                &&& front(buf) == Cut::Whole(buf.subrange(4, l + 4))
                &&& behind(buf) == buf.subrange(l + 4, buf.len() as int)
            }
        },
{
    if buf.len() >= 4 {
        let l = declared_len(buf);
        if l <= 524288 && buf.len() >= l + 4 {
            assert(buf.skip(4 + l) =~= buf.subrange(l + 4, buf.len() as int));
        }
    }
}

} // verus!
