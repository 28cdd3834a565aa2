//! Replies: what a command sends back once it is done.

use vstd::prelude::*;
use vstd::slice::slice_subrange;
use vstd::slice::slice_to_vec;

verus! {

/// The size of the data frames that a file is streamed out in.
pub const DATA_CHUNK: usize = 4096;

/// The reply to a command: data in zero or more frames, then one line of text that says how it
/// went.
pub struct Reply {
    pub data: Vec<Vec<u8>>,
    pub ok: bool,
    pub text: String,
}

/// The model of a reply.
#[verifier::ext_equal]
pub struct ReplyModel {
    pub data: Seq<Seq<u8>>,
    pub ok: bool,
    pub text: Seq<char>,
}

/// The contents of a list of buffers.
pub open spec fn contents(list: Seq<Vec<u8>>) -> Seq<Seq<u8>> {
    list.map_values(|b: Vec<u8>| b@)
}

impl View for Reply {
    type V = ReplyModel;

    open spec fn view(&self) -> ReplyModel {
        ReplyModel { data: contents(self.data@), ok: self.ok, text: self.text@ }
    }
}

/// A reply that says a command succeeded, with no data.
pub open spec fn success(text: Seq<char>) -> ReplyModel {
    ReplyModel { data: seq![], ok: true, text }
}

/// A reply that says a command failed.
pub open spec fn failure(text: Seq<char>) -> ReplyModel {
    ReplyModel { data: seq![], ok: false, text }
}

/// A text as one frame of data; an empty one needs none.
pub open spec fn as_data(text: Seq<char>) -> Seq<Seq<u8>> {
    if text.len() == 0 {
        seq![]
    } else {
        seq![vstd::utf8::encode_utf8(text)]
    }
}

/// The bytes in pieces of `size`, the last of which may be shorter.
pub open spec fn chunked(bytes: Seq<u8>, size: int) -> Seq<Seq<u8>>
    decreases bytes.len(),
{
    if bytes.len() == 0 || size <= 0 {
        seq![]
    } else if bytes.len() <= size {
        seq![bytes]
    } else {
        seq![bytes.take(size)] + chunked(bytes.skip(size), size)
    }
}

/// The pieces put together again.
pub open spec fn joined(list: Seq<Seq<u8>>) -> Seq<u8>
    decreases list.len(),
{
    if list.len() == 0 {
        seq![]
    } else {
        list[0] + joined(list.skip(1))
    }
}

/// A reply that says a command succeeded, with no data.
pub fn say_ok(text: String) -> (r: Reply)
    ensures
        r@ == success(text@),
{
    let r = Reply { data: Vec::new(), ok: true, text };
    assert(r@.data =~= seq![]);
    r
}

/// A reply that says a command failed.
pub fn say_err(text: String) -> (r: Reply)
    ensures
        r@ == failure(text@),
{
    let r = Reply { data: Vec::new(), ok: false, text };
    assert(r@.data =~= seq![]);
    r
}

/// A reply with a fixed text that says a command failed.
pub fn say_error(text: &str) -> (r: Reply)
    ensures
        r@ == failure(text@),
{
    say_err(text.to_owned())
}

/// A failure described by a fixed text and the platform's own words.
pub fn say_failed(what: &str, error: &str) -> (r: Reply)
    ensures
        r@ == failure(what@ + error@),
{
    let mut text = what.to_owned();
    text.append(error);
    say_err(text)
}

/// A success described by a fixed text and the path it is about.
pub fn say_done(what: &str, path: &str) -> (r: Reply)
    ensures
        r@ == success(what@ + path@),
{
    let mut text = what.to_owned();
    text.append(path);
    say_ok(text)
}

/// A text as one frame of data; an empty one needs none.
pub fn text_as_data(text: &str) -> (r: Vec<Vec<u8>>)
    ensures
        contents(r@) == as_data(text@),
{
    let mut list: Vec<Vec<u8>> = Vec::new();
    if !text.is_empty() {
        list.push(slice_to_vec(text.as_bytes()));
    }
    assert(contents(list@) =~= as_data(text@));
    list
}

/// The bytes in pieces of [`DATA_CHUNK`].
pub fn chunks_of(bytes: &[u8]) -> (r: Vec<Vec<u8>>)
    ensures
        contents(r@) == chunked(bytes@, DATA_CHUNK as int),
{
    let mut list: Vec<Vec<u8>> = Vec::new();
    let mut at: usize = 0;
    assert(bytes@.skip(0) =~= bytes@);
    assert(contents(list@) =~= seq![]);
    assert(contents(list@) + chunked(bytes@, DATA_CHUNK as int) =~= chunked(
        bytes@,
        DATA_CHUNK as int,
    ));
    while bytes.len() - at > DATA_CHUNK
        invariant
            at <= bytes@.len(),
            chunked(bytes@, DATA_CHUNK as int) == contents(list@) + chunked(
                bytes@.skip(at as int),
                DATA_CHUNK as int,
            ),
        decreases bytes@.len() - at,
    {
        let ghost rest = bytes@.skip(at as int);
        let ghost before = contents(list@);
        let piece = slice_to_vec(slice_subrange(bytes, at, at + DATA_CHUNK));
        assert(piece@ =~= rest.take(DATA_CHUNK as int));
        list.push(piece);
        at += DATA_CHUNK;
        assert(rest.skip(DATA_CHUNK as int) =~= bytes@.skip(at as int));
        assert(contents(list@) =~= before.push(piece@));
        assert(before + (seq![piece@] + chunked(bytes@.skip(at as int), DATA_CHUNK as int))
            =~= contents(list@) + chunked(bytes@.skip(at as int), DATA_CHUNK as int));
    }
    let ghost before = contents(list@);
    let ghost rest = bytes@.skip(at as int);
    if at < bytes.len() {
        let piece = slice_to_vec(slice_subrange(bytes, at, bytes.len()));
        assert(piece@ =~= rest);
        list.push(piece);
        assert(contents(list@) =~= before.push(piece@));
        assert(before + seq![piece@] =~= contents(list@));
    } else {
        assert(before + chunked(rest, DATA_CHUNK as int) =~= before);
    }
    list
}

/// Streaming a file out loses nothing: the pieces, put together, are the bytes, and each is small
/// enough and not empty.
pub proof fn law_the_pieces_are_the_whole(bytes: Seq<u8>, size: int)
    requires
        size > 0,
    ensures
        joined(chunked(bytes, size)) == bytes,
        forall|i: int|
            0 <= i < chunked(bytes, size).len() ==> 0 < (#[trigger] chunked(bytes, size)[i]).len()
                <= size,
    decreases bytes.len(),
{
    let list = chunked(bytes, size);
    if bytes.len() == 0 {
        assert(joined(list) =~= bytes);
    } else if bytes.len() <= size {
        assert(list.skip(1) =~= seq![]);
        assert(joined(list.skip(1)) =~= seq![]);
        assert(joined(list) =~= bytes);
    } else {
        law_the_pieces_are_the_whole(bytes.skip(size), size);
        let tail = chunked(bytes.skip(size), size);
        assert(list.skip(1) =~= tail);
        assert(joined(list) =~= bytes.take(size) + bytes.skip(size));
        assert(bytes.take(size) + bytes.skip(size) =~= bytes);
        assert forall|i: int| 0 <= i < list.len() implies 0 < (#[trigger] list[i]).len() <= size by {
            if i > 0 {
                assert(list[i] == tail[i - 1]);
            }
        }
    }
}

/// The pieces with one more.
pub proof fn lemma_joined_push(list: Seq<Seq<u8>>, piece: Seq<u8>)
    ensures
        joined(list.push(piece)) == joined(list) + piece,
    decreases list.len(),
{
    let more = list.push(piece);
    if list.len() == 0 {
        assert(more.skip(1) =~= seq![]);
        assert(joined(more.skip(1)) =~= seq![]);
        assert(joined(more) =~= joined(list) + piece);
    } else {
        assert(more.skip(1) =~= list.skip(1).push(piece));
        lemma_joined_push(list.skip(1), piece);
        assert(joined(more) =~= joined(list) + piece);
    }
}

/// A text goes out whole: its UTF-8 form, in one frame, or in none where it is empty.
pub proof fn law_a_text_goes_out_whole(text: Seq<char>)
    ensures
        joined(as_data(text)) == vstd::utf8::encode_utf8(text),
        as_data(text).len() <= 1,
        forall|i: int| 0 <= i < as_data(text).len() ==> (#[trigger] as_data(text)[i]).len() > 0,
{
    let list = as_data(text);
    if text.len() > 0 {
        assert(list.skip(1) =~= seq![]);
        assert(joined(list.skip(1)) =~= seq![]);
        assert(joined(list) =~= vstd::utf8::encode_utf8(text));
        vstd::utf8::encode_utf8_first_scalar(text);
        vstd::utf8::encode_utf8_decode_utf8(text);
        if vstd::utf8::encode_utf8(text).len() == 0 {
            assert(vstd::utf8::decode_utf8(seq![]) =~= seq![]);
            assert(vstd::utf8::encode_utf8(text) =~= seq![]);
        }
    } else {
        assert(joined(list) =~= vstd::utf8::encode_utf8(text));
    }
}

/// Every piece of a file but the last is of the full size.
pub proof fn law_every_piece_but_the_last_is_full(bytes: Seq<u8>, size: int)
    requires
        size > 0,
    ensures
        forall|i: int|
            0 <= i < chunked(bytes, size).len() - 1 ==> (#[trigger] chunked(bytes, size)[i]).len()
                == size,
    decreases bytes.len(),
{
    if bytes.len() > size {
        let tail = chunked(bytes.skip(size), size);
        let list = chunked(bytes, size);
        law_every_piece_but_the_last_is_full(bytes.skip(size), size);
        assert forall|i: int| 0 <= i < list.len() - 1 implies (#[trigger] list[i]).len() == size by {
            if i > 0 {
                assert(list[i] == tail[i - 1]);
            }
        }
    }
}

/// Putting pieces together adds each behind the others, in order.
pub proof fn law_pieces_are_put_together_in_order(list: Seq<Seq<u8>>, piece: Seq<u8>)
    ensures
        joined(seq![]) == Seq::<u8>::empty(),
        joined(list.push(piece)) == joined(list) + piece,
{
    lemma_joined_push(list, piece);
}

} // verus!
