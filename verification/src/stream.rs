//! The mathematical model of a cipher stream, and the laws that follow from it.

use crate::engine::cfb8_byte;
use vstd::prelude::*;

verus! {

/// What a stream gives for `data` once it has taken in `before`: byte by byte,
/// each output byte depends on the setup, on every byte before it and on the
/// input byte itself.
pub open spec fn stream_bytes(encrypting: bool, key: Seq<u8>, iv: Seq<u8>, before: Seq<u8>, data: Seq<u8>) -> Seq<u8> {
    Seq::new(
        data.len(),
        |i: int| cfb8_byte(encrypting, key, iv, before + data.subrange(0, i), data[i]),
    )
}

/// Output is as long as input: the stream neither pads nor withholds.
pub proof fn lemma_stream_keeps_length(encrypting: bool, key: Seq<u8>, iv: Seq<u8>, before: Seq<u8>, data: Seq<u8>)
    ensures
        stream_bytes(encrypting, key, iv, before, data).len() == data.len(),
{
}

/// Stream continuity: a message sent through in one piece gives the same bytes
/// as its two parts sent through one after the other, wherever it is cut.
pub proof fn lemma_stream_split(encrypting: bool, key: Seq<u8>, iv: Seq<u8>, before: Seq<u8>, head: Seq<u8>, tail: Seq<u8>)
    ensures
        stream_bytes(encrypting, key, iv, before, head + tail) == stream_bytes(
            encrypting,
            key,
            iv,
            before,
            head,
        ) + stream_bytes(encrypting, key, iv, before + head, tail),
{
    let whole = stream_bytes(encrypting, key, iv, before, head + tail);
    let first = stream_bytes(encrypting, key, iv, before, head);
    let second = stream_bytes(encrypting, key, iv, before + head, tail);
    assert forall|i: int| 0 <= i < whole.len() implies whole[i] == (first + second)[i] by {
        if i < head.len() {
            assert((head + tail).subrange(0, i) =~= head.subrange(0, i));
        } else {
            let j = i - head.len();
            assert(before + (head + tail).subrange(0, i) =~= (before + head) + tail.subrange(0, j));
            assert((head + tail)[i] == tail[j]);
        }
    }
    assert(whole =~= first + second);
}

/// The pieces of a message, joined in order.
pub open spec fn joined(pieces: Seq<Seq<u8>>) -> Seq<u8>
    decreases pieces.len(),
{
    if pieces.len() == 0 {
        Seq::<u8>::empty()
    } else {
        joined(pieces.drop_last()) + pieces.last()
    }
}

/// What a stream gives when the pieces of a message go through it one after
/// the other.
pub open spec fn stream_pieces(encrypting: bool, key: Seq<u8>, iv: Seq<u8>, before: Seq<u8>, pieces: Seq<Seq<u8>>) -> Seq<u8>
    decreases pieces.len(),
{
    if pieces.len() == 0 {
        Seq::<u8>::empty()
    } else {
        stream_pieces(encrypting, key, iv, before, pieces.drop_last()) + stream_bytes(
            encrypting,
            key,
            iv,
            before + joined(pieces.drop_last()),
            pieces.last(),
        )
    }
}

/// However a message is cut into pieces, the stream gives for the pieces what
/// it gives for the whole.
pub proof fn lemma_cuts_do_not_matter(encrypting: bool, key: Seq<u8>, iv: Seq<u8>, before: Seq<u8>, pieces: Seq<Seq<u8>>)
    ensures
        stream_pieces(encrypting, key, iv, before, pieces) == stream_bytes(
            encrypting,
            key,
            iv,
            before,
            joined(pieces),
        ),
    decreases pieces.len(),
{
    if pieces.len() == 0 {
        assert(stream_bytes(encrypting, key, iv, before, Seq::<u8>::empty()) =~= Seq::<u8>::empty());
    } else {
        lemma_cuts_do_not_matter(encrypting, key, iv, before, pieces.drop_last());
        lemma_stream_split(encrypting, key, iv, before, joined(pieces.drop_last()), pieces.last());
    }
}

} // verus!
