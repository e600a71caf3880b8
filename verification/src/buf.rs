//! Assembling response body chunks into one buffer.
//!
//! The buffer types come from the `bytes` crate; this module declares
//! them, names their contents, and verifies the code that sizes and fills
//! them.

use vstd::prelude::*;
use bytes::BufMut;

verus! {

#[verifier::external_type_specification]
#[verifier::external_body]
pub struct ExBytes(bytes::Bytes);

#[verifier::external_type_specification]
#[verifier::external_body]
pub struct ExBytesMut(bytes::BytesMut);

/// What a frozen buffer holds.
pub uninterp spec fn bytes_contents(b: bytes::Bytes) -> Seq<u8>;

/// What a mutable buffer holds.
pub uninterp spec fn buf_contents(b: bytes::BytesMut) -> Seq<u8>;

/// Relies on bytes::BytesMut::with_capacity: a new buffer is empty,
/// whatever it has reserved. Allocation requests above `isize::MAX`
/// bytes abort, so they are ruled out here.
#[verifier::external_body]
fn buf_with_capacity(cap: usize) -> (r: bytes::BytesMut)
    requires
        cap <= usize::MAX / 2,
    ensures
        buf_contents(r) == Seq::<u8>::empty(),
{
    bytes::BytesMut::with_capacity(cap)
}

/// Relies on bytes::buf::BufMut::put_slice on BytesMut: appends the slice
/// to the buffer's contents.
#[verifier::external_body]
fn buf_put_slice(b: &mut bytes::BytesMut, s: &[u8])
    ensures
        buf_contents(*final(b)) == buf_contents(*old(b)) + s@,
{
    b.put_slice(s);
}

/// Relies on bytes::BytesMut::freeze: the frozen buffer holds exactly
/// what the mutable one held.
#[verifier::external_body]
fn buf_freeze(b: bytes::BytesMut) -> (r: bytes::Bytes)
    ensures
        bytes_contents(r) == buf_contents(b),
{
    b.freeze()
}

/// The total length of a sequence of chunks.
pub open spec fn total_len(chunks: Seq<Seq<u8>>) -> int
    decreases chunks.len(),
{
    if chunks.len() == 0 {
        0
    } else {
        total_len(chunks.drop_last()) + chunks.last().len()
    }
}

/// All the chunks laid end to end.
pub open spec fn flat(chunks: Seq<Seq<u8>>) -> Seq<u8>
    decreases chunks.len(),
{
    if chunks.len() == 0 {
        Seq::empty()
    } else {
        flat(chunks.drop_last()) + chunks.last()
    }
}

proof fn lemma_take_step(chunks: Seq<Seq<u8>>, i: int)
    requires
        0 <= i < chunks.len(),
    ensures
        total_len(chunks.take(i + 1)) == total_len(chunks.take(i)) + chunks[i].len(),
        flat(chunks.take(i + 1)) == flat(chunks.take(i)) + chunks[i],
{
    assert(chunks.take(i + 1).drop_last() =~= chunks.take(i));
    assert(chunks.take(i + 1).last() == chunks[i]);
}

/// How many bytes a body's chunks hold together.
pub fn bytes_in(chunks: &Vec<Vec<u8>>) -> (r: usize)
    requires
        total_len(chunks.deep_view()) <= usize::MAX,
    ensures
        r == total_len(chunks.deep_view()),
{
    let n = chunks.len();
    let mut sz: usize = 0;
    let mut i: usize = 0;
    proof {
        assert(chunks.deep_view().len() == n);
    }
    while i < n
        invariant
            0 <= i <= n,
            n == chunks@.len(),
            chunks.deep_view().len() == n,
            forall|j: int| 0 <= j < n ==> chunks.deep_view()[j] == #[trigger] chunks@[j]@,
            sz == total_len(chunks.deep_view().take(i as int)),
            total_len(chunks.deep_view()) <= usize::MAX,
        decreases n - i,
    {
        proof {
            lemma_take_step(chunks.deep_view(), i as int);
            lemma_total_len_take_le(chunks.deep_view(), i as int + 1);
        }
        sz = sz + chunks[i].len();
        i = i + 1;
    }
    proof {
        assert(chunks.deep_view().take(n as int) =~= chunks.deep_view());
    }
    sz
}

proof fn lemma_total_len_take_le(chunks: Seq<Seq<u8>>, i: int)
    requires
        0 <= i <= chunks.len(),
    ensures
        total_len(chunks.take(i)) <= total_len(chunks),
    decreases chunks.len() - i,
{
    if i == chunks.len() {
        assert(chunks.take(i) =~= chunks);
    } else {
        lemma_take_step(chunks, i);
        assert(chunks.take(i + 1)[i] == chunks[i]);
        lemma_total_len_take_le(chunks, i + 1);
    }
}

/// Lays a body's chunks end to end in one buffer, sized once up front.
pub fn to_buf(chunks: &Vec<Vec<u8>>) -> (r: bytes::Bytes)
    requires
        total_len(chunks.deep_view()) <= usize::MAX / 2,
    ensures
        bytes_contents(r) == flat(chunks.deep_view()),
{
    let cap = bytes_in(chunks);
    let mut buf = buf_with_capacity(cap);
    let n = chunks.len();
    let mut i: usize = 0;
    proof {
        assert(chunks.deep_view().len() == n);
        assert(buf_contents(buf) =~= flat(chunks.deep_view().take(0)));
    }
    while i < n
        invariant
            0 <= i <= n,
            n == chunks@.len(),
            chunks.deep_view().len() == n,
            forall|j: int| 0 <= j < n ==> chunks.deep_view()[j] == #[trigger] chunks@[j]@,
            buf_contents(buf) == flat(chunks.deep_view().take(i as int)),
        decreases n - i,
    {
        proof {
            lemma_take_step(chunks.deep_view(), i as int);
        }
        buf_put_slice(&mut buf, chunks[i].as_slice());
        i = i + 1;
    }
    proof {
        assert(chunks.deep_view().take(n as int) =~= chunks.deep_view());
    }
    buf_freeze(buf)
}

} // verus!
