//! Writing the container's framing: length-prefixed blocks and counted sequences.

use vstd::prelude::*;

use crate::bytes::{be64, encode_be_u64};

verus! {

/// A value with a fixed byte form in the container.
pub trait Encode: DeepView + Sized {
    /// The bytes that stand for the value `v`.
    spec fn encoding(v: Self::V) -> Seq<u8>;

    /// Appends the bytes that stand for `self` to `sink`.
    fn encode(&self, sink: &mut Vec<u8>)
        ensures
            final(sink)@ == old(sink)@ + Self::encoding(self.deep_view()),
    ;
}

/// A length-prefixed block: the length of `body` as a big-endian u64, then `body`.
pub open spec fn block(body: Seq<u8>) -> Seq<u8> {
    be64(body.len() as u64) + body
}

/// The encodings of `xs`, one after another, in order.
pub open spec fn concat_encodings<T: Encode>(xs: Seq<T::V>) -> Seq<u8>
    decreases xs.len(),
{
    if xs.len() == 0 {
        Seq::empty()
    } else {
        concat_encodings::<T>(xs.drop_last()) + T::encoding(xs.last())
    }
}

/// A counted sequence: the number of items as a big-endian u64, then each
/// item's encoding in order, with no framing between them.
pub open spec fn seq_encoding<T: Encode>(xs: Seq<T::V>) -> Seq<u8> {
    be64(xs.len() as u64) + concat_encodings::<T>(xs)
}

/// The encodings of the first `i + 1` items are those of the first `i`, then item `i`'s.
pub proof fn lemma_concat_step<T: Encode>(xs: Seq<T::V>, i: int)
    requires
        0 <= i < xs.len(),
    ensures
        concat_encodings::<T>(xs.subrange(0, i + 1)) == concat_encodings::<T>(xs.subrange(0, i))
            + T::encoding(xs[i]),
{
    let next = xs.subrange(0, i + 1);
    assert(next.drop_last() =~= xs.subrange(0, i));
}

/// Appends the bytes of `body` to `sink`.
pub(crate) fn append_bytes(sink: &mut Vec<u8>, body: &[u8])
    ensures
        final(sink)@ == old(sink)@ + body@,
{
    let mut i: usize = 0;
    while i < body.len()
        invariant
            i <= body@.len(),
            sink@ == old(sink)@ + body@.subrange(0, i as int),
        decreases body@.len() - i,
    {
        sink.push(body[i]);
        i += 1;
        assert(sink@ =~= old(sink)@ + body@.subrange(0, i as int));
    }
    assert(body@.subrange(0, i as int) =~= body@);
}

/// Writes `body` as a length-prefixed block. The prefix is written even for an
/// empty body, which then stands for an absent value.
pub fn length_encoded(sink: &mut Vec<u8>, body: &[u8])
    ensures
        final(sink)@ == old(sink)@ + block(body@),
{
    encode_be_u64(body.len() as u64, sink);
    if body.len() > 0 {
        append_bytes(sink, body);
    }
    assert(sink@ =~= old(sink)@ + block(body@));
}

/// Writes the number of `values`, then each value's encoding in order.
pub fn encode_vec<T: Encode>(values: &[T], sink: &mut Vec<u8>)
    ensures
        final(sink)@ == old(sink)@ + seq_encoding::<T>(values.deep_view()),
{
    let ghost xs = values.deep_view();
    encode_be_u64(values.len() as u64, sink);
    let mut i: usize = 0;
    while i < values.len()
        invariant
            i <= values@.len(),
            xs == values.deep_view(),
            sink@ == old(sink)@ + be64(values@.len() as u64) + concat_encodings::<T>(
                xs.subrange(0, i as int),
            ),
        decreases values@.len() - i,
    {
        values[i].encode(sink);
        proof {
            lemma_concat_step::<T>(xs, i as int);
        }
        i += 1;
        assert(sink@ =~= old(sink)@ + be64(values@.len() as u64) + concat_encodings::<T>(
            xs.subrange(0, i as int),
        ));
    }
    assert(xs.subrange(0, i as int) =~= xs);
    assert(sink@ =~= old(sink)@ + seq_encoding::<T>(xs));
}

/// A payload travels as a length-prefixed block.
impl Encode for Vec<u8> {
    open spec fn encoding(v: Seq<u8>) -> Seq<u8> {
        block(v)
    }

    fn encode(&self, sink: &mut Vec<u8>) {
        length_encoded(sink, self.as_slice());
    }
}

/// The bytes of one turn of the log: the turn number, then its inputs as a
/// counted sequence of blocks.
pub open spec fn turn_encoding(entry: (u64, Seq<Seq<u8>>)) -> Seq<u8> {
    be64(entry.0) + seq_encoding::<Vec<u8>>(entry.1)
}

impl Encode for (u64, Vec<Vec<u8>>) {
    open spec fn encoding(v: (u64, Seq<Seq<u8>>)) -> Seq<u8> {
        turn_encoding(v)
    }

    fn encode(&self, sink: &mut Vec<u8>) {
        encode_be_u64(self.0, sink);
        let inputs = self.1.as_slice();
        encode_vec(inputs, sink);
        assert(inputs.deep_view() =~= self.1.deep_view());
        assert(sink@ =~= old(sink)@ + turn_encoding(self.deep_view()));
    }
}

} // verus!
