//! Reading the container's framing back. Each reader takes the whole input
//! and a position in it, and yields a value and the position after it, or a
//! failure: `Incomplete` where more bytes are needed before anything can be
//! decided, another variant where the bytes present are wrong.

use vstd::prelude::*;

use crate::bytes::{be32_value, be64_value, read_be_u32, read_be_u64};
use crate::error::{context, in_context, GenericError};

verus! {

/// A reader's result with its position widened to a `nat`, as the spec readers give it.
pub open spec fn at_nat<T, I>(r: Result<(T, usize), GenericError<I>>) -> Result<
    (T, nat),
    GenericError<I>,
> {
    match r {
        Ok((v, p)) => Ok((v, p as nat)),
        Err(e) => Err(e),
    }
}

/// The shortage when `n` bytes are wanted at `pos`.
pub open spec fn shortage<I>(s: Seq<u8>, pos: nat, n: nat) -> GenericError<I> {
    GenericError::Incomplete((pos + n - s.len()) as usize)
}

/// A big-endian u32 at `pos`.
pub open spec fn parse_u32<I>(s: Seq<u8>, pos: nat) -> Result<(u32, nat), GenericError<I>> {
    if pos + 4 <= s.len() {
        Ok((be32_value(s.subrange(pos as int, pos as int + 4)), (pos + 4) as nat))
    } else {
        Err(shortage(s, pos, 4))
    }
}

/// A big-endian u64 at `pos`.
pub open spec fn parse_u64<I>(s: Seq<u8>, pos: nat) -> Result<(u64, nat), GenericError<I>> {
    if pos + 8 <= s.len() {
        Ok((be64_value(s.subrange(pos as int, pos as int + 8)), (pos + 8) as nat))
    } else {
        Err(shortage(s, pos, 8))
    }
}

/// Four bytes at `pos` that must equal `tag`.
pub open spec fn parse_tag<I>(s: Seq<u8>, pos: nat, tag: Seq<u8>) -> Result<nat, GenericError<I>> {
    if pos + 4 > s.len() {
        Err(shortage(s, pos, 4))
    } else if s.subrange(pos as int, pos as int + 4) == tag {
        Ok((pos + 4) as nat)
    } else {
        Err(
            GenericError::InvalidMagic(
                [s[pos as int], s[pos + 1int], s[pos + 2int], s[pos + 3int]],
            ),
        )
    }
}

/// A length-prefixed block at `pos`: `None` when its length is zero, else its body.
pub open spec fn parse_block<I>(s: Seq<u8>, pos: nat) -> Result<
    (Option<Seq<u8>>, nat),
    GenericError<I>,
> {
    match parse_u64::<I>(s, pos) {
        Err(e) => Err(e),
        Ok((len, p)) => if s.len() - p < len {
            Err(GenericError::InvalidLength(len, (s.len() - p) as usize))
        } else if len == 0 {
            Ok((None, p))
        } else {
            Ok((Some(s.subrange(p as int, p + len as int)), (p + len) as nat))
        },
    }
}

/// Reads a big-endian u32 at `pos`.
pub fn decode_be_u32<I>(input: &[u8], pos: usize) -> (r: Result<(u32, usize), GenericError<I>>)
    requires
        pos <= input@.len(),
    ensures
        at_nat(r) == parse_u32::<I>(input@, pos as nat),
{
    if input.len() - pos < 4 {
        Err(GenericError::Incomplete(4 - (input.len() - pos)))
    } else {
        Ok((read_be_u32(input, pos), pos + 4))
    }
}

/// Reads a big-endian u64 at `pos`.
pub fn decode_be_u64<I>(input: &[u8], pos: usize) -> (r: Result<(u64, usize), GenericError<I>>)
    requires
        pos <= input@.len(),
    ensures
        at_nat(r) == parse_u64::<I>(input@, pos as nat),
{
    if input.len() - pos < 8 {
        Err(GenericError::Incomplete(8 - (input.len() - pos)))
    } else {
        Ok((read_be_u64(input, pos), pos + 8))
    }
}

/// Reads four bytes at `pos` and checks them against `tag`.
pub fn decode_tag<I>(input: &[u8], pos: usize, tag: [u8; 4]) -> (r: Result<usize, GenericError<I>>)
    requires
        pos <= input@.len(),
    ensures
        match r {
            Ok(p) => parse_tag::<I>(input@, pos as nat, tag@) == Ok::<nat, GenericError<I>>(p as nat),
            Err(e) => parse_tag::<I>(input@, pos as nat, tag@) == Err::<nat, GenericError<I>>(e),
        },
{
    if input.len() - pos < 4 {
        return Err(GenericError::Incomplete(4 - (input.len() - pos)));
    }
    let found = [input[pos], input[pos + 1], input[pos + 2], input[pos + 3]];
    if found[0] == tag[0] && found[1] == tag[1] && found[2] == tag[2] && found[3] == tag[3] {
        assert(input@.subrange(pos as int, pos + 4) =~= tag@);
        Ok(pos + 4)
    } else {
        proof {
            let got = input@.subrange(pos as int, pos + 4);
            if got == tag@ {
                assert(got[0] == tag@[0] && got[1] == tag@[1] && got[2] == tag@[2] && got[3]
                    == tag@[3]);
            }
        }
        Err(GenericError::InvalidMagic(found))
    }
}

/// Reads a length-prefixed block at `pos`, without copying its body. A
/// block that declares more bytes than remain is `InvalidLength`; a block of
/// length zero is an absent value.
pub fn length_decoding<'a, I>(input: &'a [u8], pos: usize) -> (r: Result<
    (Option<&'a [u8]>, usize),
    GenericError<I>,
>)
    requires
        pos <= input@.len(),
    ensures
        match r {
            Ok((Some(b), p)) => parse_block::<I>(input@, pos as nat) == Ok::<
                (Option<Seq<u8>>, nat),
                GenericError<I>,
            >((Some(b@), p as nat)),
            Ok((None, p)) => parse_block::<I>(input@, pos as nat) == Ok::<
                (Option<Seq<u8>>, nat),
                GenericError<I>,
            >((None, p as nat)),
            Err(e) => parse_block::<I>(input@, pos as nat) == Err::<
                (Option<Seq<u8>>, nat),
                GenericError<I>,
            >(e),
        },
{
    match decode_be_u64::<I>(input, pos) {
        Err(e) => Err(e),
        Ok((len, p)) => {
            let available = input.len() - p;
            if (available as u64) < len {
                Err(GenericError::InvalidLength(len, available))
            } else if len == 0 {
                Ok((None, p))
            } else {
                let end = p + len as usize;
                Ok((Some(&input[p..end]), end))
            }
        },
    }
}

/// A reader's result seen through the deep view of the value it read.
pub open spec fn viewed<T: DeepView, I>(r: Result<(T, usize), GenericError<I>>) -> Result<
    (T::V, nat),
    GenericError<I>,
> {
    match r {
        Ok((v, p)) => Ok((v.deep_view(), p as nat)),
        Err(e) => Err(e),
    }
}

/// A value that can be read back from its byte form in the container.
pub trait Decode<I>: DeepView + Sized {
    /// What reading a value at `pos` of `s` gives.
    spec fn parse(s: Seq<u8>, pos: nat) -> Result<(Self::V, nat), GenericError<I>>;

    /// Reads a value at `pos`.
    fn decode_at(input: &[u8], pos: usize) -> (r: Result<(Self, usize), GenericError<I>>)
        requires
            pos <= input@.len(),
        ensures
            viewed(r) == Self::parse(input@, pos as nat),
            r matches Ok((_, p)) ==> pos <= p <= input@.len(),
    ;
}

/// `n` values read one after another from `pos`; the first failure stops
/// the reading and is reported as that of a vector item.
pub open spec fn parse_items<T: Decode<I>, I>(s: Seq<u8>, pos: nat, n: nat) -> Result<
    (Seq<T::V>, nat),
    GenericError<I>,
>
    decreases n,
{
    if n == 0 {
        Ok((Seq::empty(), pos))
    } else {
        match parse_items::<T, I>(s, pos, (n - 1) as nat) {
            Err(e) => Err(e),
            Ok((xs, p)) => match <T as Decode<I>>::parse(s, p) {
                Err(e) => Err(in_context("vector item", e)),
                Ok((x, q)) => Ok((xs.push(x), q)),
            },
        }
    }
}

/// A counted sequence at `pos`: a big-endian u64 count, then that many values.
pub open spec fn parse_seq<T: Decode<I>, I>(s: Seq<u8>, pos: nat) -> Result<
    (Seq<T::V>, nat),
    GenericError<I>,
> {
    match parse_u64::<I>(s, pos) {
        Err(e) => Err(e),
        Ok((n, p)) => parse_items::<T, I>(s, p, n as nat),
    }
}

/// Once reading items has failed, reading more of them fails the same way.
proof fn lemma_items_failure_persists<T: Decode<I>, I>(s: Seq<u8>, pos: nat, k: nat, n: nat)
    requires
        k <= n,
        parse_items::<T, I>(s, pos, k) is Err,
    ensures
        parse_items::<T, I>(s, pos, n) == parse_items::<T, I>(s, pos, k),
    decreases n,
{
    if n > k {
        lemma_items_failure_persists::<T, I>(s, pos, k, (n - 1) as nat);
    }
}

/// Reads a count, then that many values in order. The first value that
/// fails to read fails the whole sequence; nothing read before it is kept.
pub fn decode_vec<T: Decode<I>, I>(input: &[u8], pos: usize) -> (r: Result<
    (Vec<T>, usize),
    GenericError<I>,
>)
    requires
        pos <= input@.len(),
    ensures
        viewed(r) == parse_seq::<T, I>(input@, pos as nat),
        r matches Ok((_, p)) ==> pos <= p <= input@.len(),
{
    let (n, start) = match decode_be_u64::<I>(input, pos) {
        Err(e) => return Err(e),
        Ok(x) => x,
    };
    let mut items: Vec<T> = Vec::new();
    let mut p = start;
    let mut k: u64 = 0;
    assert(items.deep_view() =~= Seq::<T::V>::empty());
    while k < n
        invariant
            pos <= start <= p <= input@.len(),
            k <= n,
            parse_u64::<I>(input@, pos as nat) == Ok::<(u64, nat), GenericError<I>>(
                (n, start as nat),
            ),
            parse_items::<T, I>(input@, start as nat, k as nat) == Ok::<
                (Seq<T::V>, nat),
                GenericError<I>,
            >((items.deep_view(), p as nat)),
        decreases n - k,
    {
        match <T as Decode<I>>::decode_at(input, p) {
            Err(e) => {
                let err = context("vector item", e);
                proof {
                    lemma_items_failure_persists::<T, I>(
                        input@,
                        start as nat,
                        (k + 1) as nat,
                        n as nat,
                    );
                }
                return Err(err);
            },
            Ok((x, q)) => {
                let ghost before = items.deep_view();
                items.push(x);
                assert(items.deep_view() =~= before.push(x.deep_view()));
                p = q;
                k = k + 1;
            },
        }
    }
    Ok((items, p))
}

/// A turn input: a block that must not be empty.
impl<I> Decode<I> for Vec<u8> {
    open spec fn parse(s: Seq<u8>, pos: nat) -> Result<(Seq<u8>, nat), GenericError<I>> {
        match parse_block::<I>(s, pos) {
            Err(e) => Err(in_context("turn input", e)),
            Ok((None, _)) => Err(GenericError::MissingTurnInput),
            Ok((Some(b), p)) => Ok((b, p)),
        }
    }

    fn decode_at(input: &[u8], pos: usize) -> (r: Result<(Vec<u8>, usize), GenericError<I>>) {
        match length_decoding::<I>(input, pos) {
            Err(e) => Err(context("turn input", e)),
            Ok((None, _)) => Err(GenericError::MissingTurnInput),
            Ok((Some(b), p)) => {
                let v = vstd::slice::slice_to_vec(b);
                assert(v.deep_view() =~= v@);
                Ok((v, p))
            },
        }
    }
}

/// A turn of the log: the turn number, then its inputs as a counted sequence.
impl<I> Decode<I> for (u64, Vec<Vec<u8>>) {
    open spec fn parse(s: Seq<u8>, pos: nat) -> Result<
        ((u64, Seq<Seq<u8>>), nat),
        GenericError<I>,
    > {
        match parse_u64::<I>(s, pos) {
            Err(e) => Err(e),
            Ok((t, p)) => match parse_seq::<Vec<u8>, I>(s, p) {
                Err(e) => Err(in_context("turn inputs", e)),
                Ok((inputs, q)) => Ok(((t, inputs), q)),
            },
        }
    }

    fn decode_at(input: &[u8], pos: usize) -> (r: Result<
        ((u64, Vec<Vec<u8>>), usize),
        GenericError<I>,
    >) {
        let (t, p) = match decode_be_u64::<I>(input, pos) {
            Err(e) => return Err(e),
            Ok(x) => x,
        };
        match decode_vec::<Vec<u8>, I>(input, p) {
            Err(e) => Err(context("turn inputs", e)),
            Ok((inputs, q)) => Ok(((t, inputs), q)),
        }
    }
}

} // verus!
