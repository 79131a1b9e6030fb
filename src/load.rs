//! Reading a container from a source of unknown length, chunk by chunk.
//!
//! Each chunk is appended to what was read before, and a whole decode of the
//! buffer is attempted again; for very large containers this costs time
//! quadratic in their size.

use vstd::prelude::*;

use crate::encoder::append_bytes;
use crate::error::{ErrorOwned, GenericError};
use crate::laws::lemma_extend_decoded;
use crate::replay::{accepted_by, decoded, is_version_guard, Replay, ReplayView};

verus! {

/// The bytes read so far, and the shortage that the last decode attempt reported.
pub struct Loader {
    pub buffer: Vec<u8>,
    pub last_needed: Option<usize>,
}

/// What a loader holds.
pub struct LoaderView {
    pub buffer: Seq<u8>,
    pub last_needed: Option<usize>,
}

impl View for Loader {
    type V = LoaderView;

    open spec fn view(&self) -> LoaderView {
        LoaderView { buffer: self.buffer@, last_needed: self.last_needed }
    }
}

/// The result of offering a loader one more chunk.
#[derive(Debug)]
pub enum LoadStep {
    /// The bytes so far hold a whole replay.
    Done(Replay),
    /// The bytes so far are wrong, or the source ended short.
    Failed(ErrorOwned),
    /// More bytes are needed; read on.
    NeedMore,
}

impl LoadStep {
    /// `None` to read on, else the replay or the failure that ends the load.
    pub open spec fn outcome(self) -> Option<Result<ReplayView, ErrorOwned>> {
        match self {
            LoadStep::Done(r) => Some(Ok(r@)),
            LoadStep::Failed(e) => Some(Err(e)),
            LoadStep::NeedMore => None,
        }
    }
}

/// Offering `chunk` to a loader in `state`. An empty chunk marks the end of
/// the source: after a shortage it ends the load with that shortage.
/// Otherwise the chunk is appended and the whole buffer decoded: a shortage
/// is remembered and the load goes on; a replay or any other failure ends it.
pub open spec fn step(state: LoaderView, chunk: Seq<u8>, game_magic: Seq<u8>, accept: spec_fn(u32) -> bool) -> (LoaderView, Option<Result<ReplayView, ErrorOwned>>) {
    if chunk.len() == 0 && state.last_needed is Some {
        (state, Some(Err(GenericError::Incomplete(state.last_needed->0))))
    } else {
        let buffer = state.buffer + chunk;
        match decoded::<Vec<u8>>(buffer, game_magic, accept) {
            Ok(r) => (LoaderView { buffer, last_needed: state.last_needed }, Some(Ok(r))),
            Err(GenericError::Incomplete(n)) => (LoaderView { buffer, last_needed: Some(n) }, None),
            Err(e) => (LoaderView { buffer, last_needed: state.last_needed }, Some(Err(e))),
        }
    }
}

/// Offering `chunks` in order to a loader in `state`: what ends the load, or
/// `None` if the chunks run out first.
pub open spec fn run(state: LoaderView, chunks: Seq<Seq<u8>>, game_magic: Seq<u8>, accept: spec_fn(u32) -> bool) -> Option<Result<ReplayView, ErrorOwned>>
    decreases chunks.len(),
{
    if chunks.len() == 0 {
        None
    } else {
        let (next, out) = step(state, chunks[0], game_magic, accept);
        match out {
            Some(o) => Some(o),
            None => run(next, chunks.drop_first(), game_magic, accept),
        }
    }
}

/// A loader that has read nothing.
pub open spec fn fresh() -> LoaderView {
    LoaderView { buffer: Seq::empty(), last_needed: None }
}

impl Loader {
    /// A loader that has read nothing.
    pub fn new() -> (r: Loader)
        ensures
            r@ == fresh(),
    {
        Loader { buffer: Vec::new(), last_needed: None }
    }

    /// Offers the next chunk read from the source; an empty chunk marks its
    /// end. See `step`.
    pub fn feed<G: Fn(u32) -> bool>(&mut self, chunk: &[u8], game_magic: [u8; 4], guard: G) -> (r: LoadStep)
        requires
            is_version_guard(guard),
        ensures
            (final(self)@, r.outcome()) == step(old(self)@, chunk@, game_magic@, accepted_by(guard)),
    {
        if chunk.len() == 0 {
            if let Some(needed) = self.last_needed {
                return LoadStep::Failed(GenericError::Incomplete(needed));
            }
        }
        append_bytes(&mut self.buffer, chunk);
        match Replay::parser::<Vec<u8>, G>(self.buffer.as_slice(), game_magic, guard) {
            Ok((r, _)) => LoadStep::Done(r),
            Err(GenericError::Incomplete(n)) => {
                self.last_needed = Some(n);
                LoadStep::NeedMore
            },
            Err(e) => LoadStep::Failed(e),
        }
    }
}

/// The bytes of `c` as chunks of one byte each.
pub open spec fn single_bytes(c: Seq<u8>) -> Seq<Seq<u8>> {
    Seq::new(c.len(), |i: int| seq![c[i]])
}

/// No non-empty proper prefix of `c` is refused outright: each decodes, or
/// asks for more bytes.
#[verifier::opaque]
pub open spec fn no_prefix_refused(c: Seq<u8>, game_magic: Seq<u8>, accept: spec_fn(u32) -> bool) -> bool {
    forall|k: int|
        0 < k < c.len() ==> match #[trigger] decoded::<Vec<u8>>(c.subrange(0, k), game_magic, accept) {
            Ok(_) => true,
            Err(GenericError::Incomplete(_)) => true,
            Err(_) => false,
        }
}

proof fn lemma_byte_run(c: Seq<u8>, i: nat, last: Option<usize>, game_magic: Seq<u8>, accept: spec_fn(u32) -> bool)
    requires
        i < c.len(),
        decoded::<Vec<u8>>(c, game_magic, accept) is Ok,
        no_prefix_refused(c, game_magic, accept),
    ensures
        run(LoaderView { buffer: c.subrange(0, i as int), last_needed: last }, single_bytes(c).subrange(i as int, c.len() as int), game_magic, accept)
            == Some(Ok::<ReplayView, ErrorOwned>(decoded::<Vec<u8>>(c, game_magic, accept)->Ok_0)),
    decreases c.len() - i,
{
    let chunks = single_bytes(c).subrange(i as int, c.len() as int);
    let state = LoaderView { buffer: c.subrange(0, i as int), last_needed: last };
    assert(chunks[0] == seq![c[i as int]]);
    assert(state.buffer + chunks[0] =~= c.subrange(0, i as int + 1));
    if i + 1 == c.len() {
        assert(c.subrange(0, i as int + 1) =~= c);
    } else {
        let k = i + 1;
        let prefix = c.subrange(0, k as int);
        assert(match decoded::<Vec<u8>>(prefix, game_magic, accept) {
            Ok(_) => true,
            Err(GenericError::Incomplete(_)) => true,
            Err(_) => false,
        }) by {
            reveal(no_prefix_refused);
        }
        if decoded::<Vec<u8>>(prefix, game_magic, accept) is Ok {
            assert(c.subrange(0, prefix.len() as int) == prefix);
            lemma_extend_decoded::<Vec<u8>>(c, prefix, game_magic, accept);
        } else {
            let n = decoded::<Vec<u8>>(prefix, game_magic, accept)->Err_0->Incomplete_0;
            assert(chunks.drop_first() =~= single_bytes(c).subrange(k as int, c.len() as int));
            lemma_byte_run(c, k as nat, Some(n), game_magic, accept);
        }
    }
}

/// Chunked load equivalence: offering a container to a fresh loader one byte
/// at a time ends the load with the same replay as offering it whole, namely
/// the one it decodes to. No non-empty proper prefix of the container may be
/// refused outright: one that is (as a block that declares more bytes than
/// have arrived is) ends the byte-wise load there with that failure.
pub proof fn lemma_chunked_load(c: Seq<u8>, game_magic: Seq<u8>, accept: spec_fn(u32) -> bool)
    requires
        decoded::<Vec<u8>>(c, game_magic, accept) is Ok,
        no_prefix_refused(c, game_magic, accept),
    ensures
        run(fresh(), single_bytes(c), game_magic, accept) == run(fresh(), seq![c], game_magic, accept),
        run(fresh(), seq![c], game_magic, accept) == Some(Ok::<ReplayView, ErrorOwned>(decoded::<Vec<u8>>(c, game_magic, accept)->Ok_0)),
{
    assert(Seq::<u8>::empty() + c =~= c);
    assert(seq![c].drop_first() =~= Seq::<Seq<u8>>::empty());
    if c.len() == 0 {
        assert(c =~= Seq::<u8>::empty());
    } else {
        assert(c.subrange(0, 0) =~= Seq::<u8>::empty());
        assert(single_bytes(c).subrange(0, c.len() as int) =~= single_bytes(c));
        lemma_byte_run(c, 0, None, game_magic, accept);
    }
}

} // verus!
