//! The replay aggregate: an initial state and a turn-ordered input log, with
//! the container layout that holds them.

use vstd::prelude::*;

use crate::bytes::{be32, encode_be_u32};
use crate::decoder::{decode_be_u32, decode_tag, decode_vec, length_decoding, parse_block, parse_seq, parse_tag, parse_u32};
use crate::encoder::{block, encode_vec, length_encoded, seq_encoding};
use crate::error::{context, in_context, ErrorBorrowed, GenericError, Turn};

verus! {

/// The version of the container layout that this code writes and reads.
pub const REPLAY_FORMAT_VERSION: u32 = 1;

/// The tag that opens every container: ASCII `STGR`.
pub open spec fn core_magic() -> Seq<u8> {
    seq![0x53u8, 0x54u8, 0x47u8, 0x52u8]
}

/// The tag that opens every container: ASCII `STGR`.
pub fn core_magic_bytes() -> (r: [u8; 4])
    ensures
        r@ == core_magic(),
{
    let r: [u8; 4] = [0x53, 0x54, 0x47, 0x52];
    assert(r@ =~= core_magic());
    r
}

/// A turn log entry as the contracts see it: the turn, then its input payloads.
pub type TurnView = (u64, Seq<Seq<u8>>);

/// What a replay holds.
pub struct ReplayView {
    pub rate: u32,
    pub initial: Seq<u8>,
    pub inputs: Seq<TurnView>,
}

/// A recording of a simulation: the turns per second it assumes, the
/// encoded initial state, and every turn that had inputs, with the encoded
/// inputs of that turn. An empty `initial` stands for the state type's
/// default value. Entries are appended in turn order by `record`.
#[derive(Debug, Clone, PartialEq, Eq)]
pub struct Replay {
    /// Simulation turns per second.
    pub rate: u32,
    /// Encoded state of the simulation at its start.
    pub initial: Vec<u8>,
    /// Each turn that had inputs, with its encoded inputs in order.
    pub inputs: Vec<(Turn, Vec<Vec<u8>>)>,
}

impl View for Replay {
    type V = ReplayView;

    open spec fn view(&self) -> ReplayView {
        ReplayView { rate: self.rate, initial: self.initial@, inputs: self.inputs.deep_view() }
    }
}

/// The turns of `log` strictly increase.
pub open spec fn turns_increase(log: Seq<TurnView>) -> bool {
    forall|i: int, j: int| 0 <= i < j < log.len() ==> log[i].0 < log[j].0
}

/// `turn` may be recorded after `log`: the log is empty or its last turn is earlier.
pub open spec fn may_follow(log: Seq<TurnView>, turn: u64) -> bool {
    log.len() == 0 || log.last().0 < turn
}

/// The container bytes of `r` for a simulation with the given tag and schema version.
#[verifier::opaque]
pub open spec fn container(r: ReplayView, game_magic: Seq<u8>, game_version: u32) -> Seq<u8> {
    core_magic() + be32(REPLAY_FORMAT_VERSION) + game_magic + be32(game_version) + be32(r.rate)
        + block(r.initial) + seq_encoding::<(u64, Vec<Vec<u8>>)>(r.inputs)
}

/// Reading the header: both tags and both versions. `accept` says which
/// schema versions of the simulation are still readable. Yields the position
/// after the header.
pub open spec fn parse_header<I>(s: Seq<u8>, game_magic: Seq<u8>, accept: spec_fn(u32) -> bool) -> Result<nat, GenericError<I>> {
    match parse_tag::<I>(s, 0, core_magic()) {
        Err(e) => Err(in_context("core magic bytes", e)),
        Ok(p) => match parse_u32::<I>(s, p) {
            Err(e) => Err(in_context("core version", e)),
            Ok((v, p)) => if v != REPLAY_FORMAT_VERSION {
                Err(in_context("core version", GenericError::UnsupportedCoreVersion(v)))
            } else {
                match parse_tag::<I>(s, p, game_magic) {
                    Err(e) => Err(in_context("game magic bytes", e)),
                    Ok(p) => match parse_u32::<I>(s, p) {
                        Err(e) => Err(in_context("game version", e)),
                        Ok((g, p)) => if !accept(g) {
                            Err(in_context("game version", GenericError::UnsupportedGameVersion(g)))
                        } else {
                            Ok(p)
                        },
                    },
                }
            },
        },
    }
}

/// Reading a whole container from the start of `s`; bytes after it are not read.
pub open spec fn parse_replay<I>(s: Seq<u8>, game_magic: Seq<u8>, accept: spec_fn(u32) -> bool) -> Result<(ReplayView, nat), GenericError<I>> {
    match parse_header::<I>(s, game_magic, accept) {
        Err(e) => Err(e),
        Ok(p) => match parse_u32::<I>(s, p) {
            Err(e) => Err(in_context("simulation rate", e)),
            Ok((rate, p)) => match parse_block::<I>(s, p) {
                Err(e) => Err(in_context("initial world", e)),
                Ok((initial, p)) => match parse_seq::<(u64, Vec<Vec<u8>>), I>(s, p) {
                    Err(e) => Err(in_context("inputs", e)),
                    Ok((inputs, p)) => Ok(
                        (
                            ReplayView {
                                rate,
                                initial: match initial {
                                    Some(b) => b,
                                    None => Seq::empty(),
                                },
                                inputs,
                            },
                            p,
                        ),
                    ),
                },
            },
        },
    }
}

/// What decoding `s` gives.
pub open spec fn decoded<I>(s: Seq<u8>, game_magic: Seq<u8>, accept: spec_fn(u32) -> bool) -> Result<ReplayView, GenericError<I>> {
    match parse_replay::<I>(s, game_magic, accept) {
        Ok((r, _)) => Ok(r),
        Err(e) => Err(e),
    }
}

/// The versions that `guard` accepts.
pub open spec fn accepted_by<G: Fn(u32) -> bool>(guard: G) -> spec_fn(u32) -> bool {
    |v: u32| guard.ensures((v,), true)
}

/// `guard` may be called on any version and answers each one way only.
pub open spec fn is_version_guard<G: Fn(u32) -> bool>(guard: G) -> bool {
    &&& forall|v: u32| guard.requires((v,))
    &&& forall|v: u32| !(#[trigger] guard.ensures((v,), true) && guard.ensures((v,), false))
}

impl Replay {
    /// An empty log that starts from the encoded state `initial`.
    pub fn new(initial: &[u8], rate: u32) -> (r: Replay)
        ensures
            r@ == (ReplayView { rate, initial: initial@, inputs: Seq::empty() }),
    {
        let r = Replay { rate, initial: vstd::slice::slice_to_vec(initial), inputs: Vec::new() };
        assert(r.inputs.deep_view() =~= Seq::<TurnView>::empty());
        r
    }

    /// Appends the inputs of `turn` to the log. Fails, changing nothing, when
    /// the log already holds `turn` or a later turn.
    pub fn record<'a>(&mut self, turn: Turn, inputs: &[Vec<u8>]) -> (r: Result<(), ErrorBorrowed<'a>>)
        ensures
            may_follow(old(self)@.inputs, turn) ==> r is Ok && final(self)@ == (ReplayView {
                inputs: old(self)@.inputs.push((turn, inputs.deep_view())),
                ..old(self)@
            }),
            !may_follow(old(self)@.inputs, turn) ==> r == Err::<(), ErrorBorrowed<'a>>(
                GenericError::IncoherentTurn(old(self)@.inputs.last().0, turn),
            ) && *final(self) == *old(self),
            turns_increase(old(self)@.inputs) ==> turns_increase(final(self)@.inputs),
    {
        let n = self.inputs.len();
        if n > 0 {
            let last = self.inputs[n - 1].0;
            if last >= turn {
                return Err(GenericError::IncoherentTurn(last, turn));
            }
        }
        let mut copied: Vec<Vec<u8>> = Vec::new();
        let mut i: usize = 0;
        while i < inputs.len()
            invariant
                i <= inputs@.len(),
                copied.deep_view() =~= inputs.deep_view().subrange(0, i as int),
            decreases inputs@.len() - i,
        {
            let ghost before = copied.deep_view();
            let item = vstd::slice::slice_to_vec(inputs[i].as_slice());
            assert(item.deep_view() =~= inputs@[i as int].deep_view());
            copied.push(item);
            assert(copied.deep_view() =~= before.push(inputs@[i as int].deep_view()));
            i += 1;
        }
        assert(inputs.deep_view().subrange(0, i as int) =~= inputs.deep_view());
        let ghost before = self.inputs.deep_view();
        self.inputs.push((turn, copied));
        assert(self.inputs.deep_view() =~= before.push((turn, inputs.deep_view())));
        proof {
            if turns_increase(before) && before.len() > 0 {
                assert forall|i: int| 0 <= i < before.len() implies #[trigger] before[i].0 < turn by {
                    if i < before.len() - 1 {
                        assert(before[i].0 < before[before.len() - 1].0);
                    }
                }
            }
        }
        Ok(())
    }

    /// Appends the container bytes of this replay to `sink`, for a simulation
    /// with the given tag and schema version.
    pub fn encode(&self, game_magic: [u8; 4], game_version: u32, sink: &mut Vec<u8>)
        ensures
            final(sink)@ == old(sink)@ + container(self@, game_magic@, game_version),
    {
        let magic = core_magic_bytes();
        sink.push(magic[0]);
        sink.push(magic[1]);
        sink.push(magic[2]);
        sink.push(magic[3]);
        encode_be_u32(REPLAY_FORMAT_VERSION, sink);
        sink.push(game_magic[0]);
        sink.push(game_magic[1]);
        sink.push(game_magic[2]);
        sink.push(game_magic[3]);
        encode_be_u32(game_version, sink);
        encode_be_u32(self.rate, sink);
        length_encoded(sink, self.initial.as_slice());
        let log = self.inputs.as_slice();
        encode_vec(log, sink);
        assert(log.deep_view() =~= self.inputs.deep_view());
        reveal(container);
        assert(sink@ =~= old(sink)@ + container(self@, game_magic@, game_version));
    }

    /// Reads a replay from the start of `input`; see `decoded`. Yields the
    /// position after it.
    pub(crate) fn parser<I, G: Fn(u32) -> bool>(input: &[u8], game_magic: [u8; 4], guard: G) -> (r: Result<(Replay, usize), GenericError<I>>)
        requires
            is_version_guard(guard),
        ensures
            match r {
                Ok((x, p)) => parse_replay::<I>(input@, game_magic@, accepted_by(guard)) == Ok::<(ReplayView, nat), GenericError<I>>((x@, p as nat)),
                Err(e) => parse_replay::<I>(input@, game_magic@, accepted_by(guard)) == Err::<(ReplayView, nat), GenericError<I>>(e),
            },
    {
        let p = match decode_tag::<I>(input, 0, core_magic_bytes()) {
            Err(e) => return Err(context("core magic bytes", e)),
            Ok(p) => p,
        };
        let (version, p) = match decode_be_u32::<I>(input, p) {
            Err(e) => return Err(context("core version", e)),
            Ok(x) => x,
        };
        if version != REPLAY_FORMAT_VERSION {
            return Err(context("core version", GenericError::UnsupportedCoreVersion(version)));
        }
        let p = match decode_tag::<I>(input, p, game_magic) {
            Err(e) => return Err(context("game magic bytes", e)),
            Ok(p) => p,
        };
        let (game_version, p) = match decode_be_u32::<I>(input, p) {
            Err(e) => return Err(context("game version", e)),
            Ok(x) => x,
        };
        if !guard(game_version) {
            return Err(context("game version", GenericError::UnsupportedGameVersion(game_version)));
        }
        assert(accepted_by(guard)(game_version));
        let (rate, p) = match decode_be_u32::<I>(input, p) {
            Err(e) => return Err(context("simulation rate", e)),
            Ok(x) => x,
        };
        let (initial, p) = match length_decoding::<I>(input, p) {
            Err(e) => return Err(context("initial world", e)),
            Ok((Some(b), p)) => (vstd::slice::slice_to_vec(b), p),
            Ok((None, p)) => (Vec::new(), p),
        };
        let (inputs, p) = match decode_vec::<(u64, Vec<Vec<u8>>), I>(input, p) {
            Err(e) => return Err(context("inputs", e)),
            Ok(x) => x,
        };
        let r = Replay { rate, initial, inputs };
        Ok((r, p))
    }

    /// Reads a replay from the start of `bytes` (bytes after it are ignored),
    /// for a simulation with the tag `game_magic` whose `guard` says which of
    /// its schema versions are readable.
    pub fn decode<'a, G: Fn(u32) -> bool>(bytes: &'a [u8], game_magic: [u8; 4], guard: G) -> (r: Result<Replay, ErrorBorrowed<'a>>)
        requires
            is_version_guard(guard),
        ensures
            match r {
                Ok(x) => decoded::<&'a [u8]>(bytes@, game_magic@, accepted_by(guard)) == Ok::<ReplayView, ErrorBorrowed<'a>>(x@),
                Err(e) => decoded::<&'a [u8]>(bytes@, game_magic@, accepted_by(guard)) == Err::<ReplayView, ErrorBorrowed<'a>>(e),
            },
    {
        match Self::parser::<&'a [u8], G>(bytes, game_magic, guard) {
            Ok((x, _)) => Ok(x),
            Err(e) => Err(e),
        }
    }
}

/// A replay at sixty turns per second, from the state type's default value,
/// with an empty log.
impl Default for Replay {
    fn default() -> (r: Replay)
        ensures
            r@ == (ReplayView { rate: 60, initial: Seq::empty(), inputs: Seq::empty() }),
    {
        let r = Replay { rate: 60, initial: Vec::new(), inputs: Vec::new() };
        assert(r.inputs.deep_view() =~= Seq::<TurnView>::empty());
        r
    }
}

/// The failure to decode the initial state's payload, tagged with the
/// fields that hold it.
pub fn initial_payload_error<I>(cause: GenericError<I>) -> (r: GenericError<I>)
    ensures
        r == GenericError::Context(
            "initial world",
            Box::new(GenericError::Context("block body", Box::new(cause))),
        ),
{
    GenericError::Context("initial world", Box::new(GenericError::Context("block body", Box::new(cause))))
}

/// The failure to decode a turn input's payload, tagged with the fields
/// that hold it.
pub fn input_payload_error<I>(cause: GenericError<I>) -> (r: GenericError<I>)
    ensures
        r == GenericError::Context(
            "inputs",
            Box::new(
                GenericError::Context(
                    "vector item",
                    Box::new(
                        GenericError::Context(
                            "turn inputs",
                            Box::new(
                                GenericError::Context(
                                    "vector item",
                                    Box::new(
                                        GenericError::Context(
                                            "turn input",
                                            Box::new(GenericError::Context("block body", Box::new(cause))),
                                        ),
                                    ),
                                ),
                            ),
                        ),
                    ),
                ),
            ),
        ),
{
    let body = GenericError::Context("block body", Box::new(cause));
    let input = GenericError::Context("turn input", Box::new(body));
    let item = GenericError::Context("vector item", Box::new(input));
    let turn = GenericError::Context("turn inputs", Box::new(item));
    let entry = GenericError::Context("vector item", Box::new(turn));
    GenericError::Context("inputs", Box::new(entry))
}

} // verus!
