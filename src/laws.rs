//! What holds of the container format across encoding and decoding.

use vstd::prelude::*;

use crate::bytes::{be32, be64, lemma_be32_round_trip, lemma_be64_round_trip};
use crate::decoder::{parse_block, parse_items, parse_seq, parse_u32, parse_u64, Decode};
use crate::encoder::{block, concat_encodings, seq_encoding, turn_encoding};
use crate::error::GenericError;
use crate::replay::{container, core_magic, decoded, parse_header, parse_replay, Replay, ReplayView, TurnView, REPLAY_FORMAT_VERSION};

verus! {

/// `s` holds `e` at `p`.
pub open spec fn holds_at(s: Seq<u8>, p: nat, e: Seq<u8>) -> bool {
    p + e.len() <= s.len() && s.subrange(p as int, (p + e.len()) as int) == e
}

/// What `s` holds at `p` as `a + b`, it holds as `a` at `p` and `b` right after.
proof fn lemma_holds_split(s: Seq<u8>, p: nat, a: Seq<u8>, b: Seq<u8>)
    requires
        holds_at(s, p, a + b),
    ensures
        holds_at(s, p, a),
        holds_at(s, p + a.len(), b),
{
    let w = s.subrange(p as int, (p + (a + b).len()) as int);
    assert(s.subrange(p as int, (p + a.len()) as int) =~= w.subrange(0, a.len() as int));
    assert(w.subrange(0, a.len() as int) =~= a);
    assert(s.subrange((p + a.len()) as int, (p + a.len() + b.len()) as int) =~= w.subrange(a.len() as int, (a + b).len() as int));
    assert(w.subrange(a.len() as int, (a + b).len() as int) =~= b);
}

proof fn lemma_read_u32<I>(s: Seq<u8>, p: nat, v: u32)
    requires
        holds_at(s, p, be32(v)),
    ensures
        parse_u32::<I>(s, p) == Ok::<(u32, nat), GenericError<I>>((v, p + 4)),
{
    lemma_be32_round_trip(v);
}

proof fn lemma_read_u64<I>(s: Seq<u8>, p: nat, v: u64)
    requires
        holds_at(s, p, be64(v)),
    ensures
        parse_u64::<I>(s, p) == Ok::<(u64, nat), GenericError<I>>((v, p + 8)),
{
    lemma_be64_round_trip(v);
}

proof fn lemma_read_block<I>(s: Seq<u8>, p: nat, b: Seq<u8>)
    requires
        holds_at(s, p, block(b)),
        b.len() <= u64::MAX,
    ensures
        parse_block::<I>(s, p) == Ok::<(Option<Seq<u8>>, nat), GenericError<I>>(
            (if b.len() == 0 { None } else { Some(b) }, p + 8 + b.len()),
        ),
{
    lemma_holds_split(s, p, be64(b.len() as u64), b);
    lemma_read_u64::<I>(s, p, b.len() as u64);
}

/// Every turn input of `log` has a non-empty encoding.
#[verifier::opaque]
pub open spec fn inputs_present(log: Seq<TurnView>) -> bool {
    forall|i: int, j: int| 0 <= i < log.len() && 0 <= j < log[i].1.len() ==> #[trigger] log[i].1[j].len() > 0
}

/// Every length and count in `r` fits the container's u64 fields.
#[verifier::opaque]
pub open spec fn fits(r: ReplayView) -> bool {
    &&& r.initial.len() <= u64::MAX
    &&& r.inputs.len() <= u64::MAX
    &&& forall|i: int| 0 <= i < r.inputs.len() ==> (#[trigger] r.inputs[i]).1.len() <= u64::MAX
    &&& forall|i: int, j: int| 0 <= i < r.inputs.len() && 0 <= j < r.inputs[i].1.len() ==> #[trigger] r.inputs[i].1[j].len() <= u64::MAX
}

proof fn lemma_read_inputs<I>(s: Seq<u8>, p: nat, xs: Seq<Seq<u8>>)
    requires
        holds_at(s, p, concat_encodings::<Vec<u8>>(xs)),
        forall|j: int| 0 <= j < xs.len() ==> (#[trigger] xs[j]).len() > 0 && xs[j].len() <= u64::MAX,
    ensures
        parse_items::<Vec<u8>, I>(s, p, xs.len()) == Ok::<(Seq<Seq<u8>>, nat), GenericError<I>>(
            (xs, p + concat_encodings::<Vec<u8>>(xs).len()),
        ),
    decreases xs.len(),
{
    if xs.len() > 0 {
        let init = xs.drop_last();
        lemma_holds_split(s, p, concat_encodings::<Vec<u8>>(init), block(xs.last()));
        lemma_read_inputs::<I>(s, p, init);
        assert(init.len() == (xs.len() - 1) as nat);
        lemma_read_block::<I>(s, p + concat_encodings::<Vec<u8>>(init).len(), xs.last());
        assert(init.push(xs.last()) =~= xs);
    } else {
        assert(xs =~= Seq::<Seq<u8>>::empty());
    }
}

proof fn lemma_read_input_seq<I>(s: Seq<u8>, p: nat, xs: Seq<Seq<u8>>)
    requires
        holds_at(s, p, seq_encoding::<Vec<u8>>(xs)),
        xs.len() <= u64::MAX,
        forall|j: int| 0 <= j < xs.len() ==> (#[trigger] xs[j]).len() > 0 && xs[j].len() <= u64::MAX,
    ensures
        parse_seq::<Vec<u8>, I>(s, p) == Ok::<(Seq<Seq<u8>>, nat), GenericError<I>>(
            (xs, p + seq_encoding::<Vec<u8>>(xs).len()),
        ),
{
    lemma_holds_split(s, p, be64(xs.len() as u64), concat_encodings::<Vec<u8>>(xs));
    lemma_read_u64::<I>(s, p, xs.len() as u64);
    lemma_read_inputs::<I>(s, p + 8, xs);
}

proof fn lemma_read_turn<I>(s: Seq<u8>, p: nat, t: TurnView)
    requires
        holds_at(s, p, turn_encoding(t)),
        t.1.len() <= u64::MAX,
        forall|j: int| 0 <= j < t.1.len() ==> (#[trigger] t.1[j]).len() > 0 && t.1[j].len() <= u64::MAX,
    ensures
        <(u64, Vec<Vec<u8>>) as Decode<I>>::parse(s, p) == Ok::<(TurnView, nat), GenericError<I>>(
            (t, p + turn_encoding(t).len()),
        ),
{
    lemma_holds_split(s, p, be64(t.0), seq_encoding::<Vec<u8>>(t.1));
    lemma_read_u64::<I>(s, p, t.0);
    lemma_read_input_seq::<I>(s, p + 8, t.1);
}

proof fn lemma_read_turns<I>(s: Seq<u8>, p: nat, log: Seq<TurnView>)
    requires
        holds_at(s, p, concat_encodings::<(u64, Vec<Vec<u8>>)>(log)),
        inputs_present(log),
        forall|i: int| 0 <= i < log.len() ==> (#[trigger] log[i]).1.len() <= u64::MAX,
        forall|i: int, j: int| 0 <= i < log.len() && 0 <= j < log[i].1.len() ==> #[trigger] log[i].1[j].len() <= u64::MAX,
    ensures
        parse_items::<(u64, Vec<Vec<u8>>), I>(s, p, log.len()) == Ok::<(Seq<TurnView>, nat), GenericError<I>>(
            (log, p + concat_encodings::<(u64, Vec<Vec<u8>>)>(log).len()),
        ),
    decreases log.len(),
{
    reveal(inputs_present);
    if log.len() > 0 {
        let init = log.drop_last();
        let t = log.last();
        lemma_holds_split(s, p, concat_encodings::<(u64, Vec<Vec<u8>>)>(init), turn_encoding(t));
        assert forall|i: int, j: int| 0 <= i < init.len() && 0 <= j < init[i].1.len() implies #[trigger] init[i].1[j].len() > 0 && init[i].1[j].len() <= u64::MAX by {
            assert(init[i] == log[i]);
        }
        assert forall|i: int| 0 <= i < init.len() implies (#[trigger] init[i]).1.len() <= u64::MAX by {
            assert(init[i] == log[i]);
        }
        lemma_read_turns::<I>(s, p, init);
        assert(init.len() == (log.len() - 1) as nat);
        assert forall|j: int| 0 <= j < t.1.len() implies (#[trigger] t.1[j]).len() > 0 && t.1[j].len() <= u64::MAX by {
            assert(log[log.len() - 1].1[j] == t.1[j]);
        }
        lemma_read_turn::<I>(s, p + concat_encodings::<(u64, Vec<Vec<u8>>)>(init).len(), t);
        assert(init.push(t) =~= log);
    } else {
        assert(log =~= Seq::<TurnView>::empty());
    }
}

/// Reading a header that names the expected tags and an accepted version.
proof fn lemma_read_header<I>(s: Seq<u8>, game_magic: Seq<u8>, game_version: u32, accept: spec_fn(u32) -> bool)
    requires
        game_magic.len() == 4,
        accept(game_version),
        holds_at(s, 0, core_magic() + be32(REPLAY_FORMAT_VERSION) + game_magic + be32(game_version)),
    ensures
        parse_header::<I>(s, game_magic, accept) == Ok::<nat, GenericError<I>>(16),
{
    let a = core_magic();
    let b = be32(REPLAY_FORMAT_VERSION);
    lemma_holds_split(s, 0, a + b + game_magic, be32(game_version));
    lemma_holds_split(s, 0, a + b, game_magic);
    lemma_holds_split(s, 0, a, b);
    assert(s.subrange(0, 4) =~= a);
    lemma_read_u32::<I>(s, 4, REPLAY_FORMAT_VERSION);
    assert(s.subrange(8, 12) =~= game_magic);
    lemma_read_u32::<I>(s, 12, game_version);
}

proof fn lemma_read_turn_seq<I>(s: Seq<u8>, p: nat, r: ReplayView)
    requires
        holds_at(s, p, seq_encoding::<(u64, Vec<Vec<u8>>)>(r.inputs)),
        fits(r),
        inputs_present(r.inputs),
    ensures
        parse_seq::<(u64, Vec<Vec<u8>>), I>(s, p) == Ok::<(Seq<TurnView>, nat), GenericError<I>>(
            (r.inputs, p + seq_encoding::<(u64, Vec<Vec<u8>>)>(r.inputs).len()),
        ),
{
    reveal(fits);
    lemma_holds_split(s, p, be64(r.inputs.len() as u64), concat_encodings::<(u64, Vec<Vec<u8>>)>(r.inputs));
    lemma_read_u64::<I>(s, p, r.inputs.len() as u64);
    lemma_read_turns::<I>(s, p + 8, r.inputs);
}

/// Where each part of the container bytes of `r` stands.
proof fn lemma_container_layout(r: ReplayView, game_magic: Seq<u8>, game_version: u32)
    requires
        game_magic.len() == 4,
    ensures
        holds_at(
            container(r, game_magic, game_version),
            0,
            core_magic() + be32(REPLAY_FORMAT_VERSION) + game_magic + be32(game_version),
        ),
        holds_at(container(r, game_magic, game_version), 16, be32(r.rate)),
        holds_at(container(r, game_magic, game_version), 20, block(r.initial)),
        holds_at(
            container(r, game_magic, game_version),
            20 + block(r.initial).len(),
            seq_encoding::<(u64, Vec<Vec<u8>>)>(r.inputs),
        ),
        container(r, game_magic, game_version).len() == 20 + block(r.initial).len()
            + seq_encoding::<(u64, Vec<Vec<u8>>)>(r.inputs).len(),
{
    reveal(container);
    let s = container(r, game_magic, game_version);
    let h = core_magic() + be32(REPLAY_FORMAT_VERSION) + game_magic + be32(game_version);
    let e = be32(r.rate);
    let f = block(r.initial);
    let g = seq_encoding::<(u64, Vec<Vec<u8>>)>(r.inputs);
    assert(s == h + e + f + g);
    assert(s.subrange(0, s.len() as int) =~= s);
    lemma_holds_split(s, 0, h + e + f, g);
    lemma_holds_split(s, 0, h + e, f);
    lemma_holds_split(s, 0, h, e);
}

/// Reading bytes laid out as the container of `r` gives `r`, and stops at their end.
proof fn lemma_parse_layout<I>(s: Seq<u8>, r: ReplayView, game_magic: Seq<u8>, game_version: u32, accept: spec_fn(u32) -> bool)
    requires
        game_magic.len() == 4,
        accept(game_version),
        fits(r),
        inputs_present(r.inputs),
        holds_at(s, 0, core_magic() + be32(REPLAY_FORMAT_VERSION) + game_magic + be32(game_version)),
        holds_at(s, 16, be32(r.rate)),
        holds_at(s, 20, block(r.initial)),
        holds_at(s, 20 + block(r.initial).len(), seq_encoding::<(u64, Vec<Vec<u8>>)>(r.inputs)),
        s.len() == 20 + block(r.initial).len() + seq_encoding::<(u64, Vec<Vec<u8>>)>(r.inputs).len(),
    ensures
        parse_replay::<I>(s, game_magic, accept) == Ok::<(ReplayView, nat), GenericError<I>>((r, s.len())),
{
    lemma_read_header::<I>(s, game_magic, game_version, accept);
    lemma_read_u32::<I>(s, 16, r.rate);
    assert(r.initial.len() <= u64::MAX) by {
        reveal(fits);
    }
    lemma_read_block::<I>(s, 20, r.initial);
    let p: nat = 20 + block(r.initial).len();
    lemma_read_turn_seq::<I>(s, p, r);
    if r.initial.len() == 0 {
        assert(r.initial =~= Seq::<u8>::empty());
    }
}

/// Reading the container bytes of `r` gives `r`, and stops at their end.
proof fn lemma_parse_container<I>(r: ReplayView, game_magic: Seq<u8>, game_version: u32, accept: spec_fn(u32) -> bool)
    requires
        game_magic.len() == 4,
        accept(game_version),
        fits(r),
        inputs_present(r.inputs),
    ensures
        parse_replay::<I>(container(r, game_magic, game_version), game_magic, accept) == Ok::<(ReplayView, nat), GenericError<I>>(
            (r, container(r, game_magic, game_version).len()),
        ),
{
    lemma_container_layout(r, game_magic, game_version);
    lemma_parse_layout::<I>(container(r, game_magic, game_version), r, game_magic, game_version, accept);
}

/// Round trip: decoding the container bytes of a replay gives the replay
/// back, whatever its rate, initial state and log, for any simulation tag and
/// any schema version that the reader's guard accepts. Every turn input must
/// have a non-empty encoding: an empty one is read back as a missing input.
pub proof fn lemma_round_trip<I>(r: Replay, game_magic: [u8; 4], game_version: u32, accept: spec_fn(u32) -> bool)
    requires
        accept(game_version),
        inputs_present(r@.inputs),
    ensures
        decoded::<I>(container(r@, game_magic@, game_version), game_magic@, accept) == Ok::<ReplayView, GenericError<I>>(r@),
{
    reveal(fits);
    assert(r.initial@.len() == r.initial.len());
    assert(r.inputs.deep_view().len() == r.inputs.len());
    assert forall|i: int| 0 <= i < r@.inputs.len() implies (#[trigger] r@.inputs[i]).1.len() <= u64::MAX by {
        assert(r@.inputs[i].1.len() == r.inputs@[i].1.len());
    }
    assert forall|i: int, j: int| 0 <= i < r@.inputs.len() && 0 <= j < r@.inputs[i].1.len() implies #[trigger] r@.inputs[i].1[j].len() <= u64::MAX by {
        assert(r@.inputs[i].1[j].len() == r.inputs@[i].1@[j].len());
    }
    lemma_parse_container::<I>(r@, game_magic@, game_version, accept);
}

/// `s` with the bytes at `p` replaced by `b`.
pub open spec fn overwritten(s: Seq<u8>, p: int, b: Seq<u8>) -> Seq<u8> {
    s.subrange(0, p) + b + s.subrange(p + b.len(), s.len() as int)
}

proof fn lemma_overwritten_layout(s: Seq<u8>, p: nat, b: Seq<u8>, q: nat, e: Seq<u8>)
    requires
        p + b.len() <= s.len(),
        holds_at(s, q, e),
        q + e.len() <= p,
    ensures
        holds_at(overwritten(s, p as int, b), q, e),
        holds_at(overwritten(s, p as int, b), p, b),
        overwritten(s, p as int, b).len() == s.len(),
{
    let t = overwritten(s, p as int, b);
    assert(t.subrange(q as int, (q + e.len()) as int) =~= s.subrange(q as int, (q + e.len()) as int));
    assert(t.subrange(p as int, (p + b.len()) as int) =~= b);
}

/// The container of `r` is long enough to hold its header and the length of its initial block.
proof fn lemma_container_header(r: ReplayView, game_magic: Seq<u8>, game_version: u32)
    requires
        game_magic.len() == 4,
    ensures
        container(r, game_magic, game_version).len() >= 28,
        holds_at(container(r, game_magic, game_version), 0, core_magic()),
        holds_at(container(r, game_magic, game_version), 0, core_magic() + be32(REPLAY_FORMAT_VERSION)),
        holds_at(container(r, game_magic, game_version), 0, core_magic() + be32(REPLAY_FORMAT_VERSION) + game_magic + be32(game_version)),
{
    let s = container(r, game_magic, game_version);
    let a = core_magic();
    let b = be32(REPLAY_FORMAT_VERSION);
    lemma_container_layout(r, game_magic, game_version);
    lemma_holds_split(s, 0, a + b + game_magic, be32(game_version));
    lemma_holds_split(s, 0, a + b, game_magic);
    lemma_holds_split(s, 0, a, b);
}

proof fn lemma_core_tag_refused<I>(s: Seq<u8>, game_magic: Seq<u8>, accept: spec_fn(u32) -> bool, found: [u8; 4])
    requires
        holds_at(s, 0, found@),
        found@ != core_magic(),
    ensures
        decoded::<I>(s, game_magic, accept) == Err::<ReplayView, GenericError<I>>(
            GenericError::Context("core magic bytes", Box::new(GenericError::InvalidMagic(found))),
        ),
{
    assert(s.subrange(0, 4) =~= found@);
    assert([s[0], s[1], s[2], s[3]] =~= found);
}

/// Magic guard, on the container's own tag: a container of `r` whose first
/// four bytes are replaced by any other tag is refused as an invalid magic,
/// found in the core magic field, and no replay is read from it.
pub proof fn lemma_core_magic_guard<I>(r: Replay, game_magic: [u8; 4], game_version: u32, accept: spec_fn(u32) -> bool, found: [u8; 4])
    requires
        found@ != core_magic(),
    ensures
        decoded::<I>(overwritten(container(r@, game_magic@, game_version), 0, found@), game_magic@, accept)
            == Err::<ReplayView, GenericError<I>>(
            GenericError::Context("core magic bytes", Box::new(GenericError::InvalidMagic(found))),
        ),
{
    let c = container(r@, game_magic@, game_version);
    lemma_container_header(r@, game_magic@, game_version);
    assert(c.subrange(0, 0) =~= Seq::<u8>::empty());
    lemma_overwritten_layout(c, 0, found@, 0, Seq::<u8>::empty());
    lemma_core_tag_refused::<I>(overwritten(c, 0, found@), game_magic@, accept, found);
}

/// Magic guard, on the simulation's tag: a container of `r` whose
/// simulation tag is replaced by any other four bytes is refused as an
/// invalid magic, found in the game magic field, and no replay is read from it.
pub proof fn lemma_game_magic_guard<I>(r: Replay, game_magic: [u8; 4], game_version: u32, accept: spec_fn(u32) -> bool, found: [u8; 4])
    requires
        found@ != game_magic@,
    ensures
        decoded::<I>(overwritten(container(r@, game_magic@, game_version), 8, found@), game_magic@, accept)
            == Err::<ReplayView, GenericError<I>>(
            GenericError::Context("game magic bytes", Box::new(GenericError::InvalidMagic(found))),
        ),
{
    let c = container(r@, game_magic@, game_version);
    lemma_container_header(r@, game_magic@, game_version);
    let s = overwritten(c, 8, found@);
    let ab = core_magic() + be32(REPLAY_FORMAT_VERSION);
    lemma_overwritten_layout(c, 8, found@, 0, ab);
    lemma_holds_split(s, 0, core_magic(), be32(REPLAY_FORMAT_VERSION));
    assert(s.subrange(0, 4) =~= core_magic());
    lemma_read_u32::<I>(s, 4, REPLAY_FORMAT_VERSION);
    assert(s.subrange(8, 12) =~= found@);
    assert([s[8], s[9], s[10], s[11]] =~= found);
}

/// Version guard, on the container format: a container of `r` whose format
/// version is replaced by any other version is refused as an unsupported
/// core version.
pub proof fn lemma_core_version_guard<I>(r: Replay, game_magic: [u8; 4], game_version: u32, accept: spec_fn(u32) -> bool, version: u32)
    requires
        version != REPLAY_FORMAT_VERSION,
    ensures
        decoded::<I>(overwritten(container(r@, game_magic@, game_version), 4, be32(version)), game_magic@, accept)
            == Err::<ReplayView, GenericError<I>>(
            GenericError::Context("core version", Box::new(GenericError::UnsupportedCoreVersion(version))),
        ),
{
    let c = container(r@, game_magic@, game_version);
    lemma_container_header(r@, game_magic@, game_version);
    let s = overwritten(c, 4, be32(version));
    lemma_overwritten_layout(c, 4, be32(version), 0, core_magic());
    assert(s.subrange(0, 4) =~= core_magic());
    lemma_read_u32::<I>(s, 4, version);
}

/// Version guard, on the simulation's schema: a container written with a
/// schema version that the reader's guard refuses is refused as an
/// unsupported game version.
pub proof fn lemma_game_version_guard<I>(r: Replay, game_magic: [u8; 4], game_version: u32, accept: spec_fn(u32) -> bool)
    requires
        !accept(game_version),
    ensures
        decoded::<I>(container(r@, game_magic@, game_version), game_magic@, accept)
            == Err::<ReplayView, GenericError<I>>(
            GenericError::Context("game version", Box::new(GenericError::UnsupportedGameVersion(game_version))),
        ),
{
    let s = container(r@, game_magic@, game_version);
    let a = core_magic();
    let b = be32(REPLAY_FORMAT_VERSION);
    lemma_container_header(r@, game_magic@, game_version);
    lemma_holds_split(s, 0, a + b + game_magic@, be32(game_version));
    lemma_holds_split(s, 0, a + b, game_magic@);
    lemma_holds_split(s, 0, a, b);
    assert(s.subrange(0, 4) =~= a);
    lemma_read_u32::<I>(s, 4, REPLAY_FORMAT_VERSION);
    assert(s.subrange(8, 12) =~= game_magic@);
    lemma_read_u32::<I>(s, 12, game_version);
}

/// Default on an empty initial block: whenever a container whose initial
/// block has length zero is read, the replay read has an empty initial
/// state, which stands for the state type's default value.
pub proof fn lemma_empty_initial_block<I>(s: Seq<u8>, game_magic: Seq<u8>, accept: spec_fn(u32) -> bool)
    requires
        holds_at(s, 20, be64(0)),
        decoded::<I>(s, game_magic, accept) is Ok,
    ensures
        decoded::<I>(s, game_magic, accept)->Ok_0.initial.len() == 0,
{
    lemma_read_u64::<I>(s, 20, 0);
}

/// `t` begins with `s`.
pub open spec fn extends(t: Seq<u8>, s: Seq<u8>) -> bool {
    s.len() <= t.len() && t.subrange(0, s.len() as int) == s
}

proof fn lemma_extends_window(t: Seq<u8>, s: Seq<u8>, p: int, q: int)
    requires
        extends(t, s),
        0 <= p <= q <= s.len(),
    ensures
        t.subrange(p, q) == s.subrange(p, q),
{
    assert(t.subrange(p, q) =~= t.subrange(0, s.len() as int).subrange(p, q));
}

proof fn lemma_extend_u32<I>(t: Seq<u8>, s: Seq<u8>, pos: nat)
    requires
        extends(t, s),
        parse_u32::<I>(s, pos) is Ok,
    ensures
        parse_u32::<I>(t, pos) == parse_u32::<I>(s, pos),
{
    lemma_extends_window(t, s, pos as int, pos as int + 4);
}

proof fn lemma_extend_u64<I>(t: Seq<u8>, s: Seq<u8>, pos: nat)
    requires
        extends(t, s),
        parse_u64::<I>(s, pos) is Ok,
    ensures
        parse_u64::<I>(t, pos) == parse_u64::<I>(s, pos),
{
    lemma_extends_window(t, s, pos as int, pos as int + 8);
}

proof fn lemma_extend_block<I>(t: Seq<u8>, s: Seq<u8>, pos: nat)
    requires
        extends(t, s),
        parse_block::<I>(s, pos) is Ok,
    ensures
        parse_block::<I>(t, pos) == parse_block::<I>(s, pos),
{
    lemma_extend_u64::<I>(t, s, pos);
    let len = parse_u64::<I>(s, pos)->Ok_0.0;
    if len > 0 {
        lemma_extends_window(t, s, pos as int + 8, pos as int + 8 + len);
    }
}

proof fn lemma_extend_inputs<I>(t: Seq<u8>, s: Seq<u8>, pos: nat, n: nat)
    requires
        extends(t, s),
        parse_items::<Vec<u8>, I>(s, pos, n) is Ok,
    ensures
        parse_items::<Vec<u8>, I>(t, pos, n) == parse_items::<Vec<u8>, I>(s, pos, n),
    decreases n,
{
    if n > 0 {
        lemma_extend_inputs::<I>(t, s, pos, (n - 1) as nat);
        let p = parse_items::<Vec<u8>, I>(s, pos, (n - 1) as nat)->Ok_0.1;
        lemma_extend_block::<I>(t, s, p);
    }
}

proof fn lemma_extend_input_seq<I>(t: Seq<u8>, s: Seq<u8>, pos: nat)
    requires
        extends(t, s),
        parse_seq::<Vec<u8>, I>(s, pos) is Ok,
    ensures
        parse_seq::<Vec<u8>, I>(t, pos) == parse_seq::<Vec<u8>, I>(s, pos),
{
    lemma_extend_u64::<I>(t, s, pos);
    let n = parse_u64::<I>(s, pos)->Ok_0.0;
    lemma_extend_inputs::<I>(t, s, pos + 8, n as nat);
}

proof fn lemma_extend_turns<I>(t: Seq<u8>, s: Seq<u8>, pos: nat, n: nat)
    requires
        extends(t, s),
        parse_items::<(u64, Vec<Vec<u8>>), I>(s, pos, n) is Ok,
    ensures
        parse_items::<(u64, Vec<Vec<u8>>), I>(t, pos, n) == parse_items::<(u64, Vec<Vec<u8>>), I>(s, pos, n),
    decreases n,
{
    if n > 0 {
        lemma_extend_turns::<I>(t, s, pos, (n - 1) as nat);
        let p = parse_items::<(u64, Vec<Vec<u8>>), I>(s, pos, (n - 1) as nat)->Ok_0.1;
        lemma_extend_u64::<I>(t, s, p);
        lemma_extend_input_seq::<I>(t, s, p + 8);
    }
}

proof fn lemma_extend_header<I>(t: Seq<u8>, s: Seq<u8>, game_magic: Seq<u8>, accept: spec_fn(u32) -> bool)
    requires
        extends(t, s),
        parse_header::<I>(s, game_magic, accept) is Ok,
    ensures
        parse_header::<I>(t, game_magic, accept) == parse_header::<I>(s, game_magic, accept),
{
    lemma_extends_window(t, s, 0, 4);
    lemma_extend_u32::<I>(t, s, 4);
    lemma_extends_window(t, s, 8, 12);
    lemma_extend_u32::<I>(t, s, 12);
}

/// Reading never looks past what it returns: whatever a prefix of `t`
/// decodes to, `t` decodes to as well, stopping at the same place.
pub proof fn lemma_extend_replay<I>(t: Seq<u8>, s: Seq<u8>, game_magic: Seq<u8>, accept: spec_fn(u32) -> bool)
    requires
        extends(t, s),
        parse_replay::<I>(s, game_magic, accept) is Ok,
    ensures
        parse_replay::<I>(t, game_magic, accept) == parse_replay::<I>(s, game_magic, accept),
{
    lemma_extend_header::<I>(t, s, game_magic, accept);
    lemma_extend_u32::<I>(t, s, 16);
    lemma_extend_block::<I>(t, s, 20);
    let p = parse_block::<I>(s, 20)->Ok_0.1;
    lemma_extend_u64::<I>(t, s, p);
    let n = parse_u64::<I>(s, p)->Ok_0.0;
    lemma_extend_turns::<I>(t, s, p + 8, n as nat);
}

/// Whatever a prefix of `t` decodes to, `t` decodes to as well.
pub proof fn lemma_extend_decoded<I>(t: Seq<u8>, s: Seq<u8>, game_magic: Seq<u8>, accept: spec_fn(u32) -> bool)
    requires
        extends(t, s),
        decoded::<I>(s, game_magic, accept) is Ok,
    ensures
        decoded::<I>(t, game_magic, accept) == decoded::<I>(s, game_magic, accept),
{
    lemma_extend_replay::<I>(t, s, game_magic, accept);
}

} // verus!
