use ciborium::value::Value;
use strategka_core::load::LoadStep;
use strategka_core::{GenericError, Loader, Replay};

const WORLD1: [u8; 4] = *b"TWD1";
const WORLD2: [u8; 4] = *b"TWD2";

fn cbor(value: &Value) -> Vec<u8> {
    let mut buffer = Vec::new();
    ciborium::into_writer(value, &mut buffer).expect("cbor");
    buffer
}

/// `TestWorld1 {}` as serde and ciborium write it.
fn world1() -> Vec<u8> {
    cbor(&Value::Map(vec![]))
}

/// `TestWorld2 { field1 }` as serde and ciborium write it.
fn world2(field1: u32) -> Vec<u8> {
    cbor(&Value::Map(vec![(
        Value::Text("field1".to_owned()),
        Value::Integer(field1.into()),
    )]))
}

fn add(n: u32) -> Vec<u8> {
    cbor(&Value::Map(vec![(Value::Text("Add".to_owned()), Value::Integer(n.into()))]))
}

fn sub(n: u32) -> Vec<u8> {
    cbor(&Value::Map(vec![(Value::Text("Sub".to_owned()), Value::Integer(n.into()))]))
}

fn exact_version(v: u32) -> bool {
    v == 1
}

fn make_encode_decode_test(replay: Replay, magic: [u8; 4]) {
    let mut buffer = vec![];
    replay.encode(magic, 1, &mut buffer);
    let replay_decoded = Replay::decode(&buffer, magic, exact_version).expect("decoded");
    assert_eq!(replay, replay_decoded);
}

fn make_save_load_test(replay: Replay, magic: [u8; 4]) {
    let mut file = vec![];
    replay.encode(magic, 1, &mut file);
    let mut loader = Loader::new();
    let replay_loaded = match loader.feed(&file, magic, exact_version) {
        LoadStep::Done(r) => r,
        other => panic!("load replay: {:?}", other),
    };
    assert_eq!(replay, replay_loaded);
}

#[test]
fn encode_decode_id() {
    let replay1 = Replay::new(&world1(), 60);
    make_encode_decode_test(replay1, WORLD1);

    let replay2 = Replay::new(&world2(42), 60);
    make_encode_decode_test(replay2, WORLD2);

    let mut replay3 = Replay::new(&world2(42), 60);
    replay3.record(0, &vec![]).expect("record");
    make_encode_decode_test(replay3, WORLD2);

    let mut replay4 = Replay::new(&world2(42), 60);
    replay4.record(1, &vec![add(4)]).expect("record");
    make_encode_decode_test(replay4, WORLD2);

    let mut replay5 = Replay::new(&world2(42), 60);
    replay5.record(1, &vec![add(4), sub(2)]).expect("record");
    make_encode_decode_test(replay5, WORLD2);

    let mut replay6 = Replay::new(&world2(42), 60);
    replay6.record(0, &vec![]).expect("record");
    replay6.record(1, &vec![add(4)]).expect("record");
    replay6.record(2, &vec![sub(2), add(8)]).expect("record");
    make_encode_decode_test(replay6, WORLD2);
}

#[test]
fn save_load_test() {
    let mut replay1 = Replay::new(&world2(42), 60);
    replay1.record(0, &vec![]).expect("record");
    replay1.record(1, &vec![add(4)]).expect("record");
    replay1.record(2, &vec![sub(2), add(8)]).expect("record");
    make_save_load_test(replay1, WORLD2);
}

fn example() -> Replay {
    let mut replay = Replay::new(&world2(42), 60);
    replay.record(0, &vec![]).expect("record");
    replay.record(1, &vec![add(4)]).expect("record");
    replay.record(2, &vec![sub(2), add(8)]).expect("record");
    replay
}

fn bytes_of(replay: &Replay, magic: [u8; 4], version: u32) -> Vec<u8> {
    let mut buffer = vec![];
    replay.encode(magic, version, &mut buffer);
    buffer
}

#[test]
fn example_scenario_round_trips_exactly() {
    let replay = example();
    assert_eq!(replay.rate, 60);
    assert_eq!(replay.inputs.len(), 3);
    let bytes = bytes_of(&replay, WORLD2, 1);
    let decoded = Replay::decode(&bytes, WORLD2, exact_version).expect("decoded");
    assert_eq!(decoded, replay);
    assert_eq!(decoded.initial, world2(42));
    assert_eq!(decoded.inputs[2].1, vec![sub(2), add(8)]);
}

#[test]
fn container_layout_is_exact() {
    let mut replay = Replay::new(&[0xAA, 0xBB], 60);
    replay.record(7, &vec![vec![0x01]]).expect("record");
    let bytes = bytes_of(&replay, *b"GAME", 3);
    let mut expected: Vec<u8> = vec![];
    expected.extend_from_slice(b"STGR");
    expected.extend_from_slice(&[0, 0, 0, 1]);
    expected.extend_from_slice(b"GAME");
    expected.extend_from_slice(&[0, 0, 0, 3]);
    expected.extend_from_slice(&[0, 0, 0, 60]);
    expected.extend_from_slice(&[0, 0, 0, 0, 0, 0, 0, 2, 0xAA, 0xBB]);
    expected.extend_from_slice(&[0, 0, 0, 0, 0, 0, 0, 1]);
    expected.extend_from_slice(&[0, 0, 0, 0, 0, 0, 0, 7]);
    expected.extend_from_slice(&[0, 0, 0, 0, 0, 0, 0, 1]);
    expected.extend_from_slice(&[0, 0, 0, 0, 0, 0, 0, 1, 0x01]);
    assert_eq!(bytes, expected);
}

#[test]
fn encode_appends_to_sink() {
    let replay = Replay::new(&[], 1);
    let mut sink = vec![9u8];
    replay.encode(WORLD1, 1, &mut sink);
    assert_eq!(sink[0], 9);
    assert_eq!(&sink[1..5], b"STGR");
    assert_eq!(sink.len(), 1 + 20 + 8 + 8);
}

#[test]
fn record_rejects_earlier_turn_and_keeps_log() {
    let mut replay = Replay::new(&world2(42), 60);
    replay.record(1, &vec![add(4)]).expect("record");
    let err = replay.record(0, &vec![sub(1)]).unwrap_err();
    assert!(matches!(err, GenericError::IncoherentTurn(1, 0)));
    assert_eq!(replay.inputs, vec![(1u64, vec![add(4)])]);
}

#[test]
fn record_rejects_same_turn() {
    let mut replay = Replay::new(&[], 60);
    replay.record(5, &vec![]).expect("record");
    let err = replay.record(5, &vec![]).unwrap_err();
    assert!(matches!(err, GenericError::IncoherentTurn(5, 5)));
    assert_eq!(replay.inputs.len(), 1);
    replay.record(6, &vec![]).expect("later turn");
    assert_eq!(replay.inputs.len(), 2);
}

#[test]
fn record_accepts_any_first_turn_and_gaps() {
    let mut replay = Replay::new(&[], 60);
    replay.record(u64::MAX - 10, &vec![add(1)]).expect("first");
    replay.record(u64::MAX, &vec![]).expect("gap");
    assert_eq!(replay.inputs[1].0, u64::MAX);
}

#[test]
fn default_replay() {
    let replay = Replay::default();
    assert_eq!(replay.rate, 60);
    assert!(replay.initial.is_empty());
    assert!(replay.inputs.is_empty());
}

fn context_of<'a, 'b>(e: &'b GenericError<&'a [u8]>) -> Option<(&'static str, &'b GenericError<&'a [u8]>)> {
    match e {
        GenericError::Context(label, inner) => Some((label, inner)),
        _ => None,
    }
}

#[test]
fn corrupted_core_magic_is_refused() {
    let mut bytes = bytes_of(&example(), WORLD2, 1);
    bytes[0] = b'X';
    let err = Replay::decode(&bytes, WORLD2, exact_version).unwrap_err();
    let (label, inner) = context_of(&err).expect("context");
    assert_eq!(label, "core magic bytes");
    assert!(matches!(inner, GenericError::InvalidMagic(m) if *m == *b"XTGR"));
}

#[test]
fn corrupted_game_magic_is_refused() {
    let bytes = bytes_of(&example(), WORLD2, 1);
    let err = Replay::decode(&bytes, WORLD1, exact_version).unwrap_err();
    let (label, inner) = context_of(&err).expect("context");
    assert_eq!(label, "game magic bytes");
    assert!(matches!(inner, GenericError::InvalidMagic(m) if *m == WORLD2));
}

#[test]
fn other_core_version_is_refused() {
    let mut bytes = bytes_of(&example(), WORLD2, 1);
    bytes[7] = 2;
    let err = Replay::decode(&bytes, WORLD2, exact_version).unwrap_err();
    let (label, inner) = context_of(&err).expect("context");
    assert_eq!(label, "core version");
    assert!(matches!(inner, GenericError::UnsupportedCoreVersion(2)));
}

#[test]
fn game_version_goes_through_the_guard() {
    let bytes = bytes_of(&example(), WORLD2, 3);
    let err = Replay::decode(&bytes, WORLD2, exact_version).unwrap_err();
    let (label, inner) = context_of(&err).expect("context");
    assert_eq!(label, "game version");
    assert!(matches!(inner, GenericError::UnsupportedGameVersion(3)));
    let accepted = Replay::decode(&bytes, WORLD2, |v| v <= 3).expect("older versions readable");
    assert_eq!(accepted, example());
}

#[test]
fn empty_initial_block_reads_as_absent() {
    let mut replay = Replay::new(&[], 30);
    replay.record(4, &vec![add(1)]).expect("record");
    let bytes = bytes_of(&replay, WORLD2, 1);
    assert_eq!(&bytes[20..28], &[0u8; 8]);
    let decoded = Replay::decode(&bytes, WORLD2, exact_version).expect("decoded");
    assert!(decoded.initial.is_empty());
    assert_eq!(decoded, replay);
}

#[test]
fn empty_turn_input_is_missing() {
    let mut replay = Replay::new(&world1(), 60);
    replay.record(0, &vec![vec![]]).expect("record");
    let bytes = bytes_of(&replay, WORLD1, 1);
    let err = Replay::decode(&bytes, WORLD1, exact_version).unwrap_err();
    let mut labels = vec![];
    let mut cur = &err;
    while let Some((label, inner)) = context_of(cur) {
        labels.push(label);
        cur = inner;
    }
    assert_eq!(labels, vec!["inputs", "vector item", "turn inputs", "vector item"]);
    assert!(matches!(cur, GenericError::MissingTurnInput));
}

#[test]
fn truncated_header_is_incomplete() {
    let bytes = bytes_of(&example(), WORLD2, 1);
    let err = Replay::decode(&bytes[..10], WORLD2, exact_version).unwrap_err();
    assert!(matches!(err, GenericError::Incomplete(2)));
    let err = Replay::decode(&[], WORLD2, exact_version).unwrap_err();
    assert!(matches!(err, GenericError::Incomplete(4)));
}

#[test]
fn short_block_is_invalid_length() {
    let bytes = bytes_of(&example(), WORLD2, 1);
    let err = Replay::decode(&bytes[..30], WORLD2, exact_version).unwrap_err();
    let (label, inner) = context_of(&err).expect("context");
    assert_eq!(label, "initial world");
    let declared = world2(42).len() as u64;
    assert!(matches!(inner, GenericError::InvalidLength(d, 2) if *d == declared));
}

#[test]
fn trailing_bytes_are_ignored() {
    let mut bytes = bytes_of(&example(), WORLD2, 1);
    bytes.extend_from_slice(&[1, 2, 3]);
    let decoded = Replay::decode(&bytes, WORLD2, exact_version).expect("decoded");
    assert_eq!(decoded, example());
}

#[test]
fn into_owned_keeps_the_failure() {
    let bytes = bytes_of(&example(), WORLD2, 1);
    let err = Replay::decode(&bytes, WORLD1, exact_version).unwrap_err();
    let owned = err.into_owned();
    match owned {
        GenericError::Context(label, inner) => {
            assert_eq!(label, "game magic bytes");
            assert!(matches!(*inner, GenericError::InvalidMagic(m) if m == WORLD2));
        }
        other => panic!("unexpected {:?}", other),
    }
    let slice: &[u8] = &[7, 8];
    let parsing: GenericError<&[u8]> = GenericError::Parsing(slice, strategka_core::ErrorKind::Eof);
    match parsing.into_owned() {
        GenericError::Parsing(v, strategka_core::ErrorKind::Eof) => assert_eq!(v, vec![7, 8]),
        other => panic!("unexpected {:?}", other),
    }
}
