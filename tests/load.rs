use strategka_core::load::LoadStep;
use strategka_core::{GenericError, Loader, Replay};

const GAME: [u8; 4] = *b"TWD2";

fn exact_version(v: u32) -> bool {
    v == 1
}

fn bytes_of(replay: &Replay) -> Vec<u8> {
    let mut buffer = vec![];
    replay.encode(GAME, 1, &mut buffer);
    buffer
}

fn load_in_chunks(bytes: &[u8], size: usize) -> LoadStep {
    let mut loader = Loader::new();
    for chunk in bytes.chunks(size) {
        match loader.feed(chunk, GAME, exact_version) {
            LoadStep::NeedMore => {}
            done => return done,
        }
    }
    loop {
        match loader.feed(&[], GAME, exact_version) {
            LoadStep::NeedMore => {}
            done => return done,
        }
    }
}

#[test]
fn byte_wise_load_equals_whole_load() {
    let mut replay = Replay::new(&[], 60);
    replay.record(0, &vec![]).expect("record");
    replay.record(3, &vec![]).expect("record");
    let bytes = bytes_of(&replay);
    let whole = match load_in_chunks(&bytes, bytes.len()) {
        LoadStep::Done(r) => r,
        other => panic!("whole load: {:?}", other),
    };
    let byte_wise = match load_in_chunks(&bytes, 1) {
        LoadStep::Done(r) => r,
        other => panic!("byte-wise load: {:?}", other),
    };
    assert_eq!(whole, replay);
    assert_eq!(byte_wise, whole);
}

#[test]
fn byte_wise_load_stops_at_a_partly_arrived_block() {
    let replay = Replay::new(&[1, 2, 3], 60);
    let bytes = bytes_of(&replay);
    match load_in_chunks(&bytes, 1) {
        LoadStep::Failed(GenericError::Context(label, inner)) => {
            assert_eq!(label, "initial world");
            assert!(matches!(*inner, GenericError::InvalidLength(3, 0)));
        }
        other => panic!("unexpected {:?}", other),
    }
    assert!(matches!(load_in_chunks(&bytes, bytes.len()), LoadStep::Done(r) if r == replay));
}

#[test]
fn truncated_source_ends_with_the_shortage() {
    let replay = Replay::new(&[1, 2, 3], 60);
    let bytes = bytes_of(&replay);
    match load_in_chunks(&bytes[..14], 4) {
        LoadStep::Failed(GenericError::Incomplete(n)) => assert_eq!(n, 2),
        other => panic!("unexpected {:?}", other),
    }
}

#[test]
fn empty_source_ends_with_a_shortage() {
    let mut loader = Loader::new();
    assert!(matches!(loader.feed(&[], GAME, exact_version), LoadStep::NeedMore));
    assert_eq!(loader.last_needed, Some(4));
    assert!(matches!(
        loader.feed(&[], GAME, exact_version),
        LoadStep::Failed(GenericError::Incomplete(4))
    ));
}

#[test]
fn load_fails_at_once_on_foreign_bytes() {
    let mut loader = Loader::new();
    match loader.feed(b"PNG\x00rest", GAME, exact_version) {
        LoadStep::Failed(GenericError::Context(label, inner)) => {
            assert_eq!(label, "core magic bytes");
            assert!(matches!(*inner, GenericError::InvalidMagic(m) if m == *b"PNG\x00"));
        }
        other => panic!("unexpected {:?}", other),
    }
}

#[test]
fn load_ignores_bytes_after_the_container() {
    let replay = Replay::new(&[5], 24);
    let mut bytes = bytes_of(&replay);
    bytes.extend_from_slice(&[0xFF; 5]);
    assert!(matches!(load_in_chunks(&bytes, bytes.len()), LoadStep::Done(r) if r == replay));
}
