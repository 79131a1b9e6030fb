use strategka_core::decoder::{decode_be_u32, decode_be_u64};
use strategka_core::{
    decode_vec, encode_be_u32, encode_be_u64, encode_vec, length_decoding, length_encoded,
    GenericError,
};

type Owned = GenericError<Vec<u8>>;

#[test]
fn be_u32_is_big_endian() {
    let mut sink = vec![0xEE];
    encode_be_u32(0x0102_0304, &mut sink);
    assert_eq!(sink, vec![0xEE, 1, 2, 3, 4]);
}

#[test]
fn be_u64_is_big_endian() {
    let mut sink = vec![];
    encode_be_u64(0x0102_0304_0506_0708, &mut sink);
    assert_eq!(sink, vec![1, 2, 3, 4, 5, 6, 7, 8]);
    let mut sink = vec![];
    encode_be_u64(u64::MAX, &mut sink);
    assert_eq!(sink, vec![0xFF; 8]);
}

#[test]
fn be_integers_read_back() {
    let bytes = [9, 0xDE, 0xAD, 0xBE, 0xEF, 1, 2, 3, 4];
    assert!(matches!(decode_be_u32::<Vec<u8>>(&bytes, 1), Ok((0xDEAD_BEEF, 5))));
    assert!(matches!(decode_be_u64::<Vec<u8>>(&bytes, 1), Ok((0xDEAD_BEEF_0102_0304, 9))));
    let short: Result<(u64, usize), Owned> = decode_be_u64(&bytes, 3);
    assert!(matches!(short, Err(GenericError::Incomplete(2))));
}

#[test]
fn length_encoded_writes_prefix_and_body() {
    let mut sink = vec![];
    length_encoded(&mut sink, &[7, 8, 9]);
    assert_eq!(sink, vec![0, 0, 0, 0, 0, 0, 0, 3, 7, 8, 9]);
}

#[test]
fn length_encoded_writes_prefix_for_empty_body() {
    let mut sink = vec![];
    length_encoded(&mut sink, &[]);
    assert_eq!(sink, vec![0; 8]);
}

#[test]
fn encode_vec_counts_then_frames_items() {
    let mut sink = vec![];
    let items: Vec<Vec<u8>> = vec![vec![1], vec![2, 3]];
    encode_vec(&items, &mut sink);
    assert_eq!(
        sink,
        vec![0, 0, 0, 0, 0, 0, 0, 2, 0, 0, 0, 0, 0, 0, 0, 1, 1, 0, 0, 0, 0, 0, 0, 0, 2, 2, 3]
    );
    let mut empty = vec![];
    encode_vec::<Vec<u8>>(&[], &mut empty);
    assert_eq!(empty, vec![0; 8]);
}

#[test]
fn length_decoding_reads_blocks() {
    let bytes = [0, 0, 0, 0, 0, 0, 0, 2, 5, 6, 0xFF];
    match length_decoding::<Vec<u8>>(&bytes, 0) {
        Ok((Some(body), next)) => {
            assert_eq!(body, &[5, 6]);
            assert_eq!(next, 10);
        }
        other => panic!("unexpected {:?}", other),
    }
    let empty = [0u8; 8];
    assert!(matches!(length_decoding::<Vec<u8>>(&empty, 0), Ok((None, 8))));
    let short = [0, 0, 0, 0, 0, 0, 0, 9, 1];
    assert!(matches!(
        length_decoding::<Vec<u8>>(&short, 0),
        Err(GenericError::InvalidLength(9, 1))
    ));
    assert!(matches!(length_decoding::<Vec<u8>>(&short[..5], 0), Err(GenericError::Incomplete(3))));
}

#[test]
fn decode_vec_reads_items_in_order() {
    let mut sink = vec![];
    let items: Vec<Vec<u8>> = vec![vec![1], vec![2, 3]];
    encode_vec(&items, &mut sink);
    let read: Result<(Vec<Vec<u8>>, usize), Owned> = decode_vec(&sink, 0);
    match read {
        Ok((got, next)) => {
            assert_eq!(got, items);
            assert_eq!(next, sink.len());
        }
        other => panic!("unexpected {:?}", other),
    }
}

#[test]
fn decode_vec_stops_at_first_bad_item() {
    let bytes = [0, 0, 0, 0, 0, 0, 0, 3, 0, 0, 0, 0, 0, 0, 0, 1, 4, 0, 0, 0, 0, 0, 0, 0, 0];
    let read: Result<(Vec<Vec<u8>>, usize), Owned> = decode_vec(&bytes, 0);
    match read {
        Err(GenericError::Context(label, inner)) => {
            assert_eq!(label, "vector item");
            assert!(matches!(*inner, GenericError::MissingTurnInput));
        }
        other => panic!("unexpected {:?}", other),
    }
}

#[test]
fn payload_errors_carry_their_field_path() {
    let e: Owned = strategka_core::replay::initial_payload_error(GenericError::MissingTurnInput);
    match e {
        GenericError::Context("initial world", inner) => {
            assert!(matches!(*inner, GenericError::Context("block body", _)))
        }
        other => panic!("unexpected {:?}", other),
    }
    let mut cur: Owned = strategka_core::replay::input_payload_error(GenericError::MissingTurnInput);
    let mut labels = vec![];
    while let GenericError::Context(label, inner) = cur {
        labels.push(label);
        cur = *inner;
    }
    assert_eq!(
        labels,
        vec!["inputs", "vector item", "turn inputs", "vector item", "turn input", "block body"]
    );
}
