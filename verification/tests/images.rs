//! The value model and the program image format.

use benchmark::value::{
    apply, decode_image, is_wasm_binary, standard_argument, EvalError, ImageError, Lambda, Value,
};

fn word_image(w: u64) -> Vec<u8> {
    let mut bytes = vec![0u8];
    bytes.extend_from_slice(&w.to_le_bytes());
    bytes
}

#[test]
fn decode_word_image() {
    match decode_image(&word_image(5)) {
        Ok(Value::Word(5)) => {}
        other => panic!("expected the word five, got {:?}", other),
    }
    match decode_image(&word_image(u64::MAX)) {
        Ok(Value::Word(u64::MAX)) => {}
        other => panic!("expected the largest word, got {:?}", other),
    }
}

#[test]
fn decode_lambda_image() {
    match decode_image(&vec![1, 0]) {
        Ok(Value::Lambda(Lambda::AddWords)) => {}
        other => panic!("expected a callable, got {:?}", other),
    }
}

#[test]
fn decode_tree_image() {
    let mut bytes = vec![2u8, 2u8];
    bytes.extend_from_slice(&7u64.to_le_bytes());
    bytes.extend_from_slice(&9u64.to_le_bytes());
    match decode_image(&bytes) {
        Ok(Value::Tree(leaves)) => {
            assert_eq!(leaves.len(), 2);
            assert!(matches!(leaves[0], Value::Word(7)));
            assert!(matches!(leaves[1], Value::Word(9)));
        }
        other => panic!("expected a two-leaf tree, got {:?}", other),
    }
}

#[test]
fn decode_rejects_malformed_images() {
    assert_eq!(decode_image(&vec![]).unwrap_err(), ImageError::BadLength);
    assert_eq!(decode_image(&vec![0, 1, 2]).unwrap_err(), ImageError::BadLength);
    assert_eq!(decode_image(&vec![1]).unwrap_err(), ImageError::BadLength);
    assert_eq!(decode_image(&vec![1, 7]).unwrap_err(), ImageError::BadOpcode);
    assert_eq!(decode_image(&vec![2, 1, 0]).unwrap_err(), ImageError::BadLength);
    assert_eq!(decode_image(&vec![9, 9]).unwrap_err(), ImageError::BadTag);
}

#[test]
fn apply_sums_the_two_leaves() {
    let arg = standard_argument();
    assert_eq!(apply(&Lambda::AddWords, &arg), Ok(3));
}

#[test]
fn apply_truncates_to_32_bits_and_wraps() {
    let arg = Value::Tree(vec![Value::Word(0xffff_ffff), Value::Word(1)]);
    assert_eq!(apply(&Lambda::AddWords, &arg), Ok(0));
    let arg = Value::Tree(vec![Value::Word(0x1_0000_0002), Value::Word(3)]);
    assert_eq!(apply(&Lambda::AddWords, &arg), Ok(5));
}

#[test]
fn apply_rejects_misshapen_arguments() {
    assert_eq!(apply(&Lambda::AddWords, &Value::Word(1)), Err(EvalError::BadArgument));
    let one_leaf = Value::Tree(vec![Value::Word(1)]);
    assert_eq!(apply(&Lambda::AddWords, &one_leaf), Err(EvalError::BadArgument));
    let nested = Value::Tree(vec![Value::Word(1), Value::Tree(vec![])]);
    assert_eq!(apply(&Lambda::AddWords, &nested), Err(EvalError::BadArgument));
}

#[test]
fn wasm_binary_magic() {
    assert!(is_wasm_binary(&b"\0asm\x01\0\0\0".to_vec()));
    assert!(!is_wasm_binary(&b"(module)".to_vec()));
    assert!(!is_wasm_binary(&b"\0as".to_vec()));
}
