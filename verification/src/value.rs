//! The value model of the isolated domain and the program image format.
//!
//! A program image is an immutable byte sequence that decodes into one value:
//! a word-sized integer, an ordered tree of values, or a callable.  The
//! benchmark contract demands that an image decode to a callable; call
//! arguments are built from the tree-shaped values.

use vstd::prelude::*;
use crate::region::{le_word_value, read_le_word};

verus! {

/// A callable produced by decoding a program image.
#[derive(Debug, Copy, Clone, PartialEq, Eq, Structural)]
pub enum Lambda {
    /// Sums the two word leaves of its argument tree, truncating each to 32
    /// bits and wrapping the sum, as the reference programs do.
    AddWords,
}

/// A value of the isolated domain: a word-sized leaf, an ordered branch, or a
/// callable.
#[derive(Debug)]
pub enum Value {
    Word(u64),
    Tree(Vec<Value>),
    Lambda(Lambda),
}

/// The failure modes of evaluating a callable.
#[derive(Debug, Copy, Clone, PartialEq, Eq, Structural)]
pub enum EvalError {
    /// The argument does not have the shape the callable expects.
    BadArgument,
}

/// The failure modes of decoding a program image.
#[derive(Debug, Copy, Clone, PartialEq, Eq, Structural)]
pub enum ImageError {
    /// The byte sequence does not have the exact length its tag demands.
    BadLength,
    /// The leading tag byte does not name a value shape.
    BadTag,
    /// The callable opcode does not name a known program.
    BadOpcode,
}

/// Truncate both operands to 32 bits and add, wrapping at 32 bits.
pub open spec fn spec_add_words(x: u64, y: u64) -> u64 {
    (((x % 0x1_0000_0000) + (y % 0x1_0000_0000)) % 0x1_0000_0000) as u64
}

/// What applying a callable to an argument yields.
pub open spec fn spec_apply(l: Lambda, arg: Value) -> Result<u64, EvalError> {
    match l {
        Lambda::AddWords => match arg {
            Value::Tree(leaves) => if leaves@.len() == 2 && leaves@[0] is Word
                && leaves@[1] is Word {
                Ok(spec_add_words(leaves@[0]->Word_0, leaves@[1]->Word_0))
            } else {
                Err(EvalError::BadArgument)
            },
            _ => Err(EvalError::BadArgument),
        },
    }
}

/// Apply a callable to an argument value, forcing full evaluation of the
/// result word.  Any argument whose shape the callable does not expect is a
/// contract violation reported as an error.
pub fn apply(l: &Lambda, arg: &Value) -> (r: Result<u64, EvalError>)
    ensures
        r == spec_apply(*l, *arg),
{
    match l {
        Lambda::AddWords => match arg {
            Value::Tree(leaves) => {
                if leaves.len() == 2 {
                    let a = &leaves[0];
                    let b = &leaves[1];
                    match (a, b) {
                        (Value::Word(x), Value::Word(y)) => {
                            let xl: u64 = *x % 0x1_0000_0000;
                            let yl: u64 = *y % 0x1_0000_0000;
                            Ok((xl + yl) % 0x1_0000_0000)
                        },
                        _ => Err(EvalError::BadArgument),
                    }
                } else {
                    Err(EvalError::BadArgument)
                }
            },
            _ => Err(EvalError::BadArgument),
        },
    }
}

/// The fixed two-leaf argument every benchmark call applies the callable to.
pub fn standard_argument() -> (v: Value)
    ensures
        v is Tree,
        v->Tree_0@.len() == 2,
        v->Tree_0@[0] == Value::Word(1),
        v->Tree_0@[1] == Value::Word(2),
        spec_apply(Lambda::AddWords, v) == Ok::<u64, EvalError>(3u64),
{
    let mut leaves: Vec<Value> = Vec::new();
    leaves.push(Value::Word(1));
    leaves.push(Value::Word(2));
    Value::Tree(leaves)
}

/// Whether the bytes already carry the binary module magic (NUL, 'a', 's',
/// 'm'), as opposed to textual module source that still needs assembling.
pub fn is_wasm_binary(bytes: &Vec<u8>) -> (r: bool)
    ensures
        r == (bytes@.len() >= 4 && bytes@[0] == 0u8 && bytes@[1] == 0x61u8 && bytes@[2]
            == 0x73u8 && bytes@[3] == 0x6du8),
{
    bytes.len() >= 4 && bytes[0] == 0 && bytes[1] == 0x61 && bytes[2] == 0x73 && bytes[3]
        == 0x6d
}

/// The word leaves of a tree image: entry `i` is the word encoded
/// little-endian at bytes `2 + 8 i .. 2 + 8 (i + 1)`.
pub open spec fn spec_tree_words(bs: Seq<u8>) -> Seq<Value> {
    Seq::new((bs[1] as nat), |i: int| Value::Word(
        le_word_value(bs.subrange(2 + 8 * i, 2 + 8 * i + 8)) as u64,
    ))
}

/// Which error, if any, decoding a program image reports: a tag byte selects
/// the value shape, and the byte count must match that shape exactly.
pub open spec fn spec_image_error(bs: Seq<u8>) -> Option<ImageError> {
    if bs.len() < 1 {
        Some(ImageError::BadLength)
    } else if bs[0] == 0 {
        if bs.len() == 9 {
            None
        } else {
            Some(ImageError::BadLength)
        }
    } else if bs[0] == 1 {
        if bs.len() != 2 {
            Some(ImageError::BadLength)
        } else if bs[1] == 0 {
            None
        } else {
            Some(ImageError::BadOpcode)
        }
    } else if bs[0] == 2 {
        if bs.len() == 2 + 8 * (bs[1] as int) {
            None
        } else {
            Some(ImageError::BadLength)
        }
    } else {
        Some(ImageError::BadTag)
    }
}

/// The value a well-formed program image decodes to.  For any byte sequence
/// without a decode error this pins the result uniquely.
pub open spec fn image_decodes_to(bs: Seq<u8>, v: Value) -> bool {
    &&& bs.len() >= 1
    &&& if bs[0] == 0 {
        v == Value::Word(le_word_value(bs.subrange(1, 9)) as u64)
    } else if bs[0] == 1 {
        v == Value::Lambda(Lambda::AddWords)
    } else {
        &&& v is Tree
        &&& v->Tree_0@ == spec_tree_words(bs)
    }
}

/// Decode a program image into a value; report exactly the error that
/// `spec_image_error` assigns to malformed images.
pub fn decode_image(bytes: &Vec<u8>) -> (r: Result<Value, ImageError>)
    ensures
        match r {
            Ok(v) => spec_image_error(bytes@) is None && image_decodes_to(bytes@, v),
            Err(e) => spec_image_error(bytes@) == Some(e),
        },
{
    let n: usize = bytes.len();
    if n < 1 {
        return Err(ImageError::BadLength);
    }
    let tag: u8 = bytes[0];
    if tag == 0 {
        if n == 9 {
            Ok(Value::Word(read_le_word(bytes, 1)))
        } else {
            Err(ImageError::BadLength)
        }
    } else if tag == 1 {
        if n == 2 {
            if bytes[1] == 0 {
                Ok(Value::Lambda(Lambda::AddWords))
            } else {
                Err(ImageError::BadOpcode)
            }
        } else {
            Err(ImageError::BadLength)
        }
    } else if tag == 2 {
        if n < 2 {
            return Err(ImageError::BadLength);
        }
        let count: usize = bytes[1] as usize;
        if n == 2 + 8 * count {
            let mut leaves: Vec<Value> = Vec::new();
            let mut i: usize = 0;
            while i < count
                invariant
                    i <= count,
                    n == bytes@.len(),
                    n == 2 + 8 * count,
                    count == bytes@[1],
                    leaves@.len() == i,
                    forall|j: int|
                        0 <= j < i ==> leaves@[j] == spec_tree_words(bytes@)[j],
                decreases count - i,
            {
                let w: u64 = read_le_word(bytes, 2 + 8 * i);
                leaves.push(Value::Word(w));
                i = i + 1;
            }
            proof {
                assert(leaves@ =~= spec_tree_words(bytes@));
            }
            Ok(Value::Tree(leaves))
        } else {
            Err(ImageError::BadLength)
        }
    } else {
        Err(ImageError::BadTag)
    }
}

} // verus!
