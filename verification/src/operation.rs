//! The four slides, and how key presses select them.

use crate::error::GameError;
use vstd::prelude::*;
use vstd::slice::slice_subrange;

verus! {

/// A slide, named by the direction in which a tile moves into the blank.
#[derive(Debug, PartialEq, Eq, Structural, Clone, Copy)]
pub enum Operation {
    Up,
    Down,
    Left,
    Right,
}

/// The byte that a terminal in raw mode delivers for Ctrl-C.
pub const EXIT_BYTE: u8 = 3;

/// The operation that a key selects, if any.
pub open spec fn from_code_spec(code: char) -> Option<Operation> {
    if code == 'w' {
        Some(Operation::Up)
    } else if code == 'a' {
        Some(Operation::Left)
    } else if code == 's' {
        Some(Operation::Down)
    } else if code == 'd' {
        Some(Operation::Right)
    } else {
        None
    }
}

/// Whether a byte of input ends the wait for a key: the exit byte or one of
/// the four keys. Every other byte is skipped.
pub open spec fn is_key(byte: u8) -> bool {
    byte == EXIT_BYTE || from_code_spec(byte as char).is_some()
}

/// The number of bytes at the front of `bytes` that are skipped.
pub open spec fn skipped(bytes: Seq<u8>) -> nat
    decreases bytes.len(),
{
    if bytes.len() == 0 || is_key(bytes[0]) {
        0
    } else {
        1 + skipped(bytes.drop_first())
    }
}

/// The text of the error that is reported when the input ends before a key.
pub open spec fn end_of_input() -> Seq<char> {
    "failed to fill whole buffer"@
}

impl Operation {
    /// The operation that a key selects: `w` up, `a` left, `s` down, `d`
    /// right; no other key selects one.
    pub fn from_code(code: char) -> (r: Option<Operation>)
        ensures
            r == from_code_spec(code),
    {
        if code == 'w' {
            Some(Operation::Up)
        } else if code == 'a' {
            Some(Operation::Left)
        } else if code == 's' {
            Some(Operation::Down)
        } else if code == 'd' {
            Some(Operation::Right)
        } else {
            None
        }
    }

    /// Takes bytes from the front of `reader` up to and including the first
    /// key. The exit byte gives `GameError::Exit`, one of the four keys its
    /// operation; bytes before it are dropped. If the input holds no key,
    /// all of it is consumed and the result is `GameError::Other`.
    pub fn get_next(reader: &mut &[u8]) -> (r: Result<Operation, GameError>)
        ensures
            ({
                let bytes = old(reader)@;
                let k = skipped(bytes) as int;
                &&& k <= bytes.len()
                &&& k < bytes.len() ==> {
                    &&& final(reader)@ == bytes.skip(k + 1)
                    &&& bytes[k] == EXIT_BYTE ==> r == Err::<Operation, GameError>(GameError::Exit)
                    &&& bytes[k] != EXIT_BYTE ==> from_code_spec(bytes[k] as char).is_some() && r
                        == Ok::<Operation, GameError>(from_code_spec(bytes[k] as char).unwrap())
                }
                &&& k == bytes.len() ==> {
                    &&& final(reader)@.len() == 0
                    &&& r matches Err(GameError::Other(m)) && m@ == end_of_input()
                }
            }),
    {
        let input: &[u8] = *reader;
        let n: usize = input.len();
        let mut i: usize = 0;
        assert(input@.skip(0) =~= input@);
        while i < n
            invariant
                i <= n,
                n == input@.len(),
                input@ == old(reader)@,
                skipped(input@) == i + skipped(input@.skip(i as int)),
            decreases n - i,
        {
            let byte: u8 = input[i];
            proof {
                let rest = input@.skip(i as int);
                assert(rest[0] == byte);
                assert(rest.drop_first() =~= input@.skip(i + 1));
                assert(skipped(rest) == if is_key(byte) {
                    0
                } else {
                    1 + skipped(rest.drop_first())
                });
            }
            if byte == EXIT_BYTE {
                *reader = slice_subrange(input, i + 1, n);
                assert(reader@ =~= input@.skip(i + 1));
                return Err(GameError::Exit);
            }
            match Operation::from_code(byte as char) {
                Some(op) => {
                    *reader = slice_subrange(input, i + 1, n);
                    assert(reader@ =~= input@.skip(i + 1));
                    return Ok(op);
                },
                None => {},
            }
            i = i + 1;
        }
        *reader = slice_subrange(input, n, n);
        Err(GameError::Other("failed to fill whole buffer".to_owned()))
    }
}

} // verus!
