//! Decoding of the key file: one base58-encoded keypair per line.
use vstd::prelude::*;

verus! {

/// Length in bytes of an encoded keypair: secret key then public key.
pub const KEYPAIR_LEN: usize = 64;

/// The bytes that a base58 string decodes to under the Bitcoin alphabet, or
/// `None` where it holds a character outside that alphabet.
pub uninterp spec fn base58_decoding(s: Seq<char>) -> Option<Seq<u8>>;

/// Relies on `bs58::decode(..).into_vec()`: the decoding of the string with
/// the default alphabet, or an error for a character outside it.
#[verifier::external_body]
fn decode_base58(s: &str) -> (r: Option<Vec<u8>>)
    ensures
        match r {
            Some(v) => base58_decoding(s@) == Some(v@),
            None => base58_decoding(s@).is_none(),
        },
{
    bs58::decode(s).into_vec().ok()
}

/// Why a line of the key file was refused.
#[derive(Clone, Copy, Debug, PartialEq, Eq)]
pub enum KeyError {
    /// The line at this index is not valid base58.
    BadEncoding { line: usize },
    /// The line at this index does not decode to a keypair's length.
    BadLength { line: usize },
}

/// A line that decodes to a keypair's bytes.
pub open spec fn key_line_ok(line: Seq<char>) -> bool {
    base58_decoding(line).is_some() && base58_decoding(line).unwrap().len() == KEYPAIR_LEN
}

/// The error for a line that is not accepted.
pub open spec fn key_line_error(line: Seq<char>, index: usize) -> KeyError {
    if base58_decoding(line).is_none() {
        KeyError::BadEncoding { line: index }
    } else {
        KeyError::BadLength { line: index }
    }
}

/// Decodes one line of the key file into keypair bytes.
pub fn decode_key_line(line: &str, index: usize) -> (r: Result<Vec<u8>, KeyError>)
    ensures
        match r {
            Ok(v) => key_line_ok(line@) && v@ == base58_decoding(line@).unwrap(),
            Err(e) => !key_line_ok(line@) && e == key_line_error(line@, index),
        },
{
    match decode_base58(line) {
        None => Err(KeyError::BadEncoding { line: index }),
        Some(bytes) => {
            if bytes.len() == KEYPAIR_LEN {
                Ok(bytes)
            } else {
                Err(KeyError::BadLength { line: index })
            }
        },
    }
}

/// Decodes every line of the key file, in order; the first bad line is
/// reported.
pub fn decode_key_lines(lines: &Vec<String>) -> (r: Result<Vec<Vec<u8>>, KeyError>)
    ensures
        match r {
            Ok(keys) => keys.len() == lines.len() && forall|i: int|
                0 <= i < lines.len() ==> key_line_ok(#[trigger] lines[i]@) && keys[i]@
                    == base58_decoding(lines[i]@).unwrap(),
            Err(e) => exists|i: int|
                0 <= i < lines.len() && !key_line_ok(#[trigger] lines[i]@) && e == key_line_error(
                    lines[i]@,
                    i as usize,
                ) && forall|j: int| 0 <= j < i ==> key_line_ok(#[trigger] lines[j]@),
        },
{
    let mut keys: Vec<Vec<u8>> = Vec::new();
    let mut i: usize = 0;
    while i < lines.len()
        invariant
            i <= lines.len(),
            keys.len() == i,
            forall|j: int|
                0 <= j < i ==> key_line_ok(#[trigger] lines[j]@) && keys[j]@ == base58_decoding(
                    lines[j]@,
                ).unwrap(),
        decreases lines.len() - i,
    {
        match decode_key_line(lines[i].as_str(), i) {
            Ok(k) => {
                keys.push(k);
            },
            Err(e) => {
                return Err(e);
            },
        }
        i = i + 1;
    }
    Ok(keys)
}

} // verus!
