use std::io::Read;
use vstd::prelude::*;
use vstd::string::*;

verus! {

#[verifier::external_type_specification]
#[verifier::external_body]
pub struct ExIoError(std::io::Error);

/// How many bytes a texture header needs.
pub const HEADER_LEN: usize = 8;

/// The side of every texture that a header yields.
pub const TEXTURE_SIDE: u32 = 64;

#[derive(Clone, Copy, Debug, PartialEq, Eq, Structural)]
pub struct Texture {
    pub width: u32,
    pub height: u32,
}

#[derive(Debug)]
pub enum LoadError {
    Io(std::io::Error),
    InvalidHeader(String),
}

impl LoadError {
    /// The text of the error: "io: ..." or "invalid header: ...".
    pub fn message(&self) -> (r: String)
        ensures
            self matches LoadError::InvalidHeader(s) ==> r@ == "invalid header: "@ + s@,
    {
        match self {
            LoadError::Io(e) => String::from_str("io: ").concat(io_error_text(e).as_str()),
            LoadError::InvalidHeader(s) => {
                proof {
                    reveal_strlit("invalid header: ");
                }
                String::from_str("invalid header: ").concat(s.as_str())
            },
        }
    }
}

/// Relies on the `Display` impl of `std::io::Error` for its text; nothing is
/// assumed of that text.
#[verifier::external_body]
fn io_error_text(e: &std::io::Error) -> String {
    e.to_string()
}

/// Relies on `std::io::Read::read`: on success it reports how many bytes it
/// read, at most the length of the buffer it was given (here `limit`).
#[verifier::external_body]
fn read_up_to<R: Read>(reader: &mut R, limit: usize) -> (r: Result<usize, std::io::Error>)
    ensures
        r matches Ok(n) ==> n <= limit,
{
    reader.read(&mut vec![0u8; limit])
}

/// The texture described by a header of which `available` bytes could be read.
pub fn texture_from_header_len(available: usize) -> (r: Result<Texture, LoadError>)
    ensures
        available >= HEADER_LEN <==> r is Ok,
        r matches Ok(t) ==> t == (Texture { width: TEXTURE_SIDE, height: TEXTURE_SIDE }),
        r matches Err(e) ==> e matches LoadError::InvalidHeader(m) && m@ == "too short"@,
{
    if available >= HEADER_LEN {
        Ok(Texture { width: TEXTURE_SIDE, height: TEXTURE_SIDE })
    } else {
        Err(LoadError::InvalidHeader(String::from_str("too short")))
    }
}

/// Reads a texture header from `reader`: up to `HEADER_LEN` bytes, until the
/// reader has no more or fails.
pub fn load_texture_from_reader<R: Read>(reader: &mut R) -> (r: Result<Texture, LoadError>)
    ensures
        r matches Ok(t) ==> t == (Texture { width: TEXTURE_SIDE, height: TEXTURE_SIDE }),
        r matches Err(LoadError::InvalidHeader(m)) ==> m@ == "too short"@,
{
    let mut filled: usize = 0;
    while filled < HEADER_LEN
        invariant
            filled <= HEADER_LEN,
        decreases HEADER_LEN - filled,
    {
        match read_up_to(reader, HEADER_LEN - filled) {
            Ok(0) => break,
            Ok(n) => filled = filled + n,
            Err(e) => return Err(LoadError::Io(e)),
        }
    }
    texture_from_header_len(filled)
}

} // verus!
