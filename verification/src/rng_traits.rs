//! Random values of the integer types, drawn from the operating system.
use vstd::prelude::*;

verus! {

/// The operating system handed out no random bytes.
#[derive(Clone, Copy, Debug, PartialEq, Eq, Structural)]
pub struct EntropyError;

/// A type of which a value can be drawn at random, every value being as
/// likely as any other.
pub trait Randomizable: Sized {
    /// A fresh random value, or the reason why none could be had.
    fn random() -> Result<Self, EntropyError>;
}

#[verifier::external_type_specification]
#[verifier::external_body]
pub struct ExGetrandomError(getrandom::Error);

/// `getrandom::fill` on sixteen bytes, read as one integer. Nothing is known
/// of the integer; on failure the crate's error comes back.
#[verifier::external_body]
fn system_entropy() -> (r: Result<u128, getrandom::Error>) {
    let mut buf = [0u8; 16];
    match getrandom::fill(&mut buf) {
        Ok(()) => Ok(u128::from_ne_bytes(buf)),
        Err(e) => Err(e),
    }
}

/// Sixteen random bytes as one integer.
fn entropy() -> (r: Result<u128, EntropyError>) {
    match system_entropy() {
        Ok(bits) => Ok(bits),
        Err(_) => Err(EntropyError),
    }
}

impl Randomizable for u8 {
    fn random() -> Result<Self, EntropyError> {
        match entropy() {
            Ok(bits) => Ok(#[verifier::truncate] (bits as u8)),
            Err(e) => Err(e),
        }
    }
}

impl Randomizable for i8 {
    fn random() -> Result<Self, EntropyError> {
        match entropy() {
            Ok(bits) => Ok(#[verifier::truncate] (bits as i8)),
            Err(e) => Err(e),
        }
    }
}

impl Randomizable for u16 {
    fn random() -> Result<Self, EntropyError> {
        match entropy() {
            Ok(bits) => Ok(#[verifier::truncate] (bits as u16)),
            Err(e) => Err(e),
        }
    }
}

impl Randomizable for i16 {
    fn random() -> Result<Self, EntropyError> {
        match entropy() {
            Ok(bits) => Ok(#[verifier::truncate] (bits as i16)),
            Err(e) => Err(e),
        }
    }
}

impl Randomizable for u32 {
    fn random() -> Result<Self, EntropyError> {
        match entropy() {
            Ok(bits) => Ok(#[verifier::truncate] (bits as u32)),
            Err(e) => Err(e),
        }
    }
}

impl Randomizable for i32 {
    fn random() -> Result<Self, EntropyError> {
        match entropy() {
            Ok(bits) => Ok(#[verifier::truncate] (bits as i32)),
            Err(e) => Err(e),
        }
    }
}

impl Randomizable for u64 {
    fn random() -> Result<Self, EntropyError> {
        match entropy() {
            Ok(bits) => Ok(#[verifier::truncate] (bits as u64)),
            Err(e) => Err(e),
        }
    }
}

impl Randomizable for i64 {
    fn random() -> Result<Self, EntropyError> {
        match entropy() {
            Ok(bits) => Ok(#[verifier::truncate] (bits as i64)),
            Err(e) => Err(e),
        }
    }
}

impl Randomizable for u128 {
    fn random() -> Result<Self, EntropyError> {
        entropy()
    }
}

impl Randomizable for i128 {
    fn random() -> Result<Self, EntropyError> {
        match entropy() {
            Ok(bits) => Ok(#[verifier::truncate] (bits as i128)),
            Err(e) => Err(e),
        }
    }
}

impl Randomizable for usize {
    fn random() -> Result<Self, EntropyError> {
        match entropy() {
            Ok(bits) => Ok(#[verifier::truncate] (bits as usize)),
            Err(e) => Err(e),
        }
    }
}

} // verus!
