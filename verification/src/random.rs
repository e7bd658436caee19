//! Random bytes from the operating system.

use vstd::prelude::*;

verus! {

#[verifier::external_type_specification]
#[verifier::external_body]
pub struct ExGetrandomError(getrandom::Error);

/// The operating system's random source gave nothing.
#[derive(Clone, Copy, Debug, PartialEq, Eq, Structural)]
pub struct RandomUnavailable {}

/// Calls `getrandom::fill` on a new buffer.
///
/// Claims that a successful call leaves the buffer at the length that was asked for, and that the
/// call succeeds where no bytes are asked for: the operating system is not asked then. Nothing is
/// said of the bytes, nor of when a call for some succeeds: both are up to the operating system. A
/// buffer holds at most `isize::MAX` bytes.
#[verifier::external_body]
fn fill(count: usize) -> (result: Result<Vec<u8>, getrandom::Error>)
    requires
        count <= isize::MAX,
    ensures
        result matches Ok(bytes) ==> bytes@.len() == count,
        count == 0 ==> result is Ok,
{
    let mut bytes = vec![0_u8; count];
    getrandom::fill(&mut bytes)?;
    Ok(bytes)
}

/// As many random bytes as asked for. No bytes can always be had.
pub fn random_bytes(count: usize) -> (result: Result<Vec<u8>, RandomUnavailable>)
    requires
        count <= isize::MAX,
    ensures
        result matches Ok(bytes) ==> bytes@.len() == count,
        count == 0 ==> result is Ok,
{
    match fill(count) {
        Ok(bytes) => Ok(bytes),
        Err(_) => Err(RandomUnavailable {  }),
    }
}

} // verus!
