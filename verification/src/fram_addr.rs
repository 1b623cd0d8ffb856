//! FRAM regions and their bounds.
use vstd::prelude::*;

verus! {

/// The one way in which an access to FRAM can fail.
#[derive(Clone, Copy, PartialEq, Eq, Structural, Debug)]
pub enum FramError {
    /// The access would run past the end of the region.
    OutOfBounds,
}

/// Address of information FRAM, four segments of 128 bytes below every region
/// that the linker uses.
pub const INFO_BASE: u16 = 0x1800;

/// Size of information FRAM in bytes.
pub const INFO_CAPACITY: usize = 512;

/// Address of upper FRAM, above the 16-bit address space.
pub const HIGH_BASE: u32 = 0x1_0000;

/// Size of upper FRAM in bytes.
pub const HIGH_CAPACITY: usize = 0x4000;

/// Refuses an access whose end lies past `capacity`. The empty access at the
/// very end is allowed.
pub fn check_bounds(offset: u32, len: usize, capacity: usize) -> (r: Result<(), FramError>)
    ensures
        r == if offset + len <= capacity {
            Ok::<(), FramError>(())
        } else {
            Err(FramError::OutOfBounds)
        },
{
    let end: u128 = offset as u128 + len as u128;
    if end > capacity as u128 {
        Err(FramError::OutOfBounds)
    } else {
        Ok(())
    }
}

} // verus!
