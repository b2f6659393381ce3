//! Decoding of UF2 firmware containers, projection of their payload onto a
//! simulated flash window, and the SHA-256 fingerprint of the resulting image.

use vstd::prelude::*;

pub mod cli;
pub mod hash;
pub mod uf2;
pub mod virtual_flash;
pub mod write_order;

verus! {

/// Configuration of one run: the flash window and the source of the
/// container's bytes.
#[derive(Debug)]
pub struct Params<T> {
    pub flash_size: u32,
    pub start_addr: u32,
    pub input_buf: T,
}

} // verus!
