use vstd::prelude::*;

verus! {

/// Why a compiled script could not be read.
#[derive(Debug)]
pub enum RpycError {
    Io(std::io::Error),
    InvalidMagic(String),
    CorruptedSlotTable(String),
    SlotNotFound(u32),
    Decompress(String),
    Pickle(String),
}

} // verus!
