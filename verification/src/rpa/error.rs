use vstd::prelude::*;

verus! {

/// Why an RPA archive could not be opened or read.
#[derive(Debug)]
pub enum RpaError {
    Io(std::io::Error),
    InvalidHeader(String),
    Decompress(String),
    Pickle(String),
    FileNotFound(String),
    CorruptedData(String),
}

} // verus!
