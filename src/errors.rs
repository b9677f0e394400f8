use vstd::prelude::*;

verus! {

/// Failures of the command-line layer and of decoding.
#[derive(Debug)]
pub enum QOIError {
    FileReadError,
    FileWriteError,
    ImageDecodeError(String),
    InvalidArgs(String),
}

} // verus!
