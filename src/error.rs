use vstd::prelude::*;

verus! {

/// Why a file transformation failed.
#[derive(Debug, Clone, Copy, PartialEq, Eq, Structural)]
pub enum CryptError {
    /// The input file does not exist or cannot be opened.
    FileOpenError,
    /// Reading the input file failed part way.
    FileReadError,
    /// The output file cannot be created or written.
    FileWriteError,
    /// The ciphertext length is not a multiple of the block size, or its
    /// padding is not valid once decrypted (wrong key, wrong IV or corrupted data).
    DecryptError,
}

} // verus!
