//! Passphrase-based file encryption: a 32-byte key folded from the passphrase,
//! AES-256 in CBC mode with PKCS7 padding, and the naming of the output file.

pub mod block;
pub mod cipher;
pub mod error;
pub mod key;
pub mod transform;
