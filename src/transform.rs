use crate::cipher::{decrypt, decrypt_spec, encrypt, encrypt_spec};
use crate::error::CryptError;
use crate::key::{fold_key, password_to_key};
use vstd::prelude::*;
use vstd::string::{StringExecFns, StringSliceAdditionalSpecFns};

verus! {

/// Direction of a transformation.
#[derive(Debug, Clone, Copy, PartialEq, Eq, Structural)]
pub enum Mode {
    Encrypt,
    Decrypt,
}

impl Default for Mode {
    fn default() -> (r: Mode)
        ensures
            r == Mode::Encrypt,
    {
        Mode::Encrypt
    }
}

/// The textual name of a mode.
pub open spec fn mode_label(mode: Mode) -> Seq<char> {
    match mode {
        Mode::Encrypt => "Encrypt"@,
        Mode::Decrypt => "Decrypt"@,
    }
}

impl Mode {
    /// The textual name of the mode: `"Encrypt"` or `"Decrypt"`.
    pub fn label(&self) -> (r: &'static str)
        ensures
            r@ == mode_label(*self),
    {
        match self {
            Mode::Encrypt => "Encrypt",
            Mode::Decrypt => "Decrypt",
        }
    }
}

/// The all-zero initialization vector used for every transformation.
pub open spec fn zero_iv() -> Seq<u8> {
    Seq::new(16, |_i: int| 0u8)
}

/// What a transformation yields: always the ciphertext when encrypting,
/// the plaintext or nothing when decrypting.
pub open spec fn transform_spec(mode: Mode, key: Seq<u8>, iv: Seq<u8>, input: Seq<u8>) -> Option<
    Seq<u8>,
> {
    match mode {
        Mode::Encrypt => Some(encrypt_spec(key, iv, input)),
        Mode::Decrypt => decrypt_spec(key, iv, input),
    }
}

/// Runs the cipher in the direction `mode` over `input`.
pub fn transform(mode: Mode, key: &[u8; 32], iv: &[u8; 16], input: &[u8]) -> (r: Result<
    Vec<u8>,
    CryptError,
>)
    requires
        input@.len() + 16 <= usize::MAX,
    ensures
        transform_spec(mode, key@, iv@, input@) == match r {
            Ok(v) => Some(v@),
            Err(_) => None::<Seq<u8>>,
        },
        r matches Err(e) ==> e == CryptError::DecryptError,
        mode == Mode::Encrypt ==> (r matches Ok(v) && decrypt_spec(key@, iv@, v@) == Some(input@)),
{
    match mode {
        Mode::Encrypt => Ok(encrypt(key, iv, input)),
        Mode::Decrypt => decrypt(key, iv, input),
    }
}

/// Transforms a file's content with the key derived from `passphrase` and
/// the all-zero IV. Encrypting always succeeds, and what it yields decrypts
/// back to `content` under the same passphrase.
pub fn process_content(content: &[u8], passphrase: &str, mode: Mode) -> (r: Result<
    Vec<u8>,
    CryptError,
>)
    requires
        content@.len() + 16 <= usize::MAX,
    ensures
        transform_spec(mode, fold_key(passphrase.spec_bytes()), zero_iv(), content@) == match r {
            Ok(v) => Some(v@),
            Err(_) => None::<Seq<u8>>,
        },
        r matches Err(e) ==> e == CryptError::DecryptError,
        mode == Mode::Encrypt ==> (r matches Ok(v) && decrypt_spec(
            fold_key(passphrase.spec_bytes()),
            zero_iv(),
            v@,
        ) == Some(content@)),
{
    let key = password_to_key(passphrase);
    let iv = [0u8; 16];
    assert(iv@ =~= zero_iv());
    transform(mode, &key, &iv, content)
}

/// The path of the output file: `"{path}_{mode_label}"`. It never equals `path`.
pub fn output_path(path: &str, mode: Mode) -> (r: String)
    ensures
        r@ == path@ + "_"@ + mode_label(mode),
        r@ != path@,
{
    let r = path.to_owned().concat("_").concat(mode.label());
    proof {
        reveal_strlit("_");
        assert(r@.len() > path@.len());
    }
    r
}

/// The status line shown after a successful transformation:
/// `"{mode_label}ed file saved as: {output_path}"`.
pub fn status_message(mode: Mode, output_path: &str) -> (r: String)
    ensures
        r@ == mode_label(mode) + "ed file saved as: "@ + output_path@,
{
    mode.label().to_owned().concat("ed file saved as: ").concat(output_path)
}

} // verus!
