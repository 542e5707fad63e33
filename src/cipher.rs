use crate::block::{aes256_decrypt_block, aes256_encrypt_block, decrypt_block, encrypt_block};
use crate::error::CryptError;
use vstd::prelude::*;

verus! {

/// Size of a cipher block in bytes.
pub const BLOCK_LEN: usize = 16;

/// Length of `len` bytes once padded: the next multiple of 16 strictly above `len`.
pub open spec fn padded_len(len: nat) -> nat {
    if len % 16 != 0 {
        (len + (16 - len % 16)) as nat
    } else {
        len + 16
    }
}

/// PKCS7 padding: append `n` bytes of value `n`, where `n = 16 - len % 16`.
pub open spec fn pkcs7_pad(data: Seq<u8>) -> Seq<u8> {
    let n = 16 - data.len() % 16;
    data + Seq::new(n as nat, |_i: int| n as u8)
}

/// PKCS7 unpadding: the last byte `n` must lie in `1..=16`, and the last `n`
/// bytes must all equal `n`; they are stripped.
pub open spec fn pkcs7_unpad(data: Seq<u8>) -> Option<Seq<u8>> {
    if data.len() == 0 {
        None
    } else {
        let n = data.last() as int;
        if 1 <= n <= 16 && n <= data.len() && (forall|i: int|
            data.len() - n <= i < data.len() ==> data[i] == n as u8) {
            Some(data.take(data.len() - n))
        } else {
            None
        }
    }
}

/// Block `i` (16 bytes) of `s`.
pub open spec fn block_of(s: Seq<u8>, i: int) -> Seq<u8> {
    s.subrange(16 * i, 16 * i + 16)
}

/// Byte-wise XOR of two blocks.
pub open spec fn xor_blocks(a: Seq<u8>, b: Seq<u8>) -> Seq<u8> {
    Seq::new(16, |j: int| a[j] ^ b[j])
}

/// The value that plaintext block `i` is XORed with before encryption:
/// the IV for the first block, else the previous ciphertext block.
pub open spec fn cbc_chain(key: Seq<u8>, iv: Seq<u8>, p: Seq<u8>, i: nat) -> Seq<u8>
    decreases i, 0nat,
{
    if i == 0 {
        iv
    } else {
        cbc_encrypted_block(key, iv, p, (i - 1) as nat)
    }
}

/// Ciphertext block `i` of the CBC encryption of `p`.
pub open spec fn cbc_encrypted_block(key: Seq<u8>, iv: Seq<u8>, p: Seq<u8>, i: nat) -> Seq<u8>
    decreases i, 1nat,
{
    aes256_encrypt_block(key, xor_blocks(block_of(p, i as int), cbc_chain(key, iv, p, i)))
}

/// CBC encryption of `p`, whose length is a multiple of 16.
pub open spec fn cbc_encrypt(key: Seq<u8>, iv: Seq<u8>, p: Seq<u8>) -> Seq<u8> {
    Seq::new(p.len(), |j: int| cbc_encrypted_block(key, iv, p, (j / 16) as nat)[j % 16])
}

/// Plaintext block `i` of the CBC decryption of `c`.
pub open spec fn cbc_decrypted_block(key: Seq<u8>, iv: Seq<u8>, c: Seq<u8>, i: int) -> Seq<u8> {
    let chain = if i == 0 {
        iv
    } else {
        block_of(c, i - 1)
    };
    xor_blocks(aes256_decrypt_block(key, block_of(c, i)), chain)
}

/// CBC decryption of `c`, whose length is a multiple of 16.
pub open spec fn cbc_decrypt(key: Seq<u8>, iv: Seq<u8>, c: Seq<u8>) -> Seq<u8> {
    Seq::new(c.len(), |j: int| cbc_decrypted_block(key, iv, c, j / 16)[j % 16])
}

/// Encryption: pad, then CBC-encrypt.
pub open spec fn encrypt_spec(key: Seq<u8>, iv: Seq<u8>, plaintext: Seq<u8>) -> Seq<u8> {
    cbc_encrypt(key, iv, pkcs7_pad(plaintext))
}

/// Decryption: `None` when the length is not a multiple of 16 or the
/// padding of the decrypted bytes is not valid.
pub open spec fn decrypt_spec(key: Seq<u8>, iv: Seq<u8>, ciphertext: Seq<u8>) -> Option<Seq<u8>> {
    if ciphertext.len() % 16 != 0 {
        None
    } else {
        pkcs7_unpad(cbc_decrypt(key, iv, ciphertext))
    }
}

/// Returns `data` with PKCS7 padding appended.
pub fn pkcs7_pad_vec(data: &[u8]) -> (r: Vec<u8>)
    requires
        data@.len() + 16 <= usize::MAX,
    ensures
        r@ == pkcs7_pad(data@),
        r@.len() == padded_len(data@.len()),
{
    let n: usize = BLOCK_LEN - data.len() % BLOCK_LEN;
    let mut r: Vec<u8> = Vec::with_capacity(data.len() + n);
    let mut i: usize = 0;
    while i < data.len()
        invariant
            i <= data@.len(),
            r@ == data@.take(i as int),
        decreases data@.len() - i,
    {
        r.push(data[i]);
        i = i + 1;
        proof {
            assert(r@ =~= data@.take(i as int));
        }
    }
    let mut k: usize = 0;
    while k < n
        invariant
            n == 16 - data@.len() % 16,
            k <= n,
            r@ == data@ + Seq::new(k as nat, |_i: int| n as u8),
        decreases n - k,
    {
        r.push(n as u8);
        k = k + 1;
        proof {
            assert(r@ =~= data@ + Seq::new(k as nat, |_i: int| n as u8));
        }
    }
    proof {
        assert(data@.take(data@.len() as int) =~= data@);
    }
    r
}

/// Unpadding undoes padding.
pub proof fn lemma_unpad_pad(data: Seq<u8>)
    ensures
        pkcs7_unpad(pkcs7_pad(data)) == Some(data),
{
    let p = pkcs7_pad(data);
    let n = 16 - data.len() % 16;
    assert(p.last() == n as u8);
    assert(p.take(p.len() - n) =~= data);
}

/// Block `i` of `data`.
fn read_block(data: &[u8], i: usize) -> (r: [u8; 16])
    requires
        16 * i + 16 <= data@.len(),
    ensures
        r@ == block_of(data@, i as int),
{
    let mut r = [0u8; 16];
    let len = data.len();
    assert(16 * i + 16 <= len);
    let base: usize = 16 * i;
    let mut t: usize = 0;
    while t < BLOCK_LEN
        invariant
            base == 16 * i,
            base + 16 <= data@.len(),
            t <= 16,
            forall|u: int| 0 <= u < t ==> r@[u] == data@[base + u],
        decreases 16 - t,
    {
        r[t] = data[base + t];
        t = t + 1;
    }
    assert(r@ =~= block_of(data@, i as int));
    r
}

/// Byte-wise XOR of two blocks.
fn xor_block(a: &[u8; 16], b: &[u8; 16]) -> (r: [u8; 16])
    ensures
        r@ == xor_blocks(a@, b@),
{
    let mut r = [0u8; 16];
    let mut t: usize = 0;
    while t < BLOCK_LEN
        invariant
            t <= 16,
            forall|u: int| 0 <= u < t ==> r@[u] == a@[u] ^ b@[u],
        decreases 16 - t,
    {
        r[t] = a[t] ^ b[t];
        t = t + 1;
    }
    assert(r@ =~= xor_blocks(a@, b@));
    r
}

/// Appends one block to `out`.
fn append_block(out: &mut Vec<u8>, b: &[u8; 16])
    ensures
        final(out)@ == old(out)@ + b@,
{
    let ghost start = out@;
    let mut t: usize = 0;
    while t < BLOCK_LEN
        invariant
            t <= 16,
            out@ == start + b@.take(t as int),
        decreases 16 - t,
    {
        out.push(b[t]);
        t = t + 1;
        assert(out@ =~= start + b@.take(t as int));
    }
    assert(b@.take(16) =~= b@);
}

/// Where byte `j` of a run of blocks lies: block `j / 16`, offset `j % 16`.
proof fn lemma_block_pos(i: int, t: int)
    requires
        0 <= i,
        0 <= t < 16,
    ensures
        (16 * i + t) / 16 == i,
        (16 * i + t) % 16 == t,
{
}

/// Each CBC ciphertext block decrypts to its plaintext block XORed with the
/// chaining value (what the block cipher gives for the blocks encrypted),
/// so the whole CBC ciphertext decrypts to the plaintext.
proof fn lemma_cbc_decrypts(key: Seq<u8>, iv: Seq<u8>, p: Seq<u8>)
    requires
        p.len() % 16 == 0,
        iv.len() == 16,
        forall|k: nat|
            k < p.len() / 16 ==> {
                &&& (#[trigger] cbc_encrypted_block(key, iv, p, k)).len() == 16
                &&& aes256_decrypt_block(key, cbc_encrypted_block(key, iv, p, k)) == xor_blocks(
                    block_of(p, k as int),
                    cbc_chain(key, iv, p, k),
                )
            },
    ensures
        cbc_decrypt(key, iv, cbc_encrypt(key, iv, p)) == p,
{
    let c = cbc_encrypt(key, iv, p);
    assert forall|i: nat| i < p.len() / 16 implies block_of(c, i as int) == cbc_encrypted_block(
        key,
        iv,
        p,
        i,
    ) by {
        assert forall|t: int| 0 <= t < 16 implies #[trigger] block_of(c, i as int)[t]
            == cbc_encrypted_block(key, iv, p, i)[t] by {
            lemma_block_pos(i as int, t);
        }
        assert(block_of(c, i as int) =~= cbc_encrypted_block(key, iv, p, i));
    }
    assert forall|j: int| 0 <= j < p.len() implies #[trigger] cbc_decrypt(key, iv, c)[j] == p[j] by {
        let i = j / 16;
        let t = j % 16;
        assert(j == 16 * i + t);
        assert(i < p.len() / 16);
        let ch = cbc_chain(key, iv, p, i as nat);
        if i > 0 {
            assert(block_of(c, i - 1) == cbc_encrypted_block(key, iv, p, (i - 1) as nat));
        }
        assert(block_of(c, i) == cbc_encrypted_block(key, iv, p, i as nat));
        let x = block_of(p, i)[t];
        let y = ch[t];
        assert((x ^ y) ^ y == x) by (bit_vector);
    }
    assert(cbc_decrypt(key, iv, c) =~= p);
}

/// Encrypts `plaintext`: PKCS7 padding, then AES-256 in CBC mode from `iv`.
/// The ciphertext always decrypts back to the plaintext.
pub fn encrypt(key: &[u8; 32], iv: &[u8; 16], plaintext: &[u8]) -> (r: Vec<u8>)
    requires
        plaintext@.len() + 16 <= usize::MAX,
    ensures
        r@ == encrypt_spec(key@, iv@, plaintext@),
        r@.len() == padded_len(plaintext@.len()),
        decrypt_spec(key@, iv@, r@) == Some(plaintext@),
{
    let padded = pkcs7_pad_vec(plaintext);
    let nblocks: usize = padded.len() / BLOCK_LEN;
    let mut out: Vec<u8> = Vec::with_capacity(padded.len());
    let mut chain: [u8; 16] = *iv;
    let mut i: usize = 0;
    while i < nblocks
        invariant
            padded@ == pkcs7_pad(plaintext@),
            padded@.len() == 16 * nblocks,
            i <= nblocks,
            out@ == Seq::new(
                (16 * i) as nat,
                |j: int| cbc_encrypted_block(key@, iv@, padded@, (j / 16) as nat)[j % 16],
            ),
            chain@ == cbc_chain(key@, iv@, padded@, i as nat),
            forall|k: nat|
                k < i ==> {
                    &&& (#[trigger] cbc_encrypted_block(key@, iv@, padded@, k)).len() == 16
                    &&& aes256_decrypt_block(key@, cbc_encrypted_block(key@, iv@, padded@, k))
                        == xor_blocks(block_of(padded@, k as int), cbc_chain(key@, iv@, padded@, k))
                },
        decreases nblocks - i,
    {
        let x = xor_block(&read_block(&padded, i), &chain);
        let c = encrypt_block(key, &x);
        let ghost before = out@;
        append_block(&mut out, &c);
        proof {
            let target = Seq::new(
                (16 * (i + 1)) as nat,
                |j: int| cbc_encrypted_block(key@, iv@, padded@, (j / 16) as nat)[j % 16],
            );
            assert forall|j: int| 0 <= j < 16 * (i + 1) implies out@[j] == target[j] by {
                if j >= 16 * i {
                    lemma_block_pos(i as int, j - 16 * i);
                }
            }
            assert(out@ =~= target);
        }
        chain = c;
        i = i + 1;
    }
    proof {
        assert(out@ =~= cbc_encrypt(key@, iv@, padded@));
        lemma_cbc_decrypts(key@, iv@, padded@);
        lemma_unpad_pad(plaintext@);
    }
    out
}

/// Strips PKCS7 padding from `data`, or returns `None` where it is not valid.
pub fn pkcs7_unpad_vec(data: Vec<u8>) -> (r: Option<Vec<u8>>)
    ensures
        pkcs7_unpad(data@) == match r {
            Some(v) => Some(v@),
            None => None::<Seq<u8>>,
        },
{
    let len = data.len();
    if len == 0 {
        return None;
    }
    let n: u8 = data[len - 1];
    if n == 0 || n > 16 || n as usize > len {
        return None;
    }
    let keep: usize = len - n as usize;
    let mut k: usize = keep;
    while k < len
        invariant
            len == data@.len(),
            keep == len - n,
            n == data@[len - 1],
            keep <= k <= len,
            forall|i: int| keep <= i < k ==> data@[i] == n,
        decreases len - k,
    {
        if data[k] != n {
            proof {
                let m = data@.last() as int;
                assert(m == n);
                assert(data@.len() - m <= k < data@.len() && data@[k as int] != m as u8);
            }
            return None;
        }
        k = k + 1;
    }
    let mut v = data;
    v.truncate(keep);
    proof {
        assert(v@ =~= data@.take(keep as int));
    }
    Some(v)
}

/// Decrypts `ciphertext`: AES-256 in CBC mode from `iv`, then PKCS7 unpadding.
/// Fails with `DecryptError` exactly when the length is not a multiple of 16
/// or the decrypted padding is not valid (which covers the empty input).
pub fn decrypt(key: &[u8; 32], iv: &[u8; 16], ciphertext: &[u8]) -> (r: Result<Vec<u8>, CryptError>)
    ensures
        decrypt_spec(key@, iv@, ciphertext@) == match r {
            Ok(p) => Some(p@),
            Err(_) => None::<Seq<u8>>,
        },
        r matches Err(e) ==> e == CryptError::DecryptError,
        ciphertext@.len() % 16 != 0 ==> r is Err,
{
    let len = ciphertext.len();
    if len % BLOCK_LEN != 0 {
        return Err(CryptError::DecryptError);
    }
    let nblocks: usize = len / BLOCK_LEN;
    let mut out: Vec<u8> = Vec::with_capacity(len);
    let mut i: usize = 0;
    while i < nblocks
        invariant
            len == ciphertext@.len(),
            len == 16 * nblocks,
            i <= nblocks,
            out@ == Seq::new(
                (16 * i) as nat,
                |j: int| cbc_decrypted_block(key@, iv@, ciphertext@, j / 16)[j % 16],
            ),
        decreases nblocks - i,
    {
        let d = decrypt_block(key, &read_block(ciphertext, i));
        let chain: [u8; 16] = if i == 0 {
            *iv
        } else {
            read_block(ciphertext, i - 1)
        };
        let p = xor_block(&d, &chain);
        append_block(&mut out, &p);
        proof {
            let target = Seq::new(
                (16 * (i + 1)) as nat,
                |j: int| cbc_decrypted_block(key@, iv@, ciphertext@, j / 16)[j % 16],
            );
            assert forall|j: int| 0 <= j < 16 * (i + 1) implies out@[j] == target[j] by {
                if j >= 16 * i {
                    lemma_block_pos(i as int, j - 16 * i);
                }
            }
            assert(out@ =~= target);
        }
        i = i + 1;
    }
    assert(out@ =~= cbc_decrypt(key@, iv@, ciphertext@));
    match pkcs7_unpad_vec(out) {
        Some(p) => Ok(p),
        None => Err(CryptError::DecryptError),
    }
}

} // verus!
